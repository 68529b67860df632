use solar_telemetry::parse::parse_error::ParseError;
use solar_telemetry::parse::stored_data::StoredData;
use solar_telemetry::parse::traits::TryParse;
use solar_telemetry::parse::version::Version;
use solar_telemetry::solar_data::line::DataLine;
use solar_telemetry::solar_data::value::DataValue;

fn entries(line: &str) -> Vec<&str> {
    line.split(',').map(|entry| entry.trim()).collect()
}

fn read(line: &str) -> Result<DataLine, ParseError> {
    StoredData::default().parse_in_year(&entries(line), 2026)
}

fn error_of(line: &str) -> ParseError {
    match read(line) {
        Ok(_) => panic!("the line was read: {}", line),
        Err(e) => e,
    }
}

#[test]
fn stored_short_line_is_read() {
    let record = read("1/2/23,03:04,12.5,88,1.1,2").unwrap();
    assert_eq!(record.unix_time, 1_672_628_640);
    assert_eq!(record.line.len(), 4);
    assert!(record.line.iter().any(|v| matches!(v, DataValue::BatteryVoltage(12_500_000))));
    assert!(record.line.iter().any(|v| matches!(v, DataValue::StateOfChargePercent(88_000_000))));
    // 1.1 A at 12.5 V
    assert!(record.line.iter().any(|v| matches!(v, DataValue::SolarWatts(13_750_000))));
    // 2 A at 12.5 V
    assert!(record.line.iter().any(|v| matches!(v, DataValue::LoadWatts(25_000_000))));
}

#[test]
fn stored_short_line_is_read_as_seen_from_today() {
    let mut reader = StoredData::default();
    let record = reader.try_parse(&entries("1/2/23,03:04,12.5,88,1.1,2")).unwrap();
    assert_eq!(record.unix_time, 1_672_628_640);
}

#[test]
fn stored_line_with_statistics_is_read() {
    let record = read("1/2/23,03:04,12.5,88,1.1,2,x,3.1,3.2,3.3,3.4,500,400,70,95").unwrap();
    assert_eq!(record.line.len(), 4 + 4 + 4);
    assert!(record.line.iter().any(|v| matches!(
        v,
        DataValue::StatisticsCellVoltageLow { cell: 0, voltage: 3_100_000 }
    )));
    assert!(record.line.iter().any(|v| matches!(
        v,
        DataValue::StatisticsCellVoltageHigh { cell: 0, voltage: 3_200_000 }
    )));
    assert!(record.line.iter().any(|v| matches!(
        v,
        DataValue::StatisticsCellVoltageLow { cell: 1, voltage: 3_300_000 }
    )));
    assert!(record.line.iter().any(|v| matches!(
        v,
        DataValue::StatisticsCellVoltageHigh { cell: 1, voltage: 3_400_000 }
    )));
    assert!(record.line.iter().any(|v| matches!(v, DataValue::StatisticsSolarWatts(500_000_000))));
    assert!(record.line.iter().any(|v| matches!(v, DataValue::StatisticsLoadWatts(400_000_000))));
    assert!(record
        .line
        .iter()
        .any(|v| matches!(v, DataValue::StatisticsStateOfChargePercentLow(70_000_000))));
    assert!(record
        .line
        .iter()
        .any(|v| matches!(v, DataValue::StatisticsStateOfChargePercentHigh(95_000_000))));
}

#[test]
fn stored_line_with_sums_and_no_cells_is_read() {
    let record = read("1/2/23,03:04,12.5,88,1.1,2,,500,400,70,95").unwrap();
    assert_eq!(record.line.len(), 8);
}

#[test]
fn stored_entry_left_over_after_the_sums_is_not_read() {
    // five entries after the seventh: no cell, four sums, one left over
    let record = read("1/2/23,03:04,12.5,88,1.1,2,,500,400,70,95,left over").unwrap();
    assert_eq!(record.line.len(), 8);
}

#[test]
fn stored_line_without_data_is_refused_for_any_date() {
    for date in ["1/2/23", "6/15/11", "12/31/25", "1/1/10"] {
        let line = format!("{},03:04,5.0,0,0,0", date);
        assert_eq!(error_of(&line), ParseError::InvalidData);
        let line = format!("{},03:04,5,0.0,-0,+0.000", date);
        assert_eq!(error_of(&line), ParseError::InvalidData);
        let line = format!("{},03:04,5.0,0,0,0,,500,400,70,95", date);
        assert_eq!(error_of(&line), ParseError::InvalidData);
    }
}

#[test]
fn stored_line_close_to_one_without_data_is_read() {
    assert!(read("1/2/23,03:04,5.0,0,0,0.1").is_ok());
    assert!(read("1/2/23,03:04,5.1,0,0,0").is_ok());
    assert!(read("1/2/23,03:04,5.0,1,0,0").is_ok());
    assert!(read("1/2/23,03:04,5.0,0,2,0").is_ok());
}

#[test]
fn stored_line_dated_before_2010_is_refused() {
    assert_eq!(error_of("12/31/09,23:59,12.5,88,1.1,2"), ParseError::InvalidData);
    assert_eq!(error_of("1/1/00,00:00,12.5,88,1.1,2"), ParseError::InvalidData);
    // seen from 2026, the year 27 is 1927
    assert_eq!(error_of("1/2/27,03:04,12.5,88,1.1,2"), ParseError::InvalidData);
    assert_eq!(error_of("6/15/99,03:04,12.5,88,1.1,2"), ParseError::InvalidData);
}

#[test]
fn stored_line_dated_on_the_first_day_of_2010_is_read() {
    let record = read("1/1/10,00:00,12.5,88,1.1,2").unwrap();
    assert_eq!(record.unix_time, 1_262_304_000);
}

#[test]
fn stored_line_that_ends_early_is_insufficient() {
    assert_eq!(
        StoredData::default().parse_in_year(&vec![], 2026).unwrap_err(),
        ParseError::InsufficientData
    );
    assert_eq!(error_of("1/2/23"), ParseError::InsufficientData);
    assert_eq!(error_of("1/2/23,03:04,12.5,88,1.1"), ParseError::InsufficientData);
    assert_eq!(error_of("1/2/23,03:04,12.5,88,1.1,2,"), ParseError::InsufficientData);
    assert_eq!(error_of("1/2/23,03:04,12.5,88,1.1,2,,500,400,70"), ParseError::InsufficientData);
}

#[test]
fn stored_amounts_must_be_numbers() {
    assert_eq!(error_of("1/2/23,03:04,volts,88,1.1,2"), ParseError::FloatParseError);
    assert_eq!(error_of("1/2/23,03:04,12.5,88,1.1,"), ParseError::FloatParseError);
    assert_eq!(error_of("1/2/23,03:04,12.5,88,1.1,2,,3.1,x,500,400,70,95"), ParseError::FloatParseError);
    assert_eq!(error_of("1/2/23,03:04,12.5,88,1.1,2,,500,400,70,x"), ParseError::FloatParseError);
}

#[test]
fn stored_date_and_time_must_be_well_formed() {
    assert_eq!(error_of("2/30/23,03:04,12.5,88,1.1,2"), ParseError::DateTimeParseError);
    assert_eq!(error_of("1/2/23,03:04:05,12.5,88,1.1,2"), ParseError::DateTimeParseError);
    assert_eq!(error_of("1/2/23,24:00,12.5,88,1.1,2"), ParseError::DateTimeParseError);
    assert_eq!(error_of("1/2/23,3:04,12.5,88,1.1,2"), ParseError::DateTimeParseError);
    assert_eq!(error_of("0,1/2/23,03:04:05,12.5"), ParseError::DateTimeParseError);
}

#[test]
fn stored_watts_that_do_not_fit_are_refused() {
    assert_eq!(
        error_of("1/2/23,03:04,9000000000000,88,9000000000000,2"),
        ParseError::InvalidData
    );
}

#[test]
fn stored_version_is_noted() {
    let mut reader = StoredData::default();
    let result = reader.parse_in_year(&entries("1/2/23,03:04,12.5,88,1.1,2,Ver 3.1"), 2026);
    assert_eq!(result.unwrap_err(), ParseError::InsufficientData);
    assert_eq!(reader.version, Version { major: 3, minor: 1 });
}
