use solar_telemetry::parse::live_data::LiveData;
use solar_telemetry::parse::parse_error::ParseError;
use solar_telemetry::parse::traits::TryParse;
use solar_telemetry::parse::version::Version;
use solar_telemetry::solar_data::line::DataLine;
use solar_telemetry::solar_data::value::DataValue;

const SAMPLE: &str = "0,1/2/23,03:04:05,12.5,1.1,20,15,88,0.2,,13.1,,101,14.0,13.9,0.5,70,";

fn entries(line: &str) -> Vec<&str> {
    line.split(',').map(|entry| entry.trim()).collect()
}

fn read(line: &str) -> Result<DataLine, ParseError> {
    LiveData::default().parse_in_year(&entries(line), 2026)
}

fn error_of(line: &str) -> ParseError {
    match read(line) {
        Ok(_) => panic!("the line was read: {}", line),
        Err(e) => e,
    }
}

#[test]
fn live_sample_line_is_read() {
    let record = read(SAMPLE).unwrap();
    assert_eq!(record.unix_time, 1_672_628_645);
    assert_eq!(record.line.len(), 12);
    assert!(record.line.iter().any(|v| matches!(v, DataValue::AlarmCode(0))));
    assert!(record.line.iter().any(|v| matches!(v, DataValue::BatteryVoltage(12_500_000))));
    assert!(record.line.iter().any(|v| matches!(v, DataValue::BatteryAmps(1_100_000))));
    assert!(record.line.iter().any(|v| matches!(v, DataValue::SolarWatts(20_000_000))));
    assert!(record.line.iter().any(|v| matches!(v, DataValue::LoadWatts(15_000_000))));
    assert!(record.line.iter().any(|v| matches!(v, DataValue::StateOfChargePercent(88_000_000))));
    assert!(record.line.iter().any(|v| matches!(v, DataValue::AmpHoursSinceMidnight(200_000))));
    assert!(record
        .line
        .iter()
        .any(|v| matches!(v, DataValue::CellVoltage { cell: 0, voltage: 13_100_000 })));
    assert!(record.line.iter().any(|v| matches!(
        v,
        DataValue::ControllerPanelVoltage { controller: 101, voltage: 14_000_000 }
    )));
    assert!(record.line.iter().any(|v| matches!(
        v,
        DataValue::ControllerBatteryVoltage { controller: 101, voltage: 13_900_000 }
    )));
    assert!(record
        .line
        .iter()
        .any(|v| matches!(v, DataValue::ControllerAmps { controller: 101, amps: 500_000 })));
    assert!(record.line.iter().any(|v| matches!(
        v,
        DataValue::ControllerTemperatureF { controller: 101, temperature: 70_000_000 }
    )));
}

#[test]
fn live_sample_line_is_read_as_seen_from_today() {
    let mut reader = LiveData::default();
    let record = reader.try_parse(&entries(SAMPLE)).unwrap();
    assert_eq!(record.unix_time, 1_672_628_645);
    assert_eq!(record.line.len(), 12);
}

#[test]
fn live_record_is_in_the_order_of_its_kinds() {
    let record = read(SAMPLE).unwrap();
    for pair in record.line.windows(2) {
        assert!(pair[0].kind() < pair[1].kind());
    }
    let names: Vec<&str> = record.line.iter().map(|v| v.tag_name()).collect();
    let mut sorted = names.clone();
    sorted.sort();
    assert_eq!(names, sorted);
}

#[test]
fn live_line_with_two_digits_for_the_day_is_read() {
    let record = read("0,01/02/23,03:04:05,12.5,1.1,20,15,88,0.2,,,").unwrap();
    assert_eq!(record.unix_time, 1_672_628_645);
    assert_eq!(record.line.len(), 7);
}

#[test]
fn live_year_is_completed_by_the_century() {
    // seen from 2026: 26 is 2026, 27 is 1927
    let this_century = read("0,1/2/26,03:04:05,1,1,1,1,1,1,,,").unwrap();
    assert_eq!(this_century.unix_time, 1_767_323_045);
    let last_century = read("0,1/2/27,03:04:05,1,1,1,1,1,1,,,").unwrap();
    assert_eq!(last_century.unix_time, -1_356_900_955);
    let mut reader = LiveData::default();
    let at_the_turn = reader
        .parse_in_year(&entries("0,12/31/99,23:59:59,1,1,1,1,1,1,,,"), 2099)
        .unwrap();
    assert_eq!(at_the_turn.unix_time, 4_102_444_799);
    let after_the_turn = reader
        .parse_in_year(&entries("0,12/31/99,23:59:59,1,1,1,1,1,1,,,"), 2100)
        .unwrap();
    assert_eq!(after_the_turn.unix_time, 4_102_444_799);
    let long_ago = reader
        .parse_in_year(&entries("0,1/1/00,00:00:00,1,1,1,1,1,1,,,"), 2099)
        .unwrap();
    assert_eq!(long_ago.unix_time, 946_684_800);
    let just_now = reader
        .parse_in_year(&entries("0,1/1/00,00:00:00,1,1,1,1,1,1,,,"), 2100)
        .unwrap();
    assert_eq!(just_now.unix_time, 4_102_444_800);
}

#[test]
fn live_line_without_cells_and_controllers_is_read() {
    let record = read("7,1/2/23,03:04:05,12.5,1.1,20,15,88,0.2,,,").unwrap();
    assert_eq!(record.line.len(), 7);
    assert!(record.line.iter().any(|v| matches!(v, DataValue::AlarmCode(7))));
}

#[test]
fn live_line_may_end_after_its_cells() {
    let record = read("7,1/2/23,03:04:05,12.5,1.1,20,15,88,0.2,,13.1,13.2,").unwrap();
    assert_eq!(record.line.len(), 9);
    assert!(record
        .line
        .iter()
        .any(|v| matches!(v, DataValue::CellVoltage { cell: 1, voltage: 13_200_000 })));
}

#[test]
fn live_line_with_several_cells_and_controllers_is_read() {
    let record = read(
        "0,1/2/23,03:04:05,12.5,1.1,20,15,88,0.2,,13.1,13.2,13.3,,101,14.0,13.9,0.5,70,,102,15.0,14.9,1.5,71,,",
    )
    .unwrap();
    assert_eq!(record.line.len(), 7 + 3 + 8);
    assert!(record
        .line
        .iter()
        .any(|v| matches!(v, DataValue::CellVoltage { cell: 2, voltage: 13_300_000 })));
    assert!(record
        .line
        .iter()
        .any(|v| matches!(v, DataValue::ControllerAmps { controller: 102, amps: 1_500_000 })));
}

#[test]
fn live_controller_named_twice_keeps_its_first_values() {
    let record = read(
        "0,1/2/23,03:04:05,12.5,1.1,20,15,88,0.2,,,101,14.0,13.9,0.5,70,,101,15.0,14.9,1.5,71,,",
    )
    .unwrap();
    assert_eq!(record.line.len(), 7 + 4);
    assert!(record.line.iter().any(|v| matches!(
        v,
        DataValue::ControllerPanelVoltage { controller: 101, voltage: 14_000_000 }
    )));
}

#[test]
fn live_line_that_ends_early_is_insufficient() {
    assert_eq!(LiveData::default().parse_in_year(&vec![], 2026).unwrap_err(), ParseError::InsufficientData);
    assert_eq!(error_of("0"), ParseError::InsufficientData);
    assert_eq!(error_of("0,1/2/23"), ParseError::InsufficientData);
    assert_eq!(error_of("0,1/2/23,03:04:05,12.5,1.1,20,15,88"), ParseError::InsufficientData);
    assert_eq!(error_of("0,1/2/23,03:04:05,12.5,1.1,20,15,88,0.2"), ParseError::InsufficientData);
    assert_eq!(error_of("0,1/2/23,03:04:05,12.5,1.1,20,15,88,0.2,"), ParseError::InsufficientData);
    assert_eq!(error_of("0,1/2/23,03:04:05,12.5,1.1,20,15,88,0.2,,13.1"), ParseError::InsufficientData);
    assert_eq!(
        error_of("0,1/2/23,03:04:05,12.5,1.1,20,15,88,0.2,,13.1,,101,14.0,13.9"),
        ParseError::InsufficientData
    );
    assert_eq!(
        error_of("0,1/2/23,03:04:05,12.5,1.1,20,15,88,0.2,,13.1,,101,14.0,13.9,0.5,70"),
        ParseError::InsufficientData
    );
}

#[test]
fn live_alarm_code_must_be_an_integer() {
    assert_eq!(error_of("x,1/2/23,03:04:05,12.5,1.1,20,15,88,0.2,,,"), ParseError::IntParseError);
    assert_eq!(error_of("0.5,1/2/23,03:04:05,12.5,1.1,20,15,88,0.2,,,"), ParseError::IntParseError);
    assert_eq!(error_of(",1/2/23,03:04:05,12.5,1.1,20,15,88,0.2,,,"), ParseError::IntParseError);
}

#[test]
fn live_controller_address_must_be_an_integer() {
    assert_eq!(
        error_of("0,1/2/23,03:04:05,12.5,1.1,20,15,88,0.2,,,a,14.0,13.9,0.5,70,,"),
        ParseError::IntParseError
    );
    assert_eq!(
        error_of("0,1/2/23,03:04:05,12.5,1.1,20,15,88,0.2,,,70000,14.0,13.9,0.5,70,,"),
        ParseError::IntParseError
    );
}

#[test]
fn live_amounts_must_be_numbers() {
    assert_eq!(error_of("0,1/2/23,03:04:05,volts,1.1,20,15,88,0.2,,,"), ParseError::FloatParseError);
    assert_eq!(error_of("0,1/2/23,03:04:05,12.5,1.1,20,15,88,,,,"), ParseError::FloatParseError);
    assert_eq!(error_of("0,1/2/23,03:04:05,12.5,1.1,20,15,88,0.2,,x,,"), ParseError::FloatParseError);
    assert_eq!(
        error_of("0,1/2/23,03:04:05,12.5,1.1,20,15,88,0.2,,,101,14.0,13.9,0.5,warm,,"),
        ParseError::FloatParseError
    );
}

#[test]
fn live_date_must_be_a_date() {
    for date in ["", "1/2", "1-2-23", "13/1/23", "0/1/23", "2/30/23", "2/29/23", "1/0/23", "1/2/2023", "1/2/3", "123/1/23", "1/123/23", "a/b/cc", "1/2/23 "] {
        let line = format!("0,{},03:04:05,12.5,1.1,20,15,88,0.2,,,", date);
        let fields: Vec<&str> = line.split(',').collect();
        assert_eq!(
            LiveData::default().parse_in_year(&fields, 2026).unwrap_err(),
            ParseError::DateTimeParseError,
            "date {:?}",
            date
        );
    }
}

#[test]
fn live_leap_day_is_a_date() {
    let record = read("0,2/29/24,00:00:00,1,1,1,1,1,1,,,").unwrap();
    assert_eq!(record.unix_time, 1_709_164_800);
}

#[test]
fn live_time_must_be_a_time() {
    for time in ["", "3:04:05", "03:04", "03:04:5", "24:00:00", "23:60:00", "23:59:60", "03-04-05", "03:04:05 ", "aa:bb:cc", "03:04:05.5"] {
        let line = format!("0,1/2/23,{},12.5,1.1,20,15,88,0.2,,,", time);
        let fields: Vec<&str> = line.split(',').collect();
        assert_eq!(
            LiveData::default().parse_in_year(&fields, 2026).unwrap_err(),
            ParseError::DateTimeParseError,
            "time {:?}",
            time
        );
    }
}

#[test]
fn live_last_second_of_the_day_is_a_time() {
    let record = read("0,1/2/23,23:59:59,1,1,1,1,1,1,,,").unwrap();
    assert_eq!(record.unix_time, 1_672_703_999);
}

#[test]
fn live_entry_after_the_amounts_must_be_empty() {
    assert_eq!(
        error_of("0,1/2/23,03:04:05,12.5,1.1,20,15,88,0.2,13.1,,"),
        ParseError::InvalidDelimeter
    );
    assert_eq!(
        error_of("0,1/2/23,03:04:05,12.5,1.1,20,15,88,0.2,,,101,14.0,13.9,0.5,70,102,"),
        ParseError::InvalidDelimeter
    );
}

#[test]
fn live_first_error_in_the_line_is_reported() {
    // a bad date comes before the missing entries
    assert_eq!(error_of("0,2/30/23"), ParseError::DateTimeParseError);
    // a bad alarm code comes before a bad date
    assert_eq!(error_of("x,2/30/23"), ParseError::IntParseError);
}

#[test]
fn live_version_is_noted_even_if_the_line_fails() {
    let mut reader = LiveData::default();
    assert_eq!(reader.version, Version { major: 1, minor: 0 });
    let result = reader.parse_in_year(&entries("Solar controller Ver 2.7"), 2026);
    assert!(result.is_err());
    assert_eq!(reader.version, Version { major: 2, minor: 7 });
    let result = reader.parse_in_year(&entries(SAMPLE), 2026);
    assert!(result.is_ok());
    assert_eq!(reader.version, Version { major: 2, minor: 7 });
    assert!(reader.data.data.is_empty());
}
