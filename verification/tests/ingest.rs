use solar_telemetry::graph::graph_axis::AxisControlsRequest;
use solar_telemetry::graph::graph_axis::AxisDataOption;
use solar_telemetry::graph::graph_axis::AxisDataType;
use solar_telemetry::graph::graph_axis::AxisTimeRequest;
use solar_telemetry::graph::graph_state_request::GraphStateRequest;
use solar_telemetry::graph::graph_state_request::Resolution;
use solar_telemetry::ingest::ingest_in_year;
use solar_telemetry::ingest::note_ids;
use solar_telemetry::ingest::parse_solar_data;
use solar_telemetry::ingest::SolarRecords;
use solar_telemetry::series::retrieve_solar_data;
use solar_telemetry::solar_data::cell::AvailableCells;
use solar_telemetry::solar_data::controllers::AvailableControllers;
use solar_telemetry::solar_data::line::DataLine;
use solar_telemetry::solar_data::value::DataValue;
use solar_telemetry::text::entries_of;
use solar_telemetry::text::split_on;

const SAMPLE: &str = "0,1/2/23,03:04:05,12.5,1.1,20,15,88,0.2,,13.1,,101,14.0,13.9,0.5,70,";

#[test]
fn text_is_cut_at_every_separator() {
    assert_eq!(split_on("a,b,c", b','), vec!["a", "b", "c"]);
    assert_eq!(split_on("", b','), vec![""]);
    assert_eq!(split_on(",", b','), vec!["", ""]);
    assert_eq!(split_on("a,,b,", b','), vec!["a", "", "b", ""]);
    assert_eq!(split_on("no separator", b','), vec!["no separator"]);
    assert_eq!(split_on("one\r\ntwo\r\n", b'\r'), vec!["one", "\ntwo", "\n"]);
    assert_eq!(split_on("12 °F,ä,€", b','), vec!["12 °F", "ä", "€"]);
}

#[test]
fn text_is_cut_as_std_cuts_it() {
    for text in ["", ",", "a", "a,b", ",a,", "x,,,y", "é,è", ",,"] {
        let expected: Vec<&str> = text.split(',').collect();
        assert_eq!(split_on(text, b','), expected);
    }
}

#[test]
fn entries_are_trimmed() {
    assert_eq!(entries_of(" a , b,c "), vec!["a", "b", "c"]);
    assert_eq!(entries_of("\n1/2/23,\t03:04 ,  "), vec!["1/2/23", "03:04", ""]);
    assert_eq!(entries_of(""), vec![""]);
    assert_eq!(entries_of("  a b  "), vec!["a b"]);
}

#[test]
fn one_live_line_becomes_one_record() {
    let mut records = SolarRecords::default();
    let payload = parse_solar_data(&mut records, "file.csv".to_string(), SAMPLE);
    assert_eq!(payload.name, "file.csv");
    assert_eq!(payload.cell_ids.get_cells(), &vec![0]);
    assert_eq!(payload.controller_ids.get_controllers(), &vec![101]);
    assert_eq!(records.data.data.len(), 1);
    let record = &records.data.data[0];
    assert_eq!(record.unix_time, 1_672_628_645);
    assert_eq!(record.line.len(), 12);
    assert!(record.line.iter().any(|v| matches!(v, DataValue::AlarmCode(0))));
    assert!(record.line.iter().any(|v| matches!(v, DataValue::BatteryVoltage(12_500_000))));
    assert!(record.line.iter().any(|v| matches!(v, DataValue::BatteryAmps(1_100_000))));
    assert!(record.line.iter().any(|v| matches!(v, DataValue::SolarWatts(20_000_000))));
    assert!(record.line.iter().any(|v| matches!(v, DataValue::LoadWatts(15_000_000))));
    assert!(record.line.iter().any(|v| matches!(v, DataValue::StateOfChargePercent(88_000_000))));
    assert!(record.line.iter().any(|v| matches!(v, DataValue::AmpHoursSinceMidnight(200_000))));
    assert!(record
        .line
        .iter()
        .any(|v| matches!(v, DataValue::CellVoltage { cell: 0, voltage: 13_100_000 })));
    assert!(record.line.iter().any(|v| matches!(
        v,
        DataValue::ControllerPanelVoltage { controller: 101, voltage: 14_000_000 }
    )));
    assert!(record.line.iter().any(|v| matches!(
        v,
        DataValue::ControllerBatteryVoltage { controller: 101, voltage: 13_900_000 }
    )));
    assert!(record
        .line
        .iter()
        .any(|v| matches!(v, DataValue::ControllerAmps { controller: 101, amps: 500_000 })));
    assert!(record.line.iter().any(|v| matches!(
        v,
        DataValue::ControllerTemperatureF { controller: 101, temperature: 70_000_000 }
    )));
}

#[test]
fn lines_end_with_a_carriage_return_and_entries_are_trimmed() {
    let text = "0, 1/2/23 ,03:04:05, 12.5 ,1.1,20,15,88,0.2,,13.1,,\r\n0,1/2/23,03:05:05,12.6,1.1,20,15,88,0.2,,13.1,13.2,,\r\n";
    let mut records = SolarRecords::default();
    ingest_in_year(&mut records, text, 2026);
    let moments: Vec<i64> = records.data.data.iter().map(|l| l.unix_time).collect();
    assert_eq!(moments, vec![1_672_628_645, 1_672_628_705]);
    assert_eq!(records.cells.get_cells(), &vec![0, 1]);
    assert!(records.controllers.get_controllers().is_empty());
}

#[test]
fn lines_that_cannot_be_read_add_nothing() {
    let text = "header,of,the,file\rnot a line\r\r,,,,\r0,1/2/23,03:04:05,12.5,1.1,20,15,88,0.2,,,\rtrailer";
    let mut records = SolarRecords::default();
    let payload = parse_solar_data(&mut records, "n".to_string(), text);
    assert_eq!(records.data.data.len(), 1);
    assert!(payload.cell_ids.get_cells().is_empty());
    let mut empty = SolarRecords::default();
    parse_solar_data(&mut empty, "n".to_string(), "");
    assert!(empty.data.data.is_empty());
}

#[test]
fn both_dialects_are_taken_in_and_merged() {
    // the second line is of the stored dialect, at the minute of the first
    let text = "0,1/2/23,03:04:00,12.5,1.1,20,15,88,0.2,,,\r1/2/23,03:04,12.0,80,1,2\r1/3/23,03:04,12.0,80,1,2";
    let mut records = SolarRecords::default();
    ingest_in_year(&mut records, text, 2026);
    let moments: Vec<i64> = records.data.data.iter().map(|l| l.unix_time).collect();
    assert_eq!(moments, vec![1_672_628_640, 1_672_715_040]);
    let first = &records.data.data[0];
    // what the live line says is kept; nothing of the stored line is new
    assert_eq!(first.line.len(), 7);
    assert!(first.line.iter().any(|v| matches!(v, DataValue::BatteryVoltage(12_500_000))));
    assert!(first.line.iter().any(|v| matches!(v, DataValue::SolarWatts(20_000_000))));
    let second = &records.data.data[1];
    assert_eq!(second.line.len(), 4);
    assert!(second.line.iter().any(|v| matches!(v, DataValue::SolarWatts(12_000_000))));
}

#[test]
fn a_file_taken_in_twice_changes_nothing() {
    let text = "0,1/2/23,03:04:05,12.5,1.1,20,15,88,0.2,,13.1,,101,14.0,13.9,0.5,70,\r0,1/2/23,03:05:05,12.6,1.1,20,15,88,0.2,,,";
    let mut records = SolarRecords::default();
    ingest_in_year(&mut records, text, 2026);
    let before: Vec<(i64, Vec<(u32, i64)>)> = records
        .data
        .data
        .iter()
        .map(|l| (l.unix_time, l.line.iter().map(|v| (v.kind(), v.amount())).collect()))
        .collect();
    ingest_in_year(&mut records, text, 2026);
    let after: Vec<(i64, Vec<(u32, i64)>)> = records
        .data
        .data
        .iter()
        .map(|l| (l.unix_time, l.line.iter().map(|v| (v.kind(), v.amount())).collect()))
        .collect();
    assert_eq!(before, after);
    assert_eq!(records.cells.get_cells(), &vec![0]);
    assert_eq!(records.controllers.get_controllers(), &vec![101]);
}

#[test]
fn later_files_add_to_what_is_kept() {
    let mut records = SolarRecords::default();
    ingest_in_year(&mut records, "0,1/2/23,03:04:05,12.5,1.1,20,15,88,0.2,,13.1,,", 2026);
    ingest_in_year(
        &mut records,
        "0,1/2/23,03:04:05,99,99,99,99,99,99,,1,2,3,,7,1,1,1,1,,\r0,1/1/23,00:00:00,1,1,1,1,1,1,,,",
        2026,
    );
    let moments: Vec<i64> = records.data.data.iter().map(|l| l.unix_time).collect();
    assert_eq!(moments, vec![1_672_531_200, 1_672_628_645]);
    let kept = &records.data.data[1];
    assert!(kept.line.iter().any(|v| matches!(v, DataValue::BatteryVoltage(12_500_000))));
    assert!(kept.line.iter().any(|v| matches!(v, DataValue::CellVoltage { cell: 0, voltage: 13_100_000 })));
    assert!(kept.line.iter().any(|v| matches!(v, DataValue::CellVoltage { cell: 2, voltage: 3_000_000 })));
    assert_eq!(records.cells.get_cells(), &vec![0, 1, 2]);
    assert_eq!(records.controllers.get_controllers(), &vec![7]);
}

#[test]
fn ids_of_a_record_are_noted() {
    let mut line = DataLine::from(0);
    line.add_data(DataValue::CellVoltage { cell: 4, voltage: 0 });
    line.add_data(DataValue::CellVoltage { cell: 2, voltage: 0 });
    line.add_data(DataValue::ControllerPanelVoltage { controller: 9, voltage: 0 });
    line.add_data(DataValue::ControllerBatteryVoltage { controller: 8, voltage: 0 });
    line.add_data(DataValue::ControllerAmps { controller: 7, amps: 0 });
    line.add_data(DataValue::ControllerTemperatureF { controller: 6, temperature: 0 });
    line.add_data(DataValue::StatisticsCellVoltageLow { cell: 1, voltage: 0 });
    line.add_data(DataValue::StatisticsCellVoltageHigh { cell: 1, voltage: 0 });
    line.add_data(DataValue::BatteryVoltage(0));
    let mut cells = AvailableCells::default();
    let mut controllers = AvailableControllers::default();
    cells.insert(3).unwrap();
    note_ids(&line, &mut cells, &mut controllers);
    assert_eq!(cells.get_cells(), &vec![2, 3, 4]);
    assert_eq!(controllers.get_controllers(), &vec![6, 7, 8, 9]);
}

#[test]
fn what_was_taken_in_can_be_asked_for() {
    let text = "0,1/2/23,03:04:05,12.0,1.1,20,15,88,0.2,,,\r0,1/2/23,03:04:35,13.0,1.1,20,15,88,0.2,,,";
    let mut records = SolarRecords::default();
    parse_solar_data(&mut records, "two samples".to_string(), text);
    let request = GraphStateRequest {
        graph_id: "g".to_string(),
        x_axis: AxisControlsRequest { requests: vec![(AxisDataType::Time, AxisDataOption::Average)] },
        y_axis: (
            AxisControlsRequest {
                requests: vec![(AxisDataType::BatteryVoltage, AxisDataOption::Average)],
            },
            AxisControlsRequest::default(),
        ),
        time_frame: AxisTimeRequest {
            start: 1_672_628_645,
            end: 1_672_628_676,
            manual_resolution: Some(Resolution::OneMinute),
        },
    };
    let holder = retrieve_solar_data(&records.data, &request);
    assert_eq!(holder.series.len(), 1);
    assert_eq!(holder.series[0].name, "Battery Voltage Avg");
    assert_eq!(holder.series[0].data_points.len(), 1);
    assert_eq!(holder.series[0].data_points[0].1, 12_500_000);
}

#[test]
fn entries_are_trimmed_as_std_trims() {
    for text in ["", " ", "   ", "a", " a", "a ", " a b ", "\t\r\n x \u{a0}\u{2003}", "\u{3000}é\u{3000}", "\u{85}12.5\u{2028}", "no white space", " \u{feff}x "] {
        assert_eq!(solar_telemetry::text::trim_entry(text), text.trim(), "{:?}", text);
    }
}
