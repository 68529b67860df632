use solar_telemetry::graph::graph_axis::AxisControlsRequest;
use solar_telemetry::graph::graph_axis::AxisDataOption;
use solar_telemetry::graph::graph_axis::AxisDataType;
use solar_telemetry::graph::graph_axis::AxisTimeRequest;
use solar_telemetry::graph::graph_axis::DataUnit;
use solar_telemetry::graph::graph_axis::LineSeriesAxisData;
use solar_telemetry::graph::graph_axis::LineSeriesHolder;
use solar_telemetry::graph::graph_state_request::GraphStateRequest;
use solar_telemetry::graph::graph_state_request::Resolution;
use solar_telemetry::series::answer_request;
use solar_telemetry::series::generage_series_name;
use solar_telemetry::series::get_line_series_data;
use solar_telemetry::series::retrieve_solar_data;
use solar_telemetry::solar_data::line::DataLine;
use solar_telemetry::solar_data::storage::DataStorage;
use solar_telemetry::solar_data::value::DataValue;

fn record(unix_time: i64, values: &[DataValue]) -> DataLine {
    let mut line = DataLine::from(unix_time);
    for value in values {
        line.add_data(*value);
    }
    line
}

fn request(
    start: i64,
    end: i64,
    resolution: Option<Resolution>,
    x: Vec<(AxisDataType, AxisDataOption)>,
    y: Vec<(AxisDataType, AxisDataOption)>,
    y2: Vec<(AxisDataType, AxisDataOption)>,
) -> GraphStateRequest {
    GraphStateRequest {
        graph_id: "graph".to_string(),
        x_axis: AxisControlsRequest { requests: x },
        y_axis: (AxisControlsRequest { requests: y }, AxisControlsRequest { requests: y2 }),
        time_frame: AxisTimeRequest { start, end, manual_resolution: resolution },
    }
}

#[test]
fn axis_names_are_as_shown() {
    assert_eq!(AxisDataType::Time.get_name(), "Time");
    assert_eq!(AxisDataType::PeriodicTime.get_name(), "Time");
    assert_eq!(AxisDataType::BatteryVoltage.get_name(), "Battery Voltage");
    assert_eq!(AxisDataType::BatteryAmps.get_name(), "Battery Amps");
    assert_eq!(AxisDataType::SolarWatts.get_name(), "Solar Watts");
    assert_eq!(AxisDataType::LoadWatts.get_name(), "Load Watts");
    assert_eq!(AxisDataType::StateOfChargePercent.get_name(), "S.O.C. %");
    assert_eq!(AxisDataType::CellVoltage(3).get_name(), "Cell #3 Voltage");
    assert_eq!(AxisDataType::CellVoltage(0).get_name(), "Cell #0 Voltage");
    assert_eq!(AxisDataType::CellVoltage(65_535).get_name(), "Cell #65535 Voltage");
    assert_eq!(AxisDataType::ControllerPanelVoltage(101).get_name(), "Controller #101 Voltage");
    assert_eq!(AxisDataType::ControllerAmps(10).get_name(), "Controller #10 Amps");
    assert_eq!(
        AxisDataType::ControllerTemperatureF(1000).get_name(),
        "Controller #1000 TemperatureF"
    );
}

#[test]
fn axis_units_are_as_shown() {
    assert_eq!(AxisDataType::Time.get_unit(), DataUnit::Time);
    assert_eq!(AxisDataType::PeriodicTime.get_unit(), DataUnit::PeriodicTime);
    assert_eq!(AxisDataType::BatteryVoltage.get_unit(), DataUnit::Voltage);
    assert_eq!(AxisDataType::CellVoltage(1).get_unit(), DataUnit::Voltage);
    assert_eq!(AxisDataType::ControllerPanelVoltage(1).get_unit(), DataUnit::Voltage);
    assert_eq!(AxisDataType::BatteryAmps.get_unit(), DataUnit::Amps);
    assert_eq!(AxisDataType::ControllerAmps(1).get_unit(), DataUnit::Amps);
    assert_eq!(AxisDataType::SolarWatts.get_unit(), DataUnit::Watts);
    assert_eq!(AxisDataType::LoadWatts.get_unit(), DataUnit::Watts);
    assert_eq!(AxisDataType::StateOfChargePercent.get_unit(), DataUnit::Percent);
    assert_eq!(AxisDataType::ControllerTemperatureF(1).get_unit(), DataUnit::Farenheight);
    assert_eq!(DataUnit::Time.get_name(), "Time");
    assert_eq!(DataUnit::PeriodicTime.get_name(), "Time");
    assert_eq!(DataUnit::Voltage.get_name(), "Voltage");
    assert_eq!(DataUnit::Amps.get_name(), "Amps");
    assert_eq!(DataUnit::Watts.get_name(), "Watts");
    assert_eq!(DataUnit::Percent.get_name(), "Percent");
    assert_eq!(DataUnit::Farenheight.get_name(), "°Fahrenheit");
}

#[test]
fn resolutions_have_their_widths() {
    assert_eq!(Resolution::OneMinute.get_timestamp_offset(), 60);
    assert_eq!(Resolution::FiveMinute.get_timestamp_offset(), 300);
    assert_eq!(Resolution::FifteenMinute.get_timestamp_offset(), 900);
    assert_eq!(Resolution::OneHour.get_timestamp_offset(), 3_600);
    assert_eq!(Resolution::OneDay.get_timestamp_offset(), 86_400);
    for resolution in [
        Resolution::OneMinute,
        Resolution::FiveMinute,
        Resolution::FifteenMinute,
        Resolution::OneHour,
        Resolution::OneDay,
    ] {
        assert_eq!(86_400 % resolution.get_timestamp_offset(), 0);
    }
}

#[test]
fn resolution_follows_the_span_of_the_window() {
    let of = |start: i64, end: i64| AxisTimeRequest { start, end, manual_resolution: None }.get_resolution();
    assert_eq!(of(0, 0), Resolution::OneMinute);
    assert_eq!(of(0, 10_800), Resolution::OneMinute);
    assert_eq!(of(0, 10_801), Resolution::FiveMinute);
    assert_eq!(of(0, 86_400), Resolution::FiveMinute);
    assert_eq!(of(0, 86_401), Resolution::FifteenMinute);
    assert_eq!(of(0, 259_200), Resolution::FifteenMinute);
    assert_eq!(of(0, 259_201), Resolution::OneHour);
    assert_eq!(of(0, 864_000), Resolution::OneHour);
    assert_eq!(of(0, 864_001), Resolution::OneDay);
    assert_eq!(of(i64::MIN, i64::MAX), Resolution::OneDay);
    assert_eq!(of(1_000, 1_060), Resolution::OneMinute);
    assert_eq!(of(100, 0), Resolution::OneMinute);
    assert_eq!(of(i64::MAX, i64::MIN), Resolution::OneMinute);
}

#[test]
fn resolution_asked_for_is_used() {
    let window = AxisTimeRequest { start: 0, end: 10, manual_resolution: Some(Resolution::OneDay) };
    assert_eq!(window.get_resolution(), Resolution::OneDay);
    let window =
        AxisTimeRequest { start: 0, end: 10_000_000, manual_resolution: Some(Resolution::OneMinute) };
    assert_eq!(window.get_resolution(), Resolution::OneMinute);
}

#[test]
fn default_request_asks_for_daily_battery_voltage() {
    let request = GraphStateRequest::default_with_name("first".to_string());
    assert_eq!(request.graph_id, "first");
    assert_eq!(request.x_axis.requests, vec![(AxisDataType::Time, AxisDataOption::Average)]);
    assert_eq!(
        request.y_axis.0.requests,
        vec![(AxisDataType::BatteryVoltage, AxisDataOption::Average)]
    );
    assert!(request.y_axis.1.requests.is_empty());
    assert_eq!(request.time_frame.start, 1_640_995_200);
    assert_eq!(request.time_frame.end, 1_685_577_600);
    assert_eq!(request.time_frame.manual_resolution, Some(Resolution::OneDay));
    assert!(AxisControlsRequest::default().requests.is_empty());
    let holder = LineSeriesHolder::default();
    assert!(holder.series.is_empty() && holder.secondary_series.is_empty());
}

#[test]
fn series_are_named_after_their_axes() {
    let name = |x: AxisDataType, xo: AxisDataOption, y: AxisDataType, yo: AxisDataOption| {
        generage_series_name(&x, &xo, &y, &yo)
    };
    assert_eq!(
        name(
            AxisDataType::BatteryVoltage,
            AxisDataOption::Average,
            AxisDataType::SolarWatts,
            AxisDataOption::Maximum
        ),
        "Battery Voltage Avg, Solar Watts Max"
    );
    assert_eq!(
        name(
            AxisDataType::Time,
            AxisDataOption::Average,
            AxisDataType::SolarWatts,
            AxisDataOption::Minimum
        ),
        "Solar Watts Min"
    );
    assert_eq!(
        name(
            AxisDataType::CellVoltage(12),
            AxisDataOption::Minimum,
            AxisDataType::Time,
            AxisDataOption::Maximum
        ),
        "Cell #12 Voltage Min"
    );
    assert_eq!(
        name(AxisDataType::Time, AxisDataOption::Average, AxisDataType::Time, AxisDataOption::Average),
        "Time vs Time"
    );
    assert_eq!(
        name(
            AxisDataType::PeriodicTime,
            AxisDataOption::Average,
            AxisDataType::ControllerTemperatureF(101),
            AxisDataOption::Average
        ),
        "Time Avg, Controller #101 TemperatureF Avg"
    );
}

#[test]
fn series_of_two_samples_in_one_minute_is_their_mean() {
    let data = vec![
        record(1_672_628_645, &[DataValue::BatteryVoltage(12_000_000)]),
        record(1_672_628_675, &[DataValue::BatteryVoltage(13_000_000)]),
    ];
    let points = get_line_series_data(
        &data,
        &Resolution::OneMinute,
        &AxisDataType::Time,
        &AxisDataOption::Average,
        &AxisDataType::BatteryVoltage,
        &AxisDataOption::Average,
    );
    assert_eq!(points, vec![(1_672_628_660, 12_500_000)]);
}

#[test]
fn series_leaves_out_records_that_lack_an_axis() {
    let data = vec![
        record(0, &[DataValue::BatteryVoltage(1), DataValue::SolarWatts(10)]),
        record(60, &[DataValue::BatteryVoltage(2)]),
        record(120, &[DataValue::SolarWatts(30)]),
        record(180, &[DataValue::BatteryVoltage(4), DataValue::SolarWatts(40)]),
    ];
    let points = get_line_series_data(
        &data,
        &Resolution::OneMinute,
        &AxisDataType::BatteryVoltage,
        &AxisDataOption::Maximum,
        &AxisDataType::SolarWatts,
        &AxisDataOption::Minimum,
    );
    assert_eq!(points, vec![(1, 10), (4, 40)]);
    let by_time = get_line_series_data(
        &data,
        &Resolution::OneMinute,
        &AxisDataType::Time,
        &AxisDataOption::Minimum,
        &AxisDataType::BatteryVoltage,
        &AxisDataOption::Maximum,
    );
    assert_eq!(by_time, vec![(0, 1), (60, 2), (180, 4)]);
    let nothing = get_line_series_data(
        &data,
        &Resolution::OneMinute,
        &AxisDataType::Time,
        &AxisDataOption::Minimum,
        &AxisDataType::LoadWatts,
        &AxisDataOption::Maximum,
    );
    assert!(nothing.is_empty());
    let periodic = get_line_series_data(
        &data,
        &Resolution::OneMinute,
        &AxisDataType::PeriodicTime,
        &AxisDataOption::Minimum,
        &AxisDataType::BatteryVoltage,
        &AxisDataOption::Maximum,
    );
    assert!(periodic.is_empty());
}

#[test]
fn request_is_answered_from_its_window() {
    let mut storage = DataStorage::default();
    for (t, v) in [(0, 1), (30, 3), (60, 5), (90, 7), (120, 9), (150, 11)] {
        storage.push_data_line(record(
            t,
            &[DataValue::BatteryVoltage(v), DataValue::SolarWatts(10 * v)],
        ));
    }
    let holder = retrieve_solar_data(
        &storage,
        &request(
            30,
            150,
            Some(Resolution::OneMinute),
            vec![(AxisDataType::Time, AxisDataOption::Minimum)],
            vec![
                (AxisDataType::BatteryVoltage, AxisDataOption::Average),
                (AxisDataType::SolarWatts, AxisDataOption::Maximum),
            ],
            vec![(AxisDataType::BatteryVoltage, AxisDataOption::Minimum)],
        ),
    );
    assert_eq!(holder.series.len(), 2);
    assert_eq!(holder.secondary_series.len(), 1);
    assert_eq!(holder.series[0].name, "Battery Voltage Avg");
    // 30, 60 and 90 share a bucket; 120 lies a minute after the floor of 90
    assert_eq!(holder.series[0].data_points, vec![(30, 5), (120, 9)]);
    assert_eq!(
        holder.series[0].x_axis,
        LineSeriesAxisData { data_type: AxisDataType::Time, data_option: AxisDataOption::Minimum }
    );
    assert_eq!(
        holder.series[0].y_axis,
        LineSeriesAxisData {
            data_type: AxisDataType::BatteryVoltage,
            data_option: AxisDataOption::Average
        }
    );
    assert_eq!(holder.series[1].name, "Solar Watts Max");
    assert_eq!(holder.series[1].data_points, vec![(30, 70), (120, 90)]);
    assert_eq!(holder.secondary_series[0].name, "Battery Voltage Min");
    assert_eq!(holder.secondary_series[0].data_points, vec![(30, 3), (120, 9)]);
}

#[test]
fn request_with_several_x_axes_has_them_outermost() {
    let mut storage = DataStorage::default();
    storage.push_data_line(record(5, &[DataValue::BatteryVoltage(1), DataValue::SolarWatts(2)]));
    let holder = retrieve_solar_data(
        &storage,
        &request(
            0,
            10,
            None,
            vec![
                (AxisDataType::Time, AxisDataOption::Average),
                (AxisDataType::BatteryVoltage, AxisDataOption::Average),
            ],
            vec![
                (AxisDataType::SolarWatts, AxisDataOption::Minimum),
                (AxisDataType::SolarWatts, AxisDataOption::Maximum),
            ],
            vec![],
        ),
    );
    let names: Vec<&str> = holder.series.iter().map(|s| s.name.as_str()).collect();
    assert_eq!(
        names,
        vec![
            "Solar Watts Min",
            "Solar Watts Max",
            "Battery Voltage Avg, Solar Watts Min",
            "Battery Voltage Avg, Solar Watts Max"
        ]
    );
    assert_eq!(holder.series[0].data_points, vec![(5, 2)]);
    assert_eq!(holder.series[3].data_points, vec![(1, 2)]);
    assert!(holder.secondary_series.is_empty());
}

#[test]
fn request_with_an_empty_or_inverted_window_has_empty_series() {
    let mut storage = DataStorage::default();
    storage.push_data_line(record(5, &[DataValue::BatteryVoltage(1)]));
    for (start, end) in [(5, 5), (10, 0), (6, 100), (0, 5)] {
        let holder = retrieve_solar_data(
            &storage,
            &request(
                start,
                end,
                None,
                vec![(AxisDataType::Time, AxisDataOption::Average)],
                vec![(AxisDataType::BatteryVoltage, AxisDataOption::Average)],
                vec![],
            ),
        );
        assert_eq!(holder.series.len(), 1);
        assert!(holder.series[0].data_points.is_empty());
    }
}

#[test]
fn request_without_axes_has_no_series() {
    let storage = DataStorage::default();
    let holder = retrieve_solar_data(&storage, &request(0, 10, None, vec![], vec![], vec![]));
    assert!(holder.series.is_empty());
    assert!(holder.secondary_series.is_empty());
    let holder = retrieve_solar_data(
        &storage,
        &request(
            0,
            10,
            None,
            vec![],
            vec![(AxisDataType::BatteryVoltage, AxisDataOption::Average)],
            vec![],
        ),
    );
    assert!(holder.series.is_empty());
}

#[test]
fn request_is_answered_alike_from_a_copy_of_its_window() {
    let mut storage = DataStorage::default();
    for (t, v) in [(0, 1), (30, 3), (60, 5), (90, 7), (120, 9), (150, 11)] {
        storage.push_data_line(record(
            t,
            &[DataValue::BatteryVoltage(v), DataValue::SolarWatts(10 * v)],
        ));
    }
    let asked = request(
        30,
        150,
        None,
        vec![(AxisDataType::Time, AxisDataOption::Maximum)],
        vec![(AxisDataType::SolarWatts, AxisDataOption::Average)],
        vec![(AxisDataType::BatteryVoltage, AxisDataOption::Maximum)],
    );
    let window = storage.copy_range(30, 150);
    let moments: Vec<i64> = window.iter().map(|line| line.unix_time).collect();
    assert_eq!(moments, vec![30, 60, 90, 120]);
    assert_eq!(window[0].line.len(), 2);
    let from_copy = answer_request(&window, &asked);
    let from_store = retrieve_solar_data(&storage, &asked);
    assert_eq!(from_copy.series.len(), 1);
    assert_eq!(from_copy.series[0].name, from_store.series[0].name);
    assert_eq!(from_copy.series[0].data_points, from_store.series[0].data_points);
    assert_eq!(from_copy.series[0].data_points, vec![(90, 50), (120, 90)]);
    assert_eq!(
        from_copy.secondary_series[0].data_points,
        from_store.secondary_series[0].data_points
    );
    assert!(storage.copy_range(150, 30).is_empty());
}
