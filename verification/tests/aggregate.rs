use solar_telemetry::aggregate::process_axis_data;
use solar_telemetry::graph::graph_axis::AxisDataOption;
use solar_telemetry::graph::graph_state_request::Resolution;

#[test]
fn empty_stream_gives_no_value() {
    for option in [AxisDataOption::Average, AxisDataOption::Minimum, AxisDataOption::Maximum] {
        assert_eq!(process_axis_data(&vec![], &Resolution::OneMinute, &option), Vec::<i64>::new());
    }
}

#[test]
fn single_sample_gives_its_amount() {
    for option in [AxisDataOption::Average, AxisDataOption::Minimum, AxisDataOption::Maximum] {
        assert_eq!(
            process_axis_data(&vec![(1_672_628_645, 12_500_000)], &Resolution::OneHour, &option),
            vec![12_500_000]
        );
    }
}

#[test]
fn two_samples_half_a_minute_apart_average_to_their_mean() {
    let data = vec![(1_672_628_645, 12_000_000), (1_672_628_675, 13_000_000)];
    assert_eq!(
        process_axis_data(&data, &Resolution::OneMinute, &AxisDataOption::Average),
        vec![12_500_000]
    );
}

#[test]
fn maximum_of_the_last_bucket_is_its_greatest_amount() {
    let data = vec![(0, 1_000_000), (10, 5_000_000), (20, 3_000_000)];
    assert_eq!(
        process_axis_data(&data, &Resolution::OneMinute, &AxisDataOption::Maximum),
        vec![5_000_000]
    );
}

#[test]
fn minimum_of_the_last_bucket_is_its_least_amount() {
    let data = vec![(0, 4_000_000), (10, 1_000_000), (20, 3_000_000)];
    assert_eq!(
        process_axis_data(&data, &Resolution::OneMinute, &AxisDataOption::Minimum),
        vec![1_000_000]
    );
}

#[test]
fn maximum_of_a_closed_bucket_and_of_the_last() {
    let data = vec![(0, 1), (10, 7), (20, 3), (60, 2), (70, 9), (80, 4)];
    assert_eq!(
        process_axis_data(&data, &Resolution::OneMinute, &AxisDataOption::Maximum),
        vec![7, 9]
    );
    assert_eq!(
        process_axis_data(&data, &Resolution::OneMinute, &AxisDataOption::Minimum),
        vec![1, 2]
    );
    assert_eq!(
        process_axis_data(&data, &Resolution::OneMinute, &AxisDataOption::Average),
        vec![3, 5]
    );
}

#[test]
fn second_sample_is_measured_from_the_first() {
    // 60 lies in the next minute, but less than a minute after 45
    let stay = vec![(45, 10), (60, 20)];
    assert_eq!(
        process_axis_data(&stay, &Resolution::OneMinute, &AxisDataOption::Average),
        vec![15]
    );
    let stay = vec![(45, 10), (104, 20)];
    assert_eq!(
        process_axis_data(&stay, &Resolution::OneMinute, &AxisDataOption::Average),
        vec![15]
    );
    let open = vec![(45, 10), (105, 20)];
    assert_eq!(
        process_axis_data(&open, &Resolution::OneMinute, &AxisDataOption::Average),
        vec![10, 20]
    );
}

#[test]
fn later_samples_are_measured_from_the_floor_of_the_one_before() {
    // 50 has the floor 0: 59 stays, 60 opens
    let stay = vec![(45, 10), (50, 20), (59, 60)];
    assert_eq!(
        process_axis_data(&stay, &Resolution::OneMinute, &AxisDataOption::Average),
        vec![30]
    );
    let open = vec![(45, 10), (50, 20), (60, 60)];
    assert_eq!(
        process_axis_data(&open, &Resolution::OneMinute, &AxisDataOption::Average),
        vec![15, 60]
    );
    // 104 stays with 45, and has the floor 60: 119 stays, 120 opens
    let stay = vec![(45, 10), (104, 20), (119, 60)];
    assert_eq!(
        process_axis_data(&stay, &Resolution::OneMinute, &AxisDataOption::Average),
        vec![30]
    );
    let open = vec![(45, 10), (104, 20), (120, 60)];
    assert_eq!(
        process_axis_data(&open, &Resolution::OneMinute, &AxisDataOption::Average),
        vec![15, 60]
    );
}

#[test]
fn two_samples_half_a_minute_apart_share_a_bucket_wherever_they_lie() {
    for start in [0, 1, 29, 30, 31, 45, 59, 60, 1_000, 1_672_628_645, -1, -30, -45, -1_000] {
        let data = vec![(start, 12_000_000), (start + 30, 13_000_000)];
        assert_eq!(
            process_axis_data(&data, &Resolution::OneMinute, &AxisDataOption::Average),
            vec![12_500_000],
            "from {}",
            start
        );
    }
}

#[test]
fn every_resolution_cuts_at_its_width() {
    let data = vec![(0, 1), (299, 3), (300, 5), (899, 7), (900, 9), (3_599, 11), (3_600, 13), (86_399, 15), (86_400, 17)];
    assert_eq!(
        process_axis_data(&data, &Resolution::FiveMinute, &AxisDataOption::Maximum),
        vec![3, 5, 7, 9, 11, 13, 15, 17]
    );
    assert_eq!(
        process_axis_data(&data, &Resolution::FifteenMinute, &AxisDataOption::Maximum),
        vec![7, 9, 11, 13, 15, 17]
    );
    assert_eq!(
        process_axis_data(&data, &Resolution::OneHour, &AxisDataOption::Maximum),
        vec![11, 13, 15, 17]
    );
    assert_eq!(
        process_axis_data(&data, &Resolution::OneDay, &AxisDataOption::Maximum),
        vec![15, 17]
    );
}

#[test]
fn repeated_amount_comes_back_for_every_operator() {
    let data: Vec<(i64, i64)> = (0..50).map(|i| (i, 333_333)).collect();
    for option in [AxisDataOption::Average, AxisDataOption::Minimum, AxisDataOption::Maximum] {
        assert_eq!(process_axis_data(&data, &Resolution::OneMinute, &option), vec![333_333]);
    }
    let negative: Vec<(i64, i64)> = (0..7).map(|i| (i * 100, -100_001)).collect();
    for option in [AxisDataOption::Average, AxisDataOption::Minimum, AxisDataOption::Maximum] {
        assert_eq!(
            process_axis_data(&negative, &Resolution::OneMinute, &option),
            vec![-100_001; 7]
        );
    }
}

#[test]
fn average_rounds_toward_zero() {
    let up = vec![(0, 1), (1, 2)];
    assert_eq!(process_axis_data(&up, &Resolution::OneMinute, &AxisDataOption::Average), vec![1]);
    let down = vec![(0, -1), (1, -2)];
    assert_eq!(
        process_axis_data(&down, &Resolution::OneMinute, &AxisDataOption::Average),
        vec![-1]
    );
}

#[test]
fn average_of_the_greatest_amounts_does_not_overflow() {
    let data = vec![(0, i64::MAX), (1, i64::MAX), (2, i64::MAX)];
    assert_eq!(
        process_axis_data(&data, &Resolution::OneMinute, &AxisDataOption::Average),
        vec![i64::MAX]
    );
    let data = vec![(0, i64::MIN), (1, i64::MIN)];
    assert_eq!(
        process_axis_data(&data, &Resolution::OneMinute, &AxisDataOption::Average),
        vec![i64::MIN]
    );
}

#[test]
fn moments_at_the_ends_of_the_range_do_not_overflow() {
    let data = vec![(i64::MIN, 1), (i64::MAX, 2)];
    assert_eq!(
        process_axis_data(&data, &Resolution::OneDay, &AxisDataOption::Average),
        vec![1, 2]
    );
}

#[test]
fn moments_before_the_epoch_have_their_floor_toward_zero() {
    // -45 has the floor 0 (the remainder has the sign of the moment): 59 stays, 60 opens
    let stay = vec![(-50, 5), (-45, 10), (59, 20)];
    assert_eq!(
        process_axis_data(&stay, &Resolution::OneMinute, &AxisDataOption::Maximum),
        vec![20]
    );
    let open = vec![(-50, 5), (-45, 10), (60, 20)];
    assert_eq!(
        process_axis_data(&open, &Resolution::OneMinute, &AxisDataOption::Maximum),
        vec![10, 20]
    );
}
