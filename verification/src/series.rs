//! Answering a request: the window of the store, folded into named series.

use crate::aggregate::aggregate;
use crate::aggregate::law_same_moments_same_buckets;
use crate::aggregate::process_axis_data;
use crate::graph::graph_axis::AxisDataOption;
use crate::graph::graph_axis::AxisDataType;
use crate::graph::graph_axis::LineSeriesAxisData;
use crate::graph::graph_axis::LineSeriesData;
use crate::graph::graph_axis::LineSeriesHolder;
use crate::graph::graph_state_request::GraphStateRequest;
use crate::graph::graph_state_request::Resolution;
use crate::solar_data::line::axis_value;
use crate::solar_data::line::DataLine;
use crate::solar_data::storage::records_wf;
use crate::solar_data::storage::same_records;
use crate::solar_data::storage::window;
use crate::solar_data::storage::DataStorage;
use vstd::prelude::*;
use vstd::string::StringExecFns;

verus! {

/// How an operator is written in the name of a series.
pub open spec fn option_label(option: AxisDataOption) -> Seq<char> {
    match option {
        AxisDataOption::Average => "Avg"@,
        AxisDataOption::Minimum => "Min"@,
        AxisDataOption::Maximum => "Max"@,
    }
}

/// The half of a series' name that stands for one axis: the name of what is
/// measured, a space and the operator. The time axis has no half.
pub open spec fn axis_label(data_type: AxisDataType, option: AxisDataOption) -> Seq<char> {
    if data_type != AxisDataType::Time {
        data_type.name_spec() + " "@ + option_label(option)
    } else {
        Seq::<char>::empty()
    }
}

/// The name of a series: the halves of its two axes with `, ` between them;
/// one half alone where the other axis is the time axis; `Time vs Time`
/// where both are.
pub open spec fn series_name(
    x_type: AxisDataType,
    x_option: AxisDataOption,
    y_type: AxisDataType,
    y_option: AxisDataOption,
) -> Seq<char> {
    let prefix = axis_label(x_type, x_option);
    let suffix = axis_label(y_type, y_option);
    if prefix.len() == 0 {
        if suffix.len() == 0 {
            "Time vs Time"@
        } else {
            suffix
        }
    } else {
        if suffix.len() == 0 {
            prefix
        } else {
            prefix + ", "@ + suffix
        }
    }
}

fn label_for(data_type: &AxisDataType, option: &AxisDataOption) -> (label: String)
    ensures
        label@ == axis_label(*data_type, *option),
{
    if *data_type != AxisDataType::Time {
        let mut label = data_type.get_name();
        label.append(" ");
        match option {
            AxisDataOption::Average => label.append("Avg"),
            AxisDataOption::Minimum => label.append("Min"),
            AxisDataOption::Maximum => label.append("Max"),
        }
        label
    } else {
        String::new()
    }
}

/// Names a series after what its axes show and how they aggregate it.
pub fn generage_series_name(
    x_axis_data_type: &AxisDataType,
    x_axis_option: &AxisDataOption,
    y_axis_data_type: &AxisDataType,
    y_axis_option: &AxisDataOption,
) -> (name: String)
    ensures
        name@ == series_name(*x_axis_data_type, *x_axis_option, *y_axis_data_type, *y_axis_option),
{
    let name_prefix = label_for(x_axis_data_type, x_axis_option);
    let name_suffix = label_for(y_axis_data_type, y_axis_option);
    if name_prefix.as_str().is_empty() {
        if name_suffix.as_str().is_empty() {
            String::from_str("Time vs Time")
        } else {
            name_suffix
        }
    } else {
        if name_suffix.as_str().is_empty() {
            name_prefix
        } else {
            let mut name = name_prefix;
            name.append(", ");
            name.append(name_suffix.as_str());
            name
        }
    }
}

/// The records that have something to show on both axes, each as its moment,
/// its amount on the x axis and its amount on the y axis.
pub open spec fn kept_samples(data: Seq<DataLine>, x: AxisDataType, y: AxisDataType) -> Seq<
    (i64, i64, i64),
>
    decreases data.len(),
{
    if data.len() == 0 {
        Seq::<(i64, i64, i64)>::empty()
    } else {
        let rest = kept_samples(data.drop_last(), x, y);
        let last = data.last();
        match (
            axis_value(last.unix_time as int, last@, x),
            axis_value(last.unix_time as int, last@, y),
        ) {
            (Some(a), Some(b)) => rest.push((last.unix_time, a as i64, b as i64)),
            _ => rest,
        }
    }
}

/// The stream of one axis: moments and the amounts on the x axis.
pub open spec fn x_stream(kept: Seq<(i64, i64, i64)>) -> Seq<(i64, i64)> {
    Seq::new(kept.len(), |i: int| (kept[i].0, kept[i].1))
}

/// The stream of the other axis: moments and the amounts on the y axis.
pub open spec fn y_stream(kept: Seq<(i64, i64, i64)>) -> Seq<(i64, i64)> {
    Seq::new(kept.len(), |i: int| (kept[i].0, kept[i].2))
}

/// The points of a series: the records that show something on both axes are
/// folded into buckets once for each axis, and the values of the buckets are
/// paired in order.
pub open spec fn series_points(
    data: Seq<DataLine>,
    width: int,
    x_type: AxisDataType,
    x_option: AxisDataOption,
    y_type: AxisDataType,
    y_option: AxisDataOption,
) -> Seq<(i64, i64)> {
    let kept = kept_samples(data, x_type, y_type);
    let xs = aggregate(x_stream(kept), width, x_option);
    let ys = aggregate(y_stream(kept), width, y_option);
    Seq::new(xs.len(), |i: int| (xs[i], ys[i]))
}

/// Both axes of a series have the same buckets: there is a value on the y
/// axis for every value on the x axis and none besides.
pub proof fn law_series_axes_align(
    data: Seq<DataLine>,
    width: int,
    x_type: AxisDataType,
    x_option: AxisDataOption,
    y_type: AxisDataType,
    y_option: AxisDataOption,
)
    ensures
        aggregate(x_stream(kept_samples(data, x_type, y_type)), width, x_option).len()
            == aggregate(y_stream(kept_samples(data, x_type, y_type)), width, y_option).len(),
{
    let kept = kept_samples(data, x_type, y_type);
    law_same_moments_same_buckets(x_stream(kept), y_stream(kept), width, x_option, y_option);
}

/// The points of one series over a stretch of records.
///
/// A record that lacks the measurement of either axis takes no part. The
/// others are folded into buckets of the resolution's width, once with the
/// amounts of the x axis and once with those of the y axis, and the two runs
/// of values are paired in order.
pub fn get_line_series_data(
    data: &[DataLine],
    resolution: &Resolution,
    x_axis_data_type: &AxisDataType,
    x_axis_data_option: &AxisDataOption,
    y_axis_data_type: &AxisDataType,
    y_axis_data_option: &AxisDataOption,
) -> (points: Vec<(i64, i64)>)
    requires
        records_wf(data@),
    ensures
        points@ == series_points(
            data@,
            resolution.seconds(),
            *x_axis_data_type,
            *x_axis_data_option,
            *y_axis_data_type,
            *y_axis_data_option,
        ),
{
    let mut xs: Vec<(i64, i64)> = Vec::new();
    let mut ys: Vec<(i64, i64)> = Vec::new();
    let mut i: usize = 0;
    proof {
        assert(xs@ =~= x_stream(kept_samples(data@.take(0), *x_axis_data_type, *y_axis_data_type)));
        assert(ys@ =~= y_stream(kept_samples(data@.take(0), *x_axis_data_type, *y_axis_data_type)));
    }
    while i < data.len()
        invariant
            i <= data.len(),
            records_wf(data@),
            xs@ == x_stream(kept_samples(data@.take(i as int), *x_axis_data_type, *y_axis_data_type)),
            ys@ == y_stream(kept_samples(data@.take(i as int), *x_axis_data_type, *y_axis_data_type)),
        decreases data.len() - i,
    {
        let record = &data[i];
        assert(record.wf());
        let x = record.calculate_axis_data(*x_axis_data_type);
        let y = record.calculate_axis_data(*y_axis_data_type);
        proof {
            assert(data@.take(i as int + 1).drop_last() =~= data@.take(i as int));
            assert(data@.take(i as int + 1).last() == data[i as int]);
        }
        let ghost before = kept_samples(data@.take(i as int), *x_axis_data_type, *y_axis_data_type);
        match (x, y) {
            (Some(a), Some(b)) => {
                xs.push((record.unix_time, a));
                ys.push((record.unix_time, b));
                proof {
                    let grown = before.push((record.unix_time, a, b));
                    assert(xs@ =~= x_stream(grown));
                    assert(ys@ =~= y_stream(grown));
                }
            },
            _ => {},
        }
        i = i + 1;
    }
    proof {
        assert(data@.take(data.len() as int) =~= data@);
        law_series_axes_align(
            data@,
            resolution.seconds(),
            *x_axis_data_type,
            *x_axis_data_option,
            *y_axis_data_type,
            *y_axis_data_option,
        );
    }
    let x_values = process_axis_data(&xs, resolution, x_axis_data_option);
    let y_values = process_axis_data(&ys, resolution, y_axis_data_option);
    let mut points: Vec<(i64, i64)> = Vec::new();
    let mut k: usize = 0;
    while k < x_values.len()
        invariant
            k <= x_values.len(),
            x_values.len() == y_values.len(),
            points.len() == k,
            forall|j: int| 0 <= j < k ==> points[j] == (x_values[j], y_values[j]),
        decreases x_values.len() - k,
    {
        points.push((x_values[k], y_values[k]));
        k = k + 1;
    }
    proof {
        assert(points@ =~= series_points(
            data@,
            resolution.seconds(),
            *x_axis_data_type,
            *x_axis_data_option,
            *y_axis_data_type,
            *y_axis_data_option,
        ));
    }
    points
}

/// Whether a series is the one that a stretch of records gives for a pair
/// of requests: by its name, its points and the note of what its axes show.
pub open spec fn is_series_for(
    series: LineSeriesData,
    data: Seq<DataLine>,
    width: int,
    x: (AxisDataType, AxisDataOption),
    y: (AxisDataType, AxisDataOption),
) -> bool {
    &&& series.name@ == series_name(x.0, x.1, y.0, y.1)
    &&& series.data_points@ == series_points(data, width, x.0, x.1, y.0, y.1)
    &&& series.x_axis == (LineSeriesAxisData { data_type: x.0, data_option: x.1 })
    &&& series.y_axis == (LineSeriesAxisData { data_type: y.0, data_option: y.1 })
}

/// The pairs of requests that a chart's series answer, in the order of the
/// series: every request of the x axis with every request of the y axis, the
/// requests of the x axis outermost.
pub open spec fn request_pairs(
    xs: Seq<(AxisDataType, AxisDataOption)>,
    ys: Seq<(AxisDataType, AxisDataOption)>,
) -> Seq<((AxisDataType, AxisDataOption), (AxisDataType, AxisDataOption))>
    decreases xs.len(),
{
    if xs.len() == 0 {
        Seq::empty()
    } else {
        request_pairs(xs.drop_last(), ys) + Seq::new(ys.len(), |j: int| (xs.last(), ys[j]))
    }
}

/// Whether the series are, one by one, those that the records give for the pairs.
pub open spec fn are_series_for(
    series: Seq<LineSeriesData>,
    data: Seq<DataLine>,
    width: int,
    pairs: Seq<((AxisDataType, AxisDataOption), (AxisDataType, AxisDataOption))>,
) -> bool {
    &&& series.len() == pairs.len()
    &&& forall|k: int|
        0 <= k < series.len() ==> is_series_for(
            #[trigger] series[k],
            data,
            width,
            pairs[k].0,
            pairs[k].1,
        )
}

/// Adds to `out` the series of one request of the x axis with every request
/// of a y axis.
fn push_series(
    out: &mut Vec<LineSeriesData>,
    data: &[DataLine],
    resolution: &Resolution,
    x: &(AxisDataType, AxisDataOption),
    ys: &Vec<(AxisDataType, AxisDataOption)>,
    Ghost(done): Ghost<Seq<((AxisDataType, AxisDataOption), (AxisDataType, AxisDataOption))>>,
)
    requires
        records_wf(data@),
        are_series_for(old(out)@, data@, resolution.seconds(), done),
    ensures
        are_series_for(
            final(out)@,
            data@,
            resolution.seconds(),
            done + Seq::new(ys@.len(), |j: int| (*x, ys@[j])),
        ),
{
    let mut j: usize = 0;
    let ghost row = Seq::new(ys@.len(), |j: int| (*x, ys@[j]));
    proof {
        assert(done + row.take(0) =~= done);
    }
    while j < ys.len()
        invariant
            j <= ys.len(),
            records_wf(data@),
            row == Seq::new(ys@.len(), |j: int| (*x, ys@[j])),
            are_series_for(out@, data@, resolution.seconds(), done + row.take(j as int)),
        decreases ys.len() - j,
    {
        let y = &ys[j];
        let points = get_line_series_data(data, resolution, &x.0, &x.1, &y.0, &y.1);
        let name = generage_series_name(&x.0, &x.1, &y.0, &y.1);
        let series = LineSeriesData {
            name,
            data_points: points,
            x_axis: LineSeriesAxisData { data_type: x.0, data_option: x.1 },
            y_axis: LineSeriesAxisData { data_type: y.0, data_option: y.1 },
        };
        let ghost before = out@;
        out.push(series);
        proof {
            let pairs = done + row.take(j as int);
            let next = done + row.take(j as int + 1);
            assert(next =~= pairs.push((*x, ys@[j as int])));
            assert forall|k: int| 0 <= k < out@.len() implies is_series_for(
                #[trigger] out@[k],
                data@,
                resolution.seconds(),
                next[k].0,
                next[k].1,
            ) by {
                if k < before.len() {
                    assert(out@[k] == before[k]);
                    assert(next[k] == pairs[k]);
                }
            }
        }
        j = j + 1;
    }
    proof {
        assert(row.take(ys@.len() as int) =~= row);
    }
}

/// Adds to `out` the series of every request of the x axis with every
/// request of a y axis.
fn all_series(
    data: &[DataLine],
    resolution: &Resolution,
    xs: &Vec<(AxisDataType, AxisDataOption)>,
    ys: &Vec<(AxisDataType, AxisDataOption)>,
) -> (out: Vec<LineSeriesData>)
    requires
        records_wf(data@),
    ensures
        are_series_for(out@, data@, resolution.seconds(), request_pairs(xs@, ys@)),
{
    let mut out: Vec<LineSeriesData> = Vec::new();
    let mut i: usize = 0;
    proof {
        assert(request_pairs(xs@.take(0), ys@) =~= Seq::empty());
    }
    while i < xs.len()
        invariant
            i <= xs.len(),
            records_wf(data@),
            are_series_for(
                out@,
                data@,
                resolution.seconds(),
                request_pairs(xs@.take(i as int), ys@),
            ),
        decreases xs.len() - i,
    {
        proof {
            assert(xs@.take(i as int + 1).drop_last() =~= xs@.take(i as int));
            assert(xs@.take(i as int + 1).last() == xs@[i as int]);
        }
        push_series(
            &mut out,
            data,
            resolution,
            &xs[i],
            ys,
            Ghost(request_pairs(xs@.take(i as int), ys@)),
        );
        i = i + 1;
    }
    proof {
        assert(xs@.take(xs@.len() as int) =~= xs@);
    }
    out
}

/// The same records give the same points.
pub proof fn lemma_same_records_same_points(
    a: Seq<DataLine>,
    b: Seq<DataLine>,
    x_type: AxisDataType,
    y_type: AxisDataType,
)
    requires
        same_records(a, b),
    ensures
        kept_samples(a, x_type, y_type) == kept_samples(b, x_type, y_type),
    decreases a.len(),
{
    if a.len() > 0 {
        let ha = a.drop_last();
        let hb = b.drop_last();
        assert forall|i: int| 0 <= i < ha.len() implies (#[trigger] ha[i]).unix_time
            == hb[i].unix_time && ha[i].line@ == hb[i].line@ by {
            assert(ha[i] == a[i]);
            assert(hb[i] == b[i]);
        }
        lemma_same_records_same_points(ha, hb, x_type, y_type);
        assert(a.last() == a[a.len() - 1]);
        assert(b.last() == b[b.len() - 1]);
        assert(a[a.len() - 1].unix_time == b[a.len() - 1].unix_time);
        assert(a[a.len() - 1].line@ == b[a.len() - 1].line@);
    }
}

/// Series that are those of some records are those of the same records
/// held elsewhere.
pub proof fn law_same_records_same_series(
    series: Seq<LineSeriesData>,
    a: Seq<DataLine>,
    b: Seq<DataLine>,
    width: int,
    pairs: Seq<((AxisDataType, AxisDataOption), (AxisDataType, AxisDataOption))>,
)
    requires
        same_records(a, b),
        are_series_for(series, a, width, pairs),
    ensures
        are_series_for(series, b, width, pairs),
{
    assert forall|k: int| 0 <= k < series.len() implies is_series_for(
        #[trigger] series[k],
        b,
        width,
        pairs[k].0,
        pairs[k].1,
    ) by {
        assert(is_series_for(series[k], a, width, pairs[k].0, pairs[k].1));
        lemma_same_records_same_points(a, b, pairs[k].0.0, pairs[k].1.0);
    }
}

/// Answers a request from the records of its window, given in the order of
/// time: what `retrieve_solar_data` makes of the window once it is cut.
pub fn answer_request(data: &[DataLine], request: &GraphStateRequest) -> (holder: LineSeriesHolder)
    requires
        records_wf(data@),
    ensures
        are_series_for(
            holder.series@,
            data@,
            request.time_frame.resolution_spec().seconds(),
            request_pairs(request.x_axis.requests@, request.y_axis.0.requests@),
        ),
        are_series_for(
            holder.secondary_series@,
            data@,
            request.time_frame.resolution_spec().seconds(),
            request_pairs(request.x_axis.requests@, request.y_axis.1.requests@),
        ),
{
    let resolution = request.time_frame.get_resolution();
    let series = all_series(data, &resolution, &request.x_axis.requests, &request.y_axis.0.requests);
    let secondary_series = all_series(
        data,
        &resolution,
        &request.x_axis.requests,
        &request.y_axis.1.requests,
    );
    LineSeriesHolder { series, secondary_series }
}

/// Answers a request from a store.
///
/// The records from the start of the request's window up to, but without,
/// its end are taken. For every request of the x axis and every request of
/// the primary y axis there is one series, and likewise for the secondary y
/// axis; the requests of the x axis are outermost. The width of the buckets
/// is the resolution that the request asks for, or else the one that fits
/// the span of its window.
pub fn retrieve_solar_data(storage: &DataStorage, request: &GraphStateRequest) -> (holder:
    LineSeriesHolder)
    requires
        storage.wf(),
    ensures
        are_series_for(
            holder.series@,
            window(storage.data@, request.time_frame.start as int, request.time_frame.end as int),
            request.time_frame.resolution_spec().seconds(),
            request_pairs(request.x_axis.requests@, request.y_axis.0.requests@),
        ),
        are_series_for(
            holder.secondary_series@,
            window(storage.data@, request.time_frame.start as int, request.time_frame.end as int),
            request.time_frame.resolution_spec().seconds(),
            request_pairs(request.x_axis.requests@, request.y_axis.1.requests@),
        ),
{
    let slice = storage.range(request.time_frame.start, request.time_frame.end);
    proof {
        let s = storage.data@;
        let w = window(s, request.time_frame.start as int, request.time_frame.end as int);
        crate::solar_data::storage::lemma_count_before_splits(s, request.time_frame.start as int);
        crate::solar_data::storage::lemma_count_before_splits(s, request.time_frame.end as int);
        assert forall|i: int| 0 <= i < w.len() implies (#[trigger] w[i]).wf() by {
            let lo = crate::solar_data::storage::count_before(s, request.time_frame.start as int);
            assert(w[i] == s[lo + i]);
        }
    }
    answer_request(slice, request)
}

} // verus!
