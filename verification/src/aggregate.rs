//! The bucket aggregator: folds a stream of samples into one value for each
//! bucket of time.
//!
//! A stream is a sequence of pairs: a moment in seconds and an amount. It is
//! read in order, with a mark from which the next sample is measured. The
//! first sample sets the mark to its own moment. A later sample opens a new
//! bucket when it lies a bucket width or more after the mark; and whether it
//! does or not, it moves the mark to its bucket floor: its moment less the
//! remainder of its moment by the width. Each bucket gives one value: the
//! mean, the least or the greatest of its amounts. The last bucket is reduced
//! like every other.

use crate::fixed_point::div_toward_zero;
use crate::fixed_point::rem_toward_zero;
use crate::graph::graph_axis::AxisDataOption;
use crate::graph::graph_state_request::Resolution;
use vstd::prelude::*;

verus! {

/// The moment less its remainder by the width. The remainder has the sign of
/// the moment.
pub open spec fn bucket_floor(t: int, width: int) -> int {
    t - rem_toward_zero(t, width)
}

/// The mark from which the sample at `i` is measured: the moment of the
/// first sample for the second, and for every later one the bucket floor of
/// the sample before it.
pub open spec fn mark_before(samples: Seq<(i64, i64)>, width: int, i: int) -> int {
    if i == 1 {
        samples[0].0 as int
    } else {
        bucket_floor(samples[i - 1].0 as int, width)
    }
}

/// Whether the sample at `i` opens a new bucket: it lies a width or more
/// after its mark.
pub open spec fn opens_bucket(samples: Seq<(i64, i64)>, width: int, i: int) -> bool {
    0 < i < samples.len() && samples[i].0 - mark_before(samples, width, i) >= width
}

/// Where the last bucket of a stream begins.
pub open spec fn last_bucket_start(samples: Seq<(i64, i64)>, width: int) -> int
    decreases samples.len(),
{
    if samples.len() <= 1 {
        0
    } else if opens_bucket(samples, width, samples.len() - 1) {
        samples.len() - 1
    } else {
        last_bucket_start(samples.drop_last(), width)
    }
}

/// The sum of the amounts.
pub open spec fn total(samples: Seq<(i64, i64)>) -> int
    decreases samples.len(),
{
    if samples.len() == 0 {
        0
    } else {
        total(samples.drop_last()) + samples.last().1
    }
}

/// The least of the amounts.
pub open spec fn least(samples: Seq<(i64, i64)>) -> int
    decreases samples.len(),
{
    if samples.len() == 0 {
        0
    } else if samples.len() == 1 {
        samples[0].1 as int
    } else if samples.last().1 < least(samples.drop_last()) {
        samples.last().1 as int
    } else {
        least(samples.drop_last())
    }
}

/// The greatest of the amounts.
pub open spec fn greatest(samples: Seq<(i64, i64)>) -> int
    decreases samples.len(),
{
    if samples.len() == 0 {
        0
    } else if samples.len() == 1 {
        samples[0].1 as int
    } else if samples.last().1 > greatest(samples.drop_last()) {
        samples.last().1 as int
    } else {
        greatest(samples.drop_last())
    }
}

/// The one value that stands for the samples of a bucket: their mean,
/// rounded toward zero, their least or their greatest amount.
pub open spec fn reduce(samples: Seq<(i64, i64)>, option: AxisDataOption) -> int {
    match option {
        AxisDataOption::Average => div_toward_zero(total(samples), samples.len() as int),
        AxisDataOption::Minimum => least(samples),
        AxisDataOption::Maximum => greatest(samples),
    }
}

/// The values of all buckets of a stream but the last.
pub open spec fn closed_buckets(
    samples: Seq<(i64, i64)>,
    width: int,
    option: AxisDataOption,
) -> Seq<i64>
    decreases samples.len(), 0int,
{
    if samples.len() <= 1 {
        Seq::<i64>::empty()
    } else if opens_bucket(samples, width, samples.len() - 1) {
        aggregate(samples.drop_last(), width, option)
    } else {
        closed_buckets(samples.drop_last(), width, option)
    }
}

/// The values of all buckets of a stream, in the order of the stream. An
/// empty stream has no bucket.
pub open spec fn aggregate(samples: Seq<(i64, i64)>, width: int, option: AxisDataOption) -> Seq<
    i64,
>
    decreases samples.len(), 1int,
{
    if samples.len() == 0 {
        Seq::<i64>::empty()
    } else {
        closed_buckets(samples, width, option).push(
            reduce(samples.skip(last_bucket_start(samples, width)), option) as i64,
        )
    }
}

/// The last bucket begins within the stream.
pub proof fn lemma_last_bucket_start_bounds(samples: Seq<(i64, i64)>, width: int)
    requires
        samples.len() > 0,
    ensures
        0 <= last_bucket_start(samples, width) < samples.len(),
    decreases samples.len(),
{
    if samples.len() > 1 && !opens_bucket(samples, width, samples.len() - 1) {
        lemma_last_bucket_start_bounds(samples.drop_last(), width);
    }
}

/// The sum of the amounts of `n` samples lies within `n` times the range of
/// one amount, and their least and greatest amounts are amounts.
pub proof fn lemma_reduce_bounds(samples: Seq<(i64, i64)>)
    requires
        samples.len() > 0,
    ensures
        samples.len() * i64::MIN <= total(samples) <= samples.len() * i64::MAX,
        i64::MIN <= least(samples) <= i64::MAX,
        i64::MIN <= greatest(samples) <= i64::MAX,
    decreases samples.len(),
{
    if samples.len() > 1 {
        lemma_reduce_bounds(samples.drop_last());
        assert(samples.len() * i64::MIN == samples.drop_last().len() * i64::MIN + i64::MIN)
            by (nonlinear_arith)
            requires
                samples.drop_last().len() + 1 == samples.len(),
        ;
        assert(samples.len() * i64::MAX == samples.drop_last().len() * i64::MAX + i64::MAX)
            by (nonlinear_arith)
            requires
                samples.drop_last().len() + 1 == samples.len(),
        ;
    } else {
        assert(total(samples.drop_last()) == 0);
    }
}

/// A mean of amounts is an amount.
pub proof fn lemma_mean_bounds(sum: int, count: int)
    requires
        count > 0,
        count * i64::MIN <= sum <= count * i64::MAX,
    ensures
        i64::MIN <= div_toward_zero(sum, count) <= i64::MAX,
{
    if sum >= 0 {
        assert(sum / count <= i64::MAX) by (nonlinear_arith)
            requires
                count > 0,
                0 <= sum <= count * i64::MAX,
        ;
        assert(sum / count >= 0) by (nonlinear_arith)
            requires
                count > 0,
                0 <= sum,
        ;
    } else {
        assert((-sum) / count <= -i64::MIN) by (nonlinear_arith)
            requires
                count > 0,
                0 <= -sum <= count * (-i64::MIN),
        ;
        assert((-sum) / count >= 0) by (nonlinear_arith)
            requires
                count > 0,
                0 <= -sum,
        ;
    }
}

/// The value of a bucket, whatever the operator, is an amount: it lies
/// within the range of `i64`.
pub proof fn law_bucket_value_in_range(samples: Seq<(i64, i64)>, option: AxisDataOption)
    requires
        samples.len() > 0,
    ensures
        i64::MIN <= reduce(samples, option) <= i64::MAX,
{
    lemma_reduce_bounds(samples);
    lemma_mean_bounds(total(samples), samples.len() as int);
}

/// Reduces what one bucket has gathered.
fn bucket_value(sum: i128, low: i64, high: i64, count: usize, option: &AxisDataOption) -> (v: i64)
    requires
        count > 0,
        count * i64::MIN <= sum <= count * i64::MAX,
    ensures
        v == (match *option {
            AxisDataOption::Average => div_toward_zero(sum as int, count as int),
            AxisDataOption::Minimum => low as int,
            AxisDataOption::Maximum => high as int,
        }),
{
    match option {
        AxisDataOption::Average => {
            proof {
                lemma_mean_bounds(sum as int, count as int);
            }
            (sum / (count as i128)) as i64
        },
        AxisDataOption::Minimum => low,
        AxisDataOption::Maximum => high,
    }
}

/// Folds a stream of samples into the values of its buckets.
///
/// The stream is read in order. The second sample opens a new bucket when it
/// lies a bucket width or more after the first; every later sample, when it
/// lies a bucket width or more after the bucket floor of the sample before it.
/// An empty stream gives no value; a stream of one sample gives that sample's
/// amount.
pub fn process_axis_data(
    data: &Vec<(i64, i64)>,
    resolution: &Resolution,
    axis_option: &AxisDataOption,
) -> (out: Vec<i64>)
    ensures
        out@ == aggregate(data@, resolution.seconds(), *axis_option),
{
    let width = resolution.get_timestamp_offset();
    let mut out: Vec<i64> = Vec::new();
    if data.len() == 0 {
        return out;
    }
    let mut sum: i128 = data[0].1 as i128;
    let mut low: i64 = data[0].1;
    let mut high: i64 = data[0].1;
    let mut count: usize = 1;
    let mut mark: i128 = data[0].0 as i128;
    let ghost mut start: int = 0;
    let mut i: usize = 1;
    proof {
        assert(data@.take(1).len() == 1);
        assert(data@.subrange(0, 1).drop_last() =~= Seq::<(i64, i64)>::empty());
        assert(total(data@.subrange(0, 1).drop_last()) == 0);
        assert(data@.subrange(0, 1)[0] == data[0]);
    }
    while i < data.len()
        invariant
            1 <= i <= data.len(),
            width == resolution.seconds(),
            width > 0,
            0 <= start < i,
            mark == mark_before(data@, width as int, i as int),
            start == last_bucket_start(data@.take(i as int), width as int),
            count == i - start,
            out@ == closed_buckets(data@.take(i as int), width as int, *axis_option),
            sum == total(data@.subrange(start, i as int)),
            low == least(data@.subrange(start, i as int)),
            high == greatest(data@.subrange(start, i as int)),
        decreases data.len() - i,
    {
        let moment = data[i].0;
        let amount = data[i].1;
        let ghost head = data@.take(i as int);
        let ghost next = data@.take(i as int + 1);
        proof {
            assert(next.drop_last() =~= head);
            assert(next[i as int] == data[i as int]);
            assert(next[i as int - 1] == data[i as int - 1]);
            assert(next[0] == data[0]);
            assert(mark_before(next, width as int, i as int) == mark);
            assert(head.skip(start) =~= data@.subrange(start, i as int));
            lemma_reduce_bounds(data@.subrange(start, i as int));
        }
        let opens = moment as i128 - mark >= width as i128;
        mark = moment as i128 - (moment % width) as i128;
        if opens {
            let value = bucket_value(sum, low, high, count, axis_option);
            out.push(value);
            sum = amount as i128;
            low = amount;
            high = amount;
            count = 1;
            proof {
                assert(opens_bucket(next, width as int, i as int));
                assert(value == reduce(head.skip(start), *axis_option) as i64);
                assert(aggregate(head, width as int, *axis_option) == closed_buckets(
                    head,
                    width as int,
                    *axis_option,
                ).push(reduce(head.skip(start), *axis_option) as i64));
                assert(closed_buckets(next, width as int, *axis_option) == aggregate(
                    head,
                    width as int,
                    *axis_option,
                ));
                start = i as int;
                let one = data@.subrange(i as int, i as int + 1);
                assert(one.drop_last() =~= Seq::<(i64, i64)>::empty());
                assert(total(one.drop_last()) == 0);
                assert(one[0] == data[i as int]);
            }
        } else {
            proof {
                assert(!opens_bucket(next, width as int, i as int));
                assert(closed_buckets(next, width as int, *axis_option) == closed_buckets(
                    head,
                    width as int,
                    *axis_option,
                ));
                let grown = data@.subrange(start, i as int + 1);
                assert(grown.drop_last() =~= data@.subrange(start, i as int));
                assert(grown.last() == data[i as int]);
                lemma_reduce_bounds(grown);
            }
            sum = sum + amount as i128;
            if amount < low {
                low = amount;
            }
            if amount > high {
                high = amount;
            }
            count = count + 1;
        }
        i = i + 1;
    }
    proof {
        assert(data@.take(data.len() as int) =~= data@);
        assert(data@.skip(start) =~= data@.subrange(start, data.len() as int));
        lemma_reduce_bounds(data@.subrange(start, data.len() as int));
    }
    let value = bucket_value(sum, low, high, count, axis_option);
    out.push(value);
    out
}


/// Every amount of the stream is `v`.
pub open spec fn all_amounts_are(samples: Seq<(i64, i64)>, v: i64) -> bool {
    forall|i: int| 0 <= i < samples.len() ==> (#[trigger] samples[i]).1 == v
}

/// Samples that all carry one amount reduce to that amount, whatever the
/// operator and however many they are.
pub proof fn law_constant_bucket(samples: Seq<(i64, i64)>, option: AxisDataOption, v: i64)
    requires
        samples.len() > 0,
        all_amounts_are(samples, v),
    ensures
        total(samples) == samples.len() * v,
        least(samples) == v,
        greatest(samples) == v,
        reduce(samples, option) == v,
    decreases samples.len(),
{
    let n = samples.len() as int;
    if samples.len() > 1 {
        let head = samples.drop_last();
        assert forall|i: int| 0 <= i < head.len() implies (#[trigger] head[i]).1 == v by {
            assert(head[i] == samples[i]);
        }
        law_constant_bucket(head, option, v);
        assert(samples[n - 1].1 == v);
        assert(n * v == (n - 1) * v + v) by (nonlinear_arith);
    } else {
        assert(total(samples.drop_last()) == 0);
        assert(samples[0].1 == v);
        assert(n * v == v) by (nonlinear_arith)
            requires
                n == 1,
        ;
    }
    if v >= 0 {
        assert((n * v) / n == v && n * v >= 0) by (nonlinear_arith)
            requires
                n > 0,
                v >= 0,
        ;
    } else {
        assert((-(n * v)) / n == -v && n * v < 0) by (nonlinear_arith)
            requires
                n > 0,
                v < 0,
        ;
    }
}

/// A stream whose samples all carry one amount gives that amount for every
/// bucket, whatever the operator, the width and the moments.
pub proof fn law_constant_stream(
    samples: Seq<(i64, i64)>,
    width: int,
    option: AxisDataOption,
    v: i64,
)
    requires
        all_amounts_are(samples, v),
    ensures
        forall|k: int|
            0 <= k < aggregate(samples, width, option).len() ==> #[trigger] aggregate(
                samples,
                width,
                option,
            )[k] == v,
        forall|k: int|
            0 <= k < closed_buckets(samples, width, option).len() ==> #[trigger] closed_buckets(
                samples,
                width,
                option,
            )[k] == v,
    decreases samples.len(),
{
    if samples.len() > 0 {
        let head = samples.drop_last();
        assert forall|i: int| 0 <= i < head.len() implies (#[trigger] head[i]).1 == v by {
            assert(head[i] == samples[i]);
        }
        law_constant_stream(head, width, option, v);
        lemma_last_bucket_start_bounds(samples, width);
        let tail = samples.skip(last_bucket_start(samples, width));
        assert forall|i: int| 0 <= i < tail.len() implies (#[trigger] tail[i]).1 == v by {
            assert(tail[i] == samples[i + last_bucket_start(samples, width)]);
        }
        law_constant_bucket(tail, option, v);
        let closed = closed_buckets(samples, width, option);
        if samples.len() <= 1 {
            assert(closed =~= Seq::<i64>::empty());
        } else if opens_bucket(samples, width, samples.len() - 1) {
            assert(closed == aggregate(head, width, option));
        } else {
            assert(closed == closed_buckets(head, width, option));
        }
        assert forall|k: int| 0 <= k < closed.len() implies closed[k] == v by {}
        let all = aggregate(samples, width, option);
        assert(all == closed.push(reduce(tail, option) as i64));
        assert forall|k: int| 0 <= k < all.len() implies all[k] == v by {
            if k < closed.len() {
                assert(all[k] == closed[k]);
            }
        }
    }
}

/// A stream in which no sample opens a new bucket gives one value: that of
/// all its samples together.
pub proof fn law_single_bucket(samples: Seq<(i64, i64)>, width: int, option: AxisDataOption)
    requires
        samples.len() > 0,
        forall|i: int| 0 < i < samples.len() ==> !opens_bucket(samples, width, i),
    ensures
        last_bucket_start(samples, width) == 0,
        closed_buckets(samples, width, option) == Seq::<i64>::empty(),
        aggregate(samples, width, option) == seq![reduce(samples, option) as i64],
    decreases samples.len(),
{
    if samples.len() > 1 {
        let head = samples.drop_last();
        assert forall|i: int| 0 < i < head.len() implies !opens_bucket(head, width, i) by {
            assert(!opens_bucket(samples, width, i));
            assert(head[i] == samples[i]);
            assert(head[i - 1] == samples[i - 1]);
            assert(head[0] == samples[0]);
        }
        law_single_bucket(head, width, option);
    }
    assert(samples.skip(0) =~= samples);
    assert(aggregate(samples, width, option) =~= seq![reduce(samples, option) as i64]);
}

/// Samples of one amount that fall into one bucket give just that amount,
/// for each of the three operators.
pub proof fn law_constant_single_bucket(
    samples: Seq<(i64, i64)>,
    width: int,
    option: AxisDataOption,
    v: i64,
)
    requires
        samples.len() > 0,
        all_amounts_are(samples, v),
        forall|i: int| 0 < i < samples.len() ==> !opens_bucket(samples, width, i),
    ensures
        aggregate(samples, width, option) == seq![v],
{
    law_single_bucket(samples, width, option);
    law_constant_bucket(samples, option, v);
}

/// A stream of one sample gives that sample's amount.
pub proof fn law_single_sample(sample: (i64, i64), width: int, option: AxisDataOption)
    ensures
        aggregate(seq![sample], width, option) == seq![sample.1],
{
    let samples = seq![sample];
    assert(samples[0] == sample);
    law_single_bucket(samples, width, option);
    law_constant_bucket(samples, option, sample.1);
}

/// Two streams over the same moments have the same buckets: as many values
/// come out of one as of the other, whatever the amounts and the operators.
pub proof fn law_same_moments_same_buckets(
    a: Seq<(i64, i64)>,
    b: Seq<(i64, i64)>,
    width: int,
    option_a: AxisDataOption,
    option_b: AxisDataOption,
)
    requires
        a.len() == b.len(),
        forall|i: int| 0 <= i < a.len() ==> (#[trigger] a[i]).0 == (#[trigger] b[i]).0,
    ensures
        aggregate(a, width, option_a).len() == aggregate(b, width, option_b).len(),
        closed_buckets(a, width, option_a).len() == closed_buckets(b, width, option_b).len(),
        last_bucket_start(a, width) == last_bucket_start(b, width),
    decreases a.len(),
{
    if a.len() > 0 {
        let ha = a.drop_last();
        let hb = b.drop_last();
        assert forall|i: int| 0 <= i < ha.len() implies (#[trigger] ha[i]).0 == (
        #[trigger] hb[i]).0 by {
            assert(ha[i] == a[i]);
            assert(hb[i] == b[i]);
            assert(a[i].0 == b[i].0);
        }
        law_same_moments_same_buckets(ha, hb, width, option_a, option_b);
        if a.len() > 1 {
            let n = a.len() as int;
            assert(a[n - 1].0 == b[n - 1].0);
            assert(a[n - 2].0 == b[n - 2].0);
            assert(a[0].0 == b[0].0);
        }
    }
}


/// Two samples less than a width apart fall into one bucket, wherever they
/// lie: the stream of the two gives one value, and with the mean as
/// operator it is the mean of the two amounts.
pub proof fn law_two_close_samples(
    first: (i64, i64),
    second: (i64, i64),
    width: int,
    option: AxisDataOption,
)
    requires
        second.0 - first.0 < width,
    ensures
        aggregate(seq![first, second], width, option) == seq![
            reduce(seq![first, second], option) as i64,
        ],
        reduce(seq![first, second], AxisDataOption::Average) == div_toward_zero(
            first.1 + second.1,
            2,
        ),
        reduce(seq![first, second], AxisDataOption::Minimum) == (if second.1 < first.1 {
            second.1
        } else {
            first.1
        }),
        reduce(seq![first, second], AxisDataOption::Maximum) == (if second.1 > first.1 {
            second.1
        } else {
            first.1
        }),
{
    let samples = seq![first, second];
    assert(samples[0] == first && samples[1] == second);
    assert(!opens_bucket(samples, width, 1));
    law_single_bucket(samples, width, option);
    let head = samples.drop_last();
    assert(head =~= seq![first]);
    assert(head.drop_last() =~= Seq::<(i64, i64)>::empty());
    assert(total(head.drop_last()) == 0);
    assert(total(head) == first.1);
    assert(total(samples) == first.1 + second.1);
    assert(least(head) == first.1);
    assert(greatest(head) == first.1);
}


/// The number of the bucket into which the sample at `i` falls, the first
/// bucket having the number 0: as many buckets were opened up to the sample.
pub open spec fn bucket_of(samples: Seq<(i64, i64)>, width: int, i: int) -> int
    decreases i,
{
    if i <= 0 {
        0
    } else {
        bucket_of(samples, width, i - 1) + if opens_bucket(samples, width, i) {
            1int
        } else {
            0int
        }
    }
}

/// Whether the samples from `from` up to, but without, `to` are one whole
/// bucket: the stream or a new bucket begins at `from`, the stream ends or
/// a new bucket begins at `to`, and no bucket begins in between.
pub open spec fn is_bucket(samples: Seq<(i64, i64)>, width: int, from: int, to: int) -> bool {
    &&& 0 <= from < to <= samples.len()
    &&& from == 0 || opens_bucket(samples, width, from)
    &&& to == samples.len() || opens_bucket(samples, width, to)
    &&& forall|j: int| from < j < to ==> !opens_bucket(samples, width, j)
}

/// A stream without its last sample opens its buckets where the whole stream
/// does.
proof fn lemma_head_buckets(samples: Seq<(i64, i64)>, width: int, i: int)
    requires
        samples.len() > 0,
        0 <= i < samples.len() - 1,
    ensures
        opens_bucket(samples.drop_last(), width, i) == opens_bucket(samples, width, i),
        bucket_of(samples.drop_last(), width, i) == bucket_of(samples, width, i),
    decreases i,
{
    let head = samples.drop_last();
    if i > 0 {
        lemma_head_buckets(samples, width, i - 1);
        assert(head[i] == samples[i]);
        assert(head[i - 1] == samples[i - 1]);
        assert(head[0] == samples[0]);
    }
}

/// Bucket numbers do not fall along the stream, and between a sample and a
/// later one that opens a bucket they rise.
proof fn lemma_bucket_of_rises(samples: Seq<(i64, i64)>, width: int, i: int, j: int)
    requires
        0 <= i <= j,
    ensures
        bucket_of(samples, width, i) <= bucket_of(samples, width, j),
        i < j && opens_bucket(samples, width, j) ==> bucket_of(samples, width, i) < bucket_of(
            samples,
            width,
            j,
        ),
    decreases j - i,
{
    if i < j {
        lemma_bucket_of_rises(samples, width, i, j - 1);
    }
}

/// Where no bucket is opened between two samples, both fall into one bucket.
proof fn lemma_bucket_of_stays(samples: Seq<(i64, i64)>, width: int, i: int, j: int)
    requires
        0 <= i <= j,
        forall|k: int| i < k <= j ==> !opens_bucket(samples, width, k),
    ensures
        bucket_of(samples, width, i) == bucket_of(samples, width, j),
    decreases j - i,
{
    if i < j {
        lemma_bucket_of_stays(samples, width, i, j - 1);
    }
}

/// The last bucket begins where the stream or a bucket begins, and no bucket
/// begins after it.
proof fn lemma_last_bucket(samples: Seq<(i64, i64)>, width: int)
    requires
        samples.len() > 0,
    ensures
        is_bucket(samples, width, last_bucket_start(samples, width), samples.len() as int),
    decreases samples.len(),
{
    let n = samples.len() as int;
    if n > 1 && !opens_bucket(samples, width, n - 1) {
        let head = samples.drop_last();
        lemma_last_bucket(head, width);
        let start = last_bucket_start(head, width);
        if start > 0 {
            lemma_head_buckets(samples, width, start);
        }
        assert forall|j: int| start < j < n implies !opens_bucket(samples, width, j) by {
            if j < n - 1 {
                lemma_head_buckets(samples, width, j);
            }
        }
    }
}

/// A stream gives as many values as it has buckets: one more than the
/// number of the bucket of its last sample.
pub proof fn law_bucket_count(samples: Seq<(i64, i64)>, width: int, option: AxisDataOption)
    requires
        samples.len() > 0,
    ensures
        aggregate(samples, width, option).len() == bucket_of(samples, width, samples.len() - 1) + 1,
        closed_buckets(samples, width, option).len() == bucket_of(samples, width, samples.len() - 1),
    decreases samples.len(),
{
    let n = samples.len() as int;
    if n > 1 {
        let head = samples.drop_last();
        law_bucket_count(head, width, option);
        lemma_head_buckets(samples, width, n - 2);
    }
}

/// Every bucket gives the value of its samples, at the place of its number:
/// the values of a stream are those of its buckets, in order.
pub proof fn law_bucket_value(
    samples: Seq<(i64, i64)>,
    width: int,
    option: AxisDataOption,
    from: int,
    to: int,
)
    requires
        is_bucket(samples, width, from, to),
    ensures
        0 <= bucket_of(samples, width, from) < aggregate(samples, width, option).len(),
        aggregate(samples, width, option)[bucket_of(samples, width, from)] == reduce(
            samples.subrange(from, to),
            option,
        ) as i64,
    decreases samples.len(),
{
    let n = samples.len() as int;
    let all = aggregate(samples, width, option);
    let closed = closed_buckets(samples, width, option);
    law_bucket_count(samples, width, option);
    lemma_bucket_of_rises(samples, width, from, n - 1);
    if to == n {
        lemma_last_bucket(samples, width);
        let start = last_bucket_start(samples, width);
        if start < from {
            assert(opens_bucket(samples, width, from));
        } else if from < start {
            assert(opens_bucket(samples, width, start));
        }
        assert(start == from);
        lemma_bucket_of_stays(samples, width, from, n - 1);
        assert(samples.skip(from) =~= samples.subrange(from, to));
        assert(all[closed.len() as int] == reduce(samples.skip(from), option) as i64);
    } else {
        let head = samples.drop_last();
        assert(n > 1);
        assert forall|j: int| from < j < to implies !opens_bucket(head, width, j) by {
            lemma_head_buckets(samples, width, j);
        }
        if from > 0 {
            lemma_head_buckets(samples, width, from);
        }
        if to < n - 1 {
            lemma_head_buckets(samples, width, to);
        }
        assert(is_bucket(head, width, from, to));
        law_bucket_value(head, width, option, from, to);
        lemma_head_buckets(samples, width, from);
        assert(head.subrange(from, to) =~= samples.subrange(from, to));
        law_bucket_count(head, width, option);
        let k = bucket_of(samples, width, from);
        lemma_bucket_of_rises(samples, width, from, to);
        lemma_bucket_of_rises(samples, width, to, n - 1);
        assert(k < closed.len());
        if opens_bucket(samples, width, n - 1) {
            assert(closed == aggregate(head, width, option));
        } else {
            assert(closed == closed_buckets(head, width, option));
            lemma_head_buckets(samples, width, n - 2);
            assert(aggregate(head, width, option)[k] == closed_buckets(head, width, option)[k]);
        }
        assert(all[k] == closed[k]);
    }
}

} // verus!
