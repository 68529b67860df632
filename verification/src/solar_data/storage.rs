//! The store: all records, one for each moment, in the order of time.

use crate::solar_data::line::lemma_value_at;
use crate::solar_data::line::record_map;
use crate::solar_data::line::sorted_by_kind;
use crate::solar_data::line::with_value;
use crate::solar_data::line::with_values;
use crate::solar_data::line::DataLine;
use crate::solar_data::value::DataValue;
use vstd::prelude::*;
use vstd::slice::slice_subrange;

verus! {

/// No two records of one moment, and the moments in ascending order.
pub open spec fn ascending(s: Seq<DataLine>) -> bool {
    forall|i: int, j: int| 0 <= i < j < s.len() ==> (#[trigger] s[i]).unix_time < (#[trigger] s[j]).unix_time
}

/// Whether every record is well formed.
pub open spec fn records_wf(s: Seq<DataLine>) -> bool {
    forall|i: int| 0 <= i < s.len() ==> (#[trigger] s[i]).wf()
}

/// Whether the records hold one of the moment `t`.
pub open spec fn has_moment(s: Seq<DataLine>, t: int) -> bool {
    exists|i: int| 0 <= i < s.len() && (#[trigger] s[i]).unix_time == t
}

/// The measurements of a record of the moment `t` among the records.
pub open spec fn record_at(s: Seq<DataLine>, t: int) -> Map<int, DataValue> {
    s[choose|i: int| 0 <= i < s.len() && (#[trigger] s[i]).unix_time == t]@
}

/// The records of a store, each under its moment.
pub open spec fn store_map(s: Seq<DataLine>) -> Map<int, Map<int, DataValue>> {
    Map::new(|t: int| has_moment(s, t), |t: int| record_at(s, t))
}

/// What becomes of a record when another of the same moment arrives: it
/// keeps every measurement it has and takes from the other those of the
/// kinds it lacks.
pub open spec fn merged_record(
    existing: Map<int, DataValue>,
    incoming: Map<int, DataValue>,
) -> Map<int, DataValue> {
    incoming.union_prefer_right(existing)
}

/// The store after a record with moment `t` and measurements `incoming` has
/// been pushed.
pub open spec fn store_with(
    m: Map<int, Map<int, DataValue>>,
    t: int,
    incoming: Map<int, DataValue>,
) -> Map<int, Map<int, DataValue>> {
    if m.contains_key(t) {
        m.insert(t, merged_record(m[t], incoming))
    } else {
        m.insert(t, incoming)
    }
}

/// The store after a run of records has been pushed, the first of the run first.
pub open spec fn store_with_all(m: Map<int, Map<int, DataValue>>, lines: Seq<DataLine>) -> Map<
    int,
    Map<int, DataValue>,
>
    decreases lines.len(),
{
    if lines.len() == 0 {
        m
    } else {
        store_with(
            store_with_all(m, lines.drop_last()),
            lines.last().unix_time as int,
            lines.last()@,
        )
    }
}

/// Two stores made one: a moment that only one of them has keeps its record;
/// at a moment that both have, the record of the first takes from the record
/// of the second the measurements of the kinds it lacks.
pub open spec fn merge_stores(
    first: Map<int, Map<int, DataValue>>,
    second: Map<int, Map<int, DataValue>>,
) -> Map<int, Map<int, DataValue>> {
    Map::new(
        |t: int| first.contains_key(t) || second.contains_key(t),
        |t: int|
            if first.contains_key(t) {
                if second.contains_key(t) {
                    merged_record(first[t], second[t])
                } else {
                    first[t]
                }
            } else {
                second[t]
            },
    )
}

/// How many records lie before the moment `t`.
pub open spec fn count_before(s: Seq<DataLine>, t: int) -> int
    decreases s.len(),
{
    if s.len() == 0 {
        0
    } else {
        count_before(s.drop_last(), t) + if s.last().unix_time < t {
            1int
        } else {
            0int
        }
    }
}

/// Whether two runs of records are the same, record by record: the same
/// moments with the same measurements.
pub open spec fn same_records(a: Seq<DataLine>, b: Seq<DataLine>) -> bool {
    &&& a.len() == b.len()
    &&& forall|i: int|
        0 <= i < a.len() ==> (#[trigger] a[i]).unix_time == b[i].unix_time && a[i].line@
            == b[i].line@
}

/// The records of the moments from `start` up to, but without, `end`.
pub open spec fn window(s: Seq<DataLine>, start: int, end: int) -> Seq<DataLine> {
    let lo = count_before(s, start);
    let hi = count_before(s, end);
    if lo <= hi {
        s.subrange(lo, hi)
    } else {
        Seq::<DataLine>::empty()
    }
}

/// Offering the measurements of a sorted record one by one merges the record.
pub proof fn lemma_with_values_is_merge(m: Map<int, DataValue>, s: Seq<DataValue>)
    requires
        sorted_by_kind(s),
    ensures
        with_values(m, s) == merged_record(m, record_map(s)),
    decreases s.len(),
{
    if s.len() == 0 {
        assert(record_map(s) =~= Map::<int, DataValue>::empty());
        assert(merged_record(m, record_map(s)) =~= m);
    } else {
        let head = s.drop_last();
        let last = s.last();
        assert forall|i: int, j: int| 0 <= i < j < head.len() implies #[trigger] head[i].kind_key()
            < #[trigger] head[j].kind_key() by {
            assert(head[i] == s[i]);
            assert(head[j] == s[j]);
            assert(s[i].kind_key() < s[j].kind_key());
        }
        lemma_with_values_is_merge(m, head);
        let before = merged_record(m, record_map(head));
        let after = merged_record(m, record_map(s));
        assert forall|k: int| after.contains_key(k) <==> with_value(before, last).contains_key(
            k,
        ) by {
            if crate::solar_data::line::has_kind(s, k) {
                let i = choose|i: int| 0 <= i < s.len() && #[trigger] s[i].kind_key() == k;
                if i < s.len() - 1 {
                    assert(head[i] == s[i]);
                    assert(head[i].kind_key() == k);
                }
            }
            if crate::solar_data::line::has_kind(head, k) {
                let i = choose|i: int| 0 <= i < head.len() && #[trigger] head[i].kind_key() == k;
                assert(head[i] == s[i]);
                assert(s[i].kind_key() == k);
            }
            if k == last.kind_key() {
                assert(s[s.len() - 1].kind_key() == k);
            }
        }
        assert forall|k: int| after.contains_key(k) implies after[k] == with_value(
            before,
            last,
        )[k] by {
            if !m.contains_key(k) {
                let i = choose|i: int| 0 <= i < s.len() && #[trigger] s[i].kind_key() == k;
                lemma_value_at(s, i);
                if i < s.len() - 1 {
                    assert(head[i] == s[i]);
                    lemma_value_at(head, i);
                } else {
                    if crate::solar_data::line::has_kind(head, k) {
                        let j = choose|j: int|
                            0 <= j < head.len() && #[trigger] head[j].kind_key() == k;
                        assert(head[j] == s[j]);
                        assert(s[j].kind_key() < s[i].kind_key());
                    }
                }
            }
        }
        assert(after =~= with_value(before, last));
    }
}

/// In a store in ascending order the record at a position is the one of its moment.
pub proof fn lemma_record_at(s: Seq<DataLine>, i: int)
    requires
        ascending(s),
        0 <= i < s.len(),
    ensures
        store_map(s).contains_key(s[i].unix_time as int),
        store_map(s)[s[i].unix_time as int] == s[i]@,
{
    let t = s[i].unix_time as int;
    assert(has_moment(s, t));
    let j = choose|j: int| 0 <= j < s.len() && (#[trigger] s[j]).unix_time == t;
    if j < i {
        assert(s[j].unix_time < s[i].unix_time);
    } else if i < j {
        assert(s[i].unix_time < s[j].unix_time);
    }
}

/// A store in ascending order holds no moment that falls between two neighbours.
pub proof fn lemma_moment_absent(s: Seq<DataLine>, pos: int, t: int)
    requires
        0 <= pos <= s.len(),
        forall|j: int| 0 <= j < pos ==> (#[trigger] s[j]).unix_time < t,
        forall|j: int| pos <= j < s.len() ==> (#[trigger] s[j]).unix_time > t,
    ensures
        !store_map(s).contains_key(t),
{
    if has_moment(s, t) {
        let j = choose|j: int| 0 <= j < s.len() && (#[trigger] s[j]).unix_time == t;
        if j < pos {
            assert(s[j].unix_time < t);
        } else {
            assert(s[j].unix_time > t);
        }
    }
}

/// Putting a record of a new moment at its place keeps the store in order
/// and adds just that record.
pub proof fn lemma_insert_record(s: Seq<DataLine>, pos: int, line: DataLine)
    requires
        ascending(s),
        0 <= pos <= s.len(),
        forall|j: int| 0 <= j < pos ==> (#[trigger] s[j]).unix_time < line.unix_time,
        forall|j: int| pos <= j < s.len() ==> (#[trigger] s[j]).unix_time > line.unix_time,
    ensures
        ascending(s.insert(pos, line)),
        store_map(s.insert(pos, line)) == store_map(s).insert(line.unix_time as int, line@),
{
    let u = s.insert(pos, line);
    let t = line.unix_time as int;
    assert forall|i: int, j: int| 0 <= i < j < u.len() implies (#[trigger] u[i]).unix_time < (
    #[trigger] u[j]).unix_time by {
        let a = if i < pos {
            i
        } else {
            i - 1
        };
        let b = if j < pos {
            j
        } else {
            j - 1
        };
        if i != pos && j != pos {
            assert(u[i] == s[a]);
            assert(u[j] == s[b]);
            assert(s[a].unix_time < s[b].unix_time);
        } else if i == pos {
            assert(u[j] == s[b]);
            assert(s[b].unix_time > t);
        } else {
            assert(u[i] == s[a]);
            assert(s[a].unix_time < t);
        }
    }
    let expected = store_map(s).insert(t, line@);
    assert forall|k: int| store_map(u).contains_key(k) <==> expected.contains_key(k) by {
        if has_moment(u, k) {
            let i = choose|i: int| 0 <= i < u.len() && (#[trigger] u[i]).unix_time == k;
            if i < pos {
                assert(u[i] == s[i]);
                assert(s[i].unix_time == k);
            } else if i > pos {
                assert(u[i] == s[i - 1]);
                assert(s[i - 1].unix_time == k);
            }
        }
        if has_moment(s, k) {
            let i = choose|i: int| 0 <= i < s.len() && (#[trigger] s[i]).unix_time == k;
            if i < pos {
                assert(u[i] == s[i]);
                assert(u[i].unix_time == k);
            } else {
                assert(u[i + 1] == s[i]);
                assert(u[i + 1].unix_time == k);
            }
        }
        if k == t {
            assert(u[pos].unix_time == k);
        }
    }
    assert forall|k: int| store_map(u).contains_key(k) implies store_map(u)[k] == expected[k] by {
        let i = choose|i: int| 0 <= i < u.len() && (#[trigger] u[i]).unix_time == k;
        lemma_record_at(u, i);
        if i < pos {
            assert(u[i] == s[i]);
            lemma_record_at(s, i);
        } else if i > pos {
            assert(u[i] == s[i - 1]);
            lemma_record_at(s, i - 1);
        }
    }
    assert(store_map(u) =~= expected);
}

/// Replacing a record by one of the same moment keeps the store in order and
/// changes just that record.
pub proof fn lemma_update_record(s: Seq<DataLine>, pos: int, line: DataLine)
    requires
        ascending(s),
        0 <= pos < s.len(),
        s[pos].unix_time == line.unix_time,
    ensures
        ascending(s.update(pos, line)),
        store_map(s.update(pos, line)) == store_map(s).insert(line.unix_time as int, line@),
{
    let u = s.update(pos, line);
    let t = line.unix_time as int;
    assert forall|i: int, j: int| 0 <= i < j < u.len() implies (#[trigger] u[i]).unix_time < (
    #[trigger] u[j]).unix_time by {
        assert(u[i].unix_time == s[i].unix_time);
        assert(u[j].unix_time == s[j].unix_time);
    }
    let expected = store_map(s).insert(t, line@);
    assert forall|k: int| store_map(u).contains_key(k) <==> expected.contains_key(k) by {
        if has_moment(u, k) {
            let i = choose|i: int| 0 <= i < u.len() && (#[trigger] u[i]).unix_time == k;
            assert(s[i].unix_time == k);
        }
        if has_moment(s, k) {
            let i = choose|i: int| 0 <= i < s.len() && (#[trigger] s[i]).unix_time == k;
            assert(u[i].unix_time == k);
        }
        if k == t {
            assert(u[pos].unix_time == k);
        }
    }
    assert forall|k: int| store_map(u).contains_key(k) implies store_map(u)[k] == expected[k] by {
        let i = choose|i: int| 0 <= i < u.len() && (#[trigger] u[i]).unix_time == k;
        lemma_record_at(u, i);
        if i != pos {
            assert(u[i] == s[i]);
            lemma_record_at(s, i);
        }
    }
    assert(store_map(u) =~= expected);
}

/// Pushing the records of a store in ascending order, one by one, merges the
/// two stores.
pub proof fn lemma_push_all_is_merge(m: Map<int, Map<int, DataValue>>, lines: Seq<DataLine>)
    requires
        ascending(lines),
    ensures
        store_with_all(m, lines) == merge_stores(m, store_map(lines)),
    decreases lines.len(),
{
    if lines.len() == 0 {
        assert(store_map(lines) =~= Map::<int, Map<int, DataValue>>::empty());
        assert(merge_stores(m, store_map(lines)) =~= m);
    } else {
        let head = lines.drop_last();
        let last = lines.last();
        let t = last.unix_time as int;
        assert forall|i: int, j: int| 0 <= i < j < head.len() implies (#[trigger] head[i]).unix_time
            < (#[trigger] head[j]).unix_time by {
            assert(head[i] == lines[i]);
            assert(head[j] == lines[j]);
            assert(lines[i].unix_time < lines[j].unix_time);
        }
        lemma_push_all_is_merge(m, head);
        assert forall|j: int| 0 <= j < head.len() implies (#[trigger] head[j]).unix_time
            < last.unix_time by {
            assert(head[j] == lines[j]);
            assert(lines[j].unix_time < lines[lines.len() - 1].unix_time);
        }
        lemma_moment_absent(head, head.len() as int, t);
        lemma_insert_record(head, head.len() as int, last);
        assert(head.insert(head.len() as int, last) =~= lines);
        assert(store_with_all(m, lines) =~= merge_stores(m, store_map(lines)));
    }
}

/// In a store in ascending order, the place where a moment would be put is
/// the number of records before it.
pub proof fn lemma_count_before(s: Seq<DataLine>, t: int, pos: int)
    requires
        0 <= pos <= s.len(),
        forall|j: int| 0 <= j < pos ==> (#[trigger] s[j]).unix_time < t,
        forall|j: int| pos <= j < s.len() ==> (#[trigger] s[j]).unix_time >= t,
    ensures
        count_before(s, t) == pos,
    decreases s.len(),
{
    if s.len() > 0 {
        let head = s.drop_last();
        let p = if pos == s.len() {
            pos - 1
        } else {
            pos
        };
        assert forall|j: int| 0 <= j < p implies (#[trigger] head[j]).unix_time < t by {
            assert(head[j] == s[j]);
        }
        assert forall|j: int| p <= j < head.len() implies (#[trigger] head[j]).unix_time >= t by {
            assert(head[j] == s[j]);
        }
        lemma_count_before(head, t, p);
        if pos == s.len() {
            assert(s[pos - 1].unix_time < t);
        } else {
            assert(s[s.len() - 1].unix_time >= t);
        }
    }
}

/// All records, in the order of time.
#[derive(Debug)]
pub struct DataStorage {
    pub data: Vec<DataLine>,
}

impl View for DataStorage {
    type V = Map<int, Map<int, DataValue>>;

    open spec fn view(&self) -> Map<int, Map<int, DataValue>> {
        store_map(self.data@)
    }
}

impl Clone for DataStorage {
    fn clone(&self) -> (copy: DataStorage)
        ensures
            same_records(copy.data@, self.data@),
    {
        let mut data: Vec<DataLine> = Vec::new();
        let mut i: usize = 0;
        while i < self.data.len()
            invariant
                i <= self.data.len(),
                data.len() == i,
                forall|j: int|
                    0 <= j < i ==> (#[trigger] data[j]).unix_time == self.data[j].unix_time
                        && data[j].line@ == self.data[j].line@,
            decreases self.data.len() - i,
        {
            data.push(self.data[i].duplicate());
            i = i + 1;
        }
        DataStorage { data }
    }
}

impl Default for DataStorage {
    fn default() -> (r: DataStorage)
        ensures
            r.data@ == Seq::<DataLine>::empty(),
            r.wf(),
    {
        DataStorage { data: Vec::new() }
    }
}

impl DataStorage {
    /// The records are in ascending order of their moments, one for each
    /// moment at most, and each is well formed.
    pub open spec fn wf(&self) -> bool {
        ascending(self.data@) && records_wf(self.data@)
    }

    /// Whether the store is one that the other functions accept: its records
    /// in ascending order of their moments, and each well formed.
    pub fn is_well_formed(&self) -> (ok: bool)
        ensures
            ok == self.wf(),
    {
        let mut i: usize = 0;
        while i < self.data.len()
            invariant
                i <= self.data.len(),
                ascending(self.data@.take(i as int)),
                records_wf(self.data@.take(i as int)),
            decreases self.data.len() - i,
        {
            if !self.data[i].is_well_formed() {
                proof {
                    if records_wf(self.data@) {
                        assert(self.data@[i as int].wf());
                    }
                }
                return false;
            }
            if i > 0 && self.data[i - 1].unix_time >= self.data[i].unix_time {
                proof {
                    if ascending(self.data@) {
                        assert(self.data@[i as int - 1].unix_time < self.data@[i as int].unix_time);
                    }
                }
                return false;
            }
            proof {
                let head = self.data@.take(i as int);
                let next = self.data@.take(i as int + 1);
                assert forall|a: int, b: int| 0 <= a < b < next.len() implies (
                #[trigger] next[a]).unix_time < (#[trigger] next[b]).unix_time by {
                    if b < i {
                        assert(head[a].unix_time < head[b].unix_time);
                    } else if a < i - 1 {
                        assert(head[a].unix_time < head[i as int - 1].unix_time);
                    }
                }
                assert forall|a: int| 0 <= a < next.len() implies (#[trigger] next[a]).wf() by {
                    if a < i {
                        assert(head[a].wf());
                    }
                }
            }
            i = i + 1;
        }
        proof {
            assert(self.data@.take(self.data.len() as int) =~= self.data@);
        }
        true
    }

    /// Where the record of the moment `t` stands, or where it would have to be put.
    pub fn position(&self, t: i64) -> (r: Result<usize, usize>)
        requires
            self.wf(),
        ensures
            match r {
                Ok(i) => i < self.data.len() && self.data[i as int].unix_time == t,
                Err(i) => {
                    &&& i <= self.data.len()
                    &&& forall|j: int| 0 <= j < i ==> (#[trigger] self.data[j]).unix_time < t
                    &&& forall|j: int|
                        i <= j < self.data.len() ==> (#[trigger] self.data[j]).unix_time > t
                },
            },
            (match r {
                Ok(i) => i,
                Err(i) => i,
            }) == count_before(self.data@, t as int),
    {
        let mut lo: usize = 0;
        let mut hi: usize = self.data.len();
        while lo < hi
            invariant
                self.wf(),
                lo <= hi <= self.data.len(),
                forall|j: int| 0 <= j < lo ==> (#[trigger] self.data[j]).unix_time < t,
                forall|j: int| hi <= j < self.data.len() ==> (#[trigger] self.data[j]).unix_time > t,
            decreases hi - lo,
        {
            let mid = lo + (hi - lo) / 2;
            let found = self.data[mid].unix_time;
            if found == t {
                proof {
                    assert forall|j: int| 0 <= j < mid implies (#[trigger] self.data[j]).unix_time
                        < t by {
                        assert(self.data[j].unix_time < self.data[mid as int].unix_time);
                    }
                    assert forall|j: int| mid <= j < self.data.len() implies (
                    #[trigger] self.data[j]).unix_time >= t by {
                        if j > mid {
                            assert(self.data[mid as int].unix_time < self.data[j].unix_time);
                        }
                    }
                    lemma_count_before(self.data@, t as int, mid as int);
                }
                return Ok(mid);
            } else if found < t {
                assert forall|j: int| 0 <= j < mid + 1 implies (#[trigger] self.data[j]).unix_time
                    < t by {
                    if j < mid {
                        assert(self.data[j].unix_time < self.data[mid as int].unix_time);
                    }
                }
                lo = mid + 1;
            } else {
                assert forall|j: int| mid <= j < self.data.len() implies (
                #[trigger] self.data[j]).unix_time > t by {
                    if j > mid {
                        assert(self.data[mid as int].unix_time < self.data[j].unix_time);
                    }
                }
                hi = mid;
            }
        }
        proof {
            lemma_count_before(self.data@, t as int, lo as int);
        }
        Err(lo)
    }

    /// Pushes a record. Where the store has none of that moment, the record
    /// is put at its place in time. Where it has one, that one takes from the
    /// new record the measurements of the kinds it lacks, and keeps its own.
    pub fn push_data_line(&mut self, line: DataLine)
        requires
            old(self).wf(),
            line.wf(),
        ensures
            final(self).wf(),
            final(self)@ == store_with(old(self)@, line.unix_time as int, line@),
    {
        match self.position(line.unix_time) {
            Ok(pos) => {
                let ghost before = self.data@;
                let ghost existing = self.data[pos as int];
                let mut i: usize = 0;
                while i < line.line.len()
                    invariant
                        i <= line.line.len(),
                        pos < self.data.len(),
                        self.data.len() == before.len(),
                        self.data@ == before.update(pos as int, self.data[pos as int]),
                        self.data[pos as int].unix_time == line.unix_time,
                        self.data[pos as int].wf(),
                        self.data[pos as int]@ == with_values(
                            existing@,
                            line.line@.take(i as int),
                        ),
                    decreases line.line.len() - i,
                {
                    let ghost current = self.data@;
                    self.data[pos].add_data(line.line[i]);
                    proof {
                        assert(line.line@.take(i as int + 1).drop_last() =~= line.line@.take(
                            i as int,
                        ));
                        assert(self.data@ =~= before.update(pos as int, self.data[pos as int]));
                    }
                    i = i + 1;
                }
                proof {
                    assert(line.line@.take(line.line.len() as int) =~= line.line@);
                    lemma_with_values_is_merge(existing@, line.line@);
                    lemma_record_at(before, pos as int);
                    lemma_update_record(before, pos as int, self.data[pos as int]);
                    assert forall|j: int| 0 <= j < self.data.len() implies (
                    #[trigger] self.data[j]).wf() by {
                        if j != pos {
                            assert(self.data[j] == before[j]);
                        }
                    }
                }
            },
            Err(pos) => {
                proof {
                    lemma_moment_absent(self.data@, pos as int, line.unix_time as int);
                    lemma_insert_record(self.data@, pos as int, line);
                    let u = self.data@.insert(pos as int, line);
                    assert forall|j: int| 0 <= j < u.len() implies (#[trigger] u[j]).wf() by {
                        if j < pos {
                            assert(u[j] == self.data[j]);
                        } else if j > pos {
                            assert(u[j] == self.data[j - 1]);
                        }
                    }
                }
                self.data.insert(pos, line);
            },
        }
    }

    /// Pushes a copy of every record of another store, in the order of time.
    pub fn combine_data(&mut self, new_data: &DataStorage)
        requires
            old(self).wf(),
            new_data.wf(),
        ensures
            final(self).wf(),
            final(self)@ == store_with_all(old(self)@, new_data.data@),
            final(self)@ == merge_stores(old(self)@, new_data@),
    {
        let mut i: usize = 0;
        while i < new_data.data.len()
            invariant
                i <= new_data.data.len(),
                new_data.wf(),
                self.wf(),
                self@ == store_with_all(old(self)@, new_data.data@.take(i as int)),
            decreases new_data.data.len() - i,
        {
            let copy = new_data.data[i].duplicate();
            proof {
                assert(new_data.data@.take(i as int + 1).drop_last() =~= new_data.data@.take(
                    i as int,
                ));
            }
            self.push_data_line(copy);
            i = i + 1;
        }
        proof {
            assert(new_data.data@.take(new_data.data.len() as int) =~= new_data.data@);
            lemma_push_all_is_merge(old(self)@, new_data.data@);
        }
    }

    /// Copies of the records of the moments from `start` up to, but without,
    /// `end`, in the order of time: what `range` gives, to keep when the store
    /// itself is handed back.
    pub fn copy_range(&self, start: i64, end: i64) -> (copy: Vec<DataLine>)
        requires
            self.wf(),
        ensures
            same_records(copy@, window(self.data@, start as int, end as int)),
            records_wf(copy@),
            ascending(copy@),
    {
        let slice = self.range(start, end);
        let mut copy: Vec<DataLine> = Vec::new();
        let mut i: usize = 0;
        proof {
            law_window_is_stretch(self.data@, start as int, end as int);
        }
        while i < slice.len()
            invariant
                i <= slice.len(),
                copy.len() == i,
                forall|j: int|
                    0 <= j < i ==> (#[trigger] copy[j]).unix_time == slice[j].unix_time
                        && copy[j].line@ == slice[j].line@,
            decreases slice.len() - i,
        {
            copy.push(slice[i].duplicate());
            i = i + 1;
        }
        proof {
            let w = window(self.data@, start as int, end as int);
            let lo = count_before(self.data@, start as int);
            assert forall|j: int| 0 <= j < copy.len() implies (#[trigger] copy[j]).wf() by {
                assert(w[j] == self.data@[lo + j]);
                assert(self.data@[lo + j].wf());
            }
            assert forall|a: int, b: int| 0 <= a < b < copy.len() implies (
            #[trigger] copy[a]).unix_time < (#[trigger] copy[b]).unix_time by {
                assert(w[a] == self.data@[lo + a]);
                assert(w[b] == self.data@[lo + b]);
                assert(self.data@[lo + a].unix_time < self.data@[lo + b].unix_time);
            }
        }
        copy
    }

    /// The records of the moments from `start` up to, but without, `end`, as
    /// one stretch of the store. The stretch is empty where `end` is not
    /// after `start`.
    pub fn range(&self, start: i64, end: i64) -> (r: &[DataLine])
        requires
            self.wf(),
        ensures
            r@ == window(self.data@, start as int, end as int),
    {
        let lo = match self.position(start) {
            Ok(i) => i,
            Err(i) => i,
        };
        let hi = match self.position(end) {
            Ok(i) => i,
            Err(i) => i,
        };
        if lo <= hi {
            slice_subrange(self.data.as_slice(), lo, hi)
        } else {
            slice_subrange(self.data.as_slice(), lo, lo)
        }
    }
}


/// The number of records before a moment lies within the store, and in a
/// store in ascending order it parts the records before the moment from the
/// others.
pub proof fn lemma_count_before_splits(s: Seq<DataLine>, t: int)
    requires
        ascending(s),
    ensures
        0 <= count_before(s, t) <= s.len(),
        forall|j: int| 0 <= j < count_before(s, t) ==> (#[trigger] s[j]).unix_time < t,
        forall|j: int| count_before(s, t) <= j < s.len() ==> (#[trigger] s[j]).unix_time >= t,
    decreases s.len(),
{
    if s.len() > 0 {
        let head = s.drop_last();
        assert forall|i: int, j: int| 0 <= i < j < head.len() implies (#[trigger] head[i]).unix_time
            < (#[trigger] head[j]).unix_time by {
            assert(head[i] == s[i]);
            assert(head[j] == s[j]);
            assert(s[i].unix_time < s[j].unix_time);
        }
        lemma_count_before_splits(head, t);
        let p = count_before(head, t);
        assert forall|j: int| 0 <= j < count_before(s, t) implies (#[trigger] s[j]).unix_time
            < t by {
            if j < head.len() {
                assert(head[j] == s[j]);
                if j >= p {
                    assert(s[j].unix_time < s[s.len() - 1].unix_time);
                }
            }
        }
        assert forall|j: int| count_before(s, t) <= j < s.len() implies (#[trigger] s[j]).unix_time
            >= t by {
            if j < head.len() {
                assert(head[j] == s[j]);
            } else {
                if s.last().unix_time < t {
                    if p < head.len() {
                        assert(head[p] == s[p]);
                        assert(s[p].unix_time < s[s.len() - 1].unix_time);
                    }
                }
            }
        }
    }
}

/// A later moment has no fewer records before it.
pub proof fn lemma_count_before_monotonic(s: Seq<DataLine>, t1: int, t2: int)
    requires
        t1 <= t2,
    ensures
        count_before(s, t1) <= count_before(s, t2),
    decreases s.len(),
{
    if s.len() > 0 {
        lemma_count_before_monotonic(s.drop_last(), t1, t2);
    }
}

/// When two records of one moment meet, the one that came first keeps all its
/// measurements, and the kinds that only the second has are added: the
/// merged record holds the kinds of both.
pub proof fn law_first_write_wins(first: Map<int, DataValue>, second: Map<int, DataValue>)
    ensures
        merged_record(first, second).dom() == first.dom().union(second.dom()),
        forall|k: int| first.contains_key(k) ==> merged_record(first, second)[k] == first[k],
        forall|k: int|
            second.contains_key(k) && !first.contains_key(k) ==> merged_record(first, second)[k]
                == second[k],
        first.dom().disjoint(second.dom()) ==> forall|k: int|
            second.contains_key(k) ==> merged_record(first, second)[k] == second[k],
{
    assert(merged_record(first, second).dom() =~= first.dom().union(second.dom()));
}

/// Pushing two records of one moment into a store that has none of that
/// moment leaves one record there: the first, with the measurements of the
/// second for the kinds that the first lacks.
pub proof fn law_push_same_moment(
    store: Map<int, Map<int, DataValue>>,
    t: int,
    first: Map<int, DataValue>,
    second: Map<int, DataValue>,
)
    requires
        !store.contains_key(t),
    ensures
        store_with(store_with(store, t, first), t, second) == store.insert(
            t,
            merged_record(first, second),
        ),
{
    assert(store_with(store_with(store, t, first), t, second) =~= store.insert(
        t,
        merged_record(first, second),
    ));
}

/// A push never takes a record away, nor a measurement from a record, nor
/// changes a measurement that was kept before: the store only grows.
pub proof fn law_push_keeps(
    store: Map<int, Map<int, DataValue>>,
    t: int,
    incoming: Map<int, DataValue>,
    kept_at: int,
    key: int,
)
    requires
        store.contains_key(kept_at),
        store[kept_at].contains_key(key),
    ensures
        store_with(store, t, incoming).contains_key(kept_at),
        store_with(store, t, incoming)[kept_at].contains_key(key),
        store_with(store, t, incoming)[kept_at][key] == store[kept_at][key],
        store_with(store, t, incoming).contains_key(t),
        forall|k: int| incoming.contains_key(k) ==> store_with(store, t, incoming)[t].contains_key(k),
{
}

/// Merging a record into itself changes nothing.
pub proof fn law_merge_record_idempotent(record: Map<int, DataValue>)
    ensures
        merged_record(record, record) == record,
{
    assert(merged_record(record, record) =~= record);
}

/// Merging a store into itself changes nothing.
pub proof fn law_merge_stores_idempotent(store: Map<int, Map<int, DataValue>>)
    ensures
        merge_stores(store, store) == store,
{
    assert forall|t: int| store.contains_key(t) implies merge_stores(store, store)[t]
        == store[t] by {
        law_merge_record_idempotent(store[t]);
    }
    assert(merge_stores(store, store) =~= store);
}

/// Merging what was merged before changes nothing: a file may be taken in twice.
pub proof fn law_merge_stores_absorbs(
    store: Map<int, Map<int, DataValue>>,
    other: Map<int, Map<int, DataValue>>,
)
    ensures
        merge_stores(merge_stores(store, other), other) == merge_stores(store, other),
{
    let once = merge_stores(store, other);
    let twice = merge_stores(once, other);
    assert forall|t: int| once.contains_key(t) implies twice[t] == once[t] by {
        if other.contains_key(t) {
            assert(merged_record(once[t], other[t]) =~= once[t]);
        }
    }
    assert(twice =~= once);
}

/// Two records that agree on the kinds they share merge to the same record
/// in either order.
pub proof fn law_merge_record_commutes(first: Map<int, DataValue>, second: Map<int, DataValue>)
    requires
        forall|k: int| first.contains_key(k) && second.contains_key(k) ==> first[k] == second[k],
    ensures
        merged_record(first, second) == merged_record(second, first),
{
    assert(merged_record(first, second) =~= merged_record(second, first));
}

/// A window is one stretch of the store.
pub proof fn law_window_is_stretch(s: Seq<DataLine>, start: int, end: int)
    requires
        ascending(s),
    ensures
        0 <= count_before(s, start) <= s.len(),
        window(s, start, end) == s.subrange(
            count_before(s, start),
            count_before(s, start) + window(s, start, end).len(),
        ),
        count_before(s, start) + window(s, start, end).len() <= s.len(),
{
    lemma_count_before_splits(s, start);
    lemma_count_before_splits(s, end);
    assert(window(s, start, end) =~= s.subrange(
        count_before(s, start),
        count_before(s, start) + window(s, start, end).len(),
    ));
}

/// Every record of a window lies at or after its start and before its end.
pub proof fn law_window_within(s: Seq<DataLine>, start: int, end: int, i: int)
    requires
        ascending(s),
        0 <= i < window(s, start, end).len(),
    ensures
        start <= window(s, start, end)[i].unix_time < end,
{
    lemma_count_before_splits(s, start);
    lemma_count_before_splits(s, end);
    let lo = count_before(s, start);
    assert(window(s, start, end)[i] == s[lo + i]);
}

/// Every record of the store that lies at or after the start of a window and
/// before its end is in the window, at its place.
pub proof fn law_window_complete(s: Seq<DataLine>, start: int, end: int, j: int)
    requires
        ascending(s),
        0 <= j < s.len(),
        start <= s[j].unix_time < end,
    ensures
        0 <= j - count_before(s, start) < window(s, start, end).len(),
        window(s, start, end)[j - count_before(s, start)] == s[j],
{
    lemma_count_before_splits(s, start);
    lemma_count_before_splits(s, end);
    let lo = count_before(s, start);
    let hi = count_before(s, end);
    if j < lo {
        assert(s[j].unix_time < start);
    }
    if j >= hi {
        assert(s[j].unix_time >= end);
    }
}

/// Two windows that meet at a moment make up the window that spans both.
pub proof fn law_window_concat(s: Seq<DataLine>, a: int, b: int, c: int)
    requires
        ascending(s),
        a <= b <= c,
    ensures
        window(s, a, b) + window(s, b, c) == window(s, a, c),
{
    lemma_count_before_splits(s, a);
    lemma_count_before_splits(s, b);
    lemma_count_before_splits(s, c);
    lemma_count_before_monotonic(s, a, b);
    lemma_count_before_monotonic(s, b, c);
    assert(window(s, a, b) + window(s, b, c) =~= window(s, a, c));
}

/// Of two windows, one ending where or before the other starts, every record
/// of the first lies before every record of the second: they share none.
pub proof fn law_window_disjoint(
    s: Seq<DataLine>,
    a: int,
    b: int,
    c: int,
    d: int,
    i: int,
    j: int,
)
    requires
        ascending(s),
        b <= c,
        0 <= i < window(s, a, b).len(),
        0 <= j < window(s, c, d).len(),
    ensures
        window(s, a, b)[i].unix_time < window(s, c, d)[j].unix_time,
        count_before(s, b) <= count_before(s, c),
{
    law_window_within(s, a, b, i);
    law_window_within(s, c, d, j);
    lemma_count_before_monotonic(s, b, c);
}

} // verus!
