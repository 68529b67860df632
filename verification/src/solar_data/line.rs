//! A record: a moment in time and the measurements taken at it.

use crate::calendar::at_time_of_day;
use crate::calendar::midnight;
use crate::calendar::moment;
use crate::calendar::CalendarDate;
use crate::calendar::ClockTime;
use crate::graph::graph_axis::AxisDataType;
use crate::parse::parse_error::ParseError;
use crate::solar_data::value::DataValue;
use std::cmp::Ordering;
use vstd::prelude::*;
use vstd::std_specs::cmp::PartialEqSpecImpl;
use vstd::std_specs::cmp::PartialOrdSpecImpl;
use vstd::std_specs::convert::FromSpecImpl;

verus! {

/// No two measurements of one kind, and the kinds in ascending order.
pub open spec fn sorted_by_kind(s: Seq<DataValue>) -> bool {
    forall|i: int, j: int|
        0 <= i < j < s.len() ==> #[trigger] s[i].kind_key() < #[trigger] s[j].kind_key()
}

/// Whether the measurements hold one of the kind `key`.
pub open spec fn has_kind(s: Seq<DataValue>, key: int) -> bool {
    exists|i: int| 0 <= i < s.len() && #[trigger] s[i].kind_key() == key
}

/// A measurement of the kind `key` among the measurements.
pub open spec fn value_of_kind(s: Seq<DataValue>, key: int) -> DataValue {
    s[choose|i: int| 0 <= i < s.len() && #[trigger] s[i].kind_key() == key]
}

/// The measurements of a record, each under the key of its kind.
pub open spec fn record_map(s: Seq<DataValue>) -> Map<int, DataValue> {
    Map::new(|key: int| has_kind(s, key), |key: int| value_of_kind(s, key))
}

/// A record after one more measurement has been offered to it: the first
/// measurement of a kind stays, a later one of the same kind is dropped.
pub open spec fn with_value(m: Map<int, DataValue>, data: DataValue) -> Map<int, DataValue> {
    if m.contains_key(data.kind_key()) {
        m
    } else {
        m.insert(data.kind_key(), data)
    }
}

/// A record after a run of measurements has been offered to it, the first of
/// the run first.
pub open spec fn with_values(m: Map<int, DataValue>, values: Seq<DataValue>) -> Map<
    int,
    DataValue,
>
    decreases values.len(),
{
    if values.len() == 0 {
        m
    } else {
        with_value(with_values(m, values.drop_last()), values.last())
    }
}

/// In a sorted record the measurement at a position is the one of its kind.
pub proof fn lemma_value_at(s: Seq<DataValue>, i: int)
    requires
        sorted_by_kind(s),
        0 <= i < s.len(),
    ensures
        record_map(s).contains_key(s[i].kind_key()),
        record_map(s)[s[i].kind_key()] == s[i],
{
    let key = s[i].kind_key();
    assert(has_kind(s, key));
    let j = choose|j: int| 0 <= j < s.len() && #[trigger] s[j].kind_key() == key;
    if j < i {
        assert(s[j].kind_key() < s[i].kind_key());
    } else if i < j {
        assert(s[i].kind_key() < s[j].kind_key());
    }
}

/// A sorted record holds no kind that falls between two neighbours.
pub proof fn lemma_kind_absent(s: Seq<DataValue>, pos: int, key: int)
    requires
        0 <= pos <= s.len(),
        forall|j: int| 0 <= j < pos ==> (#[trigger] s[j].kind_key()) < key,
        forall|j: int| pos <= j < s.len() ==> (#[trigger] s[j].kind_key()) > key,
    ensures
        !record_map(s).contains_key(key),
{
    if has_kind(s, key) {
        let j = choose|j: int| 0 <= j < s.len() && #[trigger] s[j].kind_key() == key;
        if j < pos {
            assert(s[j].kind_key() < key);
        } else {
            assert(s[j].kind_key() > key);
        }
    }
}

/// Putting a measurement of a new kind at its place keeps the record sorted
/// and adds just that measurement.
pub proof fn lemma_insert_kind(s: Seq<DataValue>, pos: int, data: DataValue)
    requires
        sorted_by_kind(s),
        0 <= pos <= s.len(),
        forall|j: int| 0 <= j < pos ==> (#[trigger] s[j].kind_key()) < data.kind_key(),
        forall|j: int| pos <= j < s.len() ==> (#[trigger] s[j].kind_key()) > data.kind_key(),
    ensures
        sorted_by_kind(s.insert(pos, data)),
        record_map(s.insert(pos, data)) == with_value(record_map(s), data),
{
    let t = s.insert(pos, data);
    let key = data.kind_key();
    lemma_kind_absent(s, pos, key);
    assert forall|i: int, j: int| 0 <= i < j < t.len() implies #[trigger] t[i].kind_key()
        < #[trigger] t[j].kind_key() by {
        let a = if i < pos {
            i
        } else {
            i - 1
        };
        let b = if j < pos {
            j
        } else {
            j - 1
        };
        if i != pos && j != pos {
            assert(t[i] == s[a]);
            assert(t[j] == s[b]);
            assert(s[a].kind_key() < s[b].kind_key());
        } else if i == pos {
            assert(t[j] == s[b]);
            assert(s[b].kind_key() > key);
        } else {
            assert(t[i] == s[a]);
            assert(s[a].kind_key() < key);
        }
    }
    let expected = record_map(s).insert(key, data);
    assert forall|k: int| record_map(t).contains_key(k) <==> expected.contains_key(k) by {
        if has_kind(t, k) {
            let i = choose|i: int| 0 <= i < t.len() && #[trigger] t[i].kind_key() == k;
            if i < pos {
                assert(t[i] == s[i]);
                assert(s[i].kind_key() == k);
            } else if i > pos {
                assert(t[i] == s[i - 1]);
                assert(s[i - 1].kind_key() == k);
            }
        }
        if has_kind(s, k) {
            let i = choose|i: int| 0 <= i < s.len() && #[trigger] s[i].kind_key() == k;
            if i < pos {
                assert(t[i] == s[i]);
                assert(t[i].kind_key() == k);
            } else {
                assert(t[i + 1] == s[i]);
                assert(t[i + 1].kind_key() == k);
            }
        }
        if k == key {
            assert(t[pos].kind_key() == k);
        }
    }
    assert forall|k: int| record_map(t).contains_key(k) implies record_map(t)[k] == expected[k] by {
        let i = choose|i: int| 0 <= i < t.len() && #[trigger] t[i].kind_key() == k;
        lemma_value_at(t, i);
        if i < pos {
            assert(t[i] == s[i]);
            lemma_value_at(s, i);
        } else if i > pos {
            assert(t[i] == s[i - 1]);
            lemma_value_at(s, i - 1);
        }
    }
    assert(record_map(t) =~= expected);
}

/// One record: a moment, in seconds since 1970-01-01T00:00:00Z, and the
/// measurements taken at it, at most one of each kind, in the order of their
/// kinds.
#[derive(Debug)]
pub struct DataLine {
    pub unix_time: i64,
    pub line: Vec<DataValue>,
}

impl View for DataLine {
    type V = Map<int, DataValue>;

    open spec fn view(&self) -> Map<int, DataValue> {
        record_map(self.line@)
    }
}

/// The measurement that stands for the kind an axis shows, with no amount.
/// The two time axes show no stored measurement.
pub open spec fn axis_probe(axis: AxisDataType) -> Option<DataValue> {
    match axis {
        AxisDataType::Time => None,
        AxisDataType::PeriodicTime => None,
        AxisDataType::BatteryVoltage => Some(DataValue::BatteryVoltage(0)),
        AxisDataType::BatteryAmps => Some(DataValue::BatteryAmps(0)),
        AxisDataType::SolarWatts => Some(DataValue::SolarWatts(0)),
        AxisDataType::LoadWatts => Some(DataValue::LoadWatts(0)),
        AxisDataType::StateOfChargePercent => Some(DataValue::StateOfChargePercent(0)),
        AxisDataType::CellVoltage(cell) => Some(DataValue::CellVoltage { cell, voltage: 0 }),
        AxisDataType::ControllerPanelVoltage(controller) => Some(
            DataValue::ControllerPanelVoltage { controller, voltage: 0 },
        ),
        AxisDataType::ControllerAmps(controller) => Some(
            DataValue::ControllerAmps { controller, amps: 0 },
        ),
        AxisDataType::ControllerTemperatureF(controller) => Some(
            DataValue::ControllerTemperatureF { controller, temperature: 0 },
        ),
    }
}

/// What a record with moment `unix_time` and measurements `m` shows on an
/// axis: its moment on the time axis, nothing on the periodic time axis, and
/// on any other axis the amount of the measurement of that kind, if it has one.
pub open spec fn axis_value(unix_time: int, m: Map<int, DataValue>, axis: AxisDataType) -> Option<
    int,
> {
    match axis {
        AxisDataType::Time => Some(unix_time),
        _ => match axis_probe(axis) {
            Some(probe) => if m.contains_key(probe.kind_key()) {
                Some(m[probe.kind_key()].amount_spec())
            } else {
                None
            },
            None => None,
        },
    }
}

fn probe_for(axis: AxisDataType) -> (probe: Option<DataValue>)
    ensures
        probe == axis_probe(axis),
{
    match axis {
        AxisDataType::Time => None,
        AxisDataType::PeriodicTime => None,
        AxisDataType::BatteryVoltage => Some(DataValue::BatteryVoltage(0)),
        AxisDataType::BatteryAmps => Some(DataValue::BatteryAmps(0)),
        AxisDataType::SolarWatts => Some(DataValue::SolarWatts(0)),
        AxisDataType::LoadWatts => Some(DataValue::LoadWatts(0)),
        AxisDataType::StateOfChargePercent => Some(DataValue::StateOfChargePercent(0)),
        AxisDataType::CellVoltage(cell) => Some(DataValue::CellVoltage { cell, voltage: 0 }),
        AxisDataType::ControllerPanelVoltage(controller) => Some(
            DataValue::ControllerPanelVoltage { controller, voltage: 0 },
        ),
        AxisDataType::ControllerAmps(controller) => Some(
            DataValue::ControllerAmps { controller, amps: 0 },
        ),
        AxisDataType::ControllerTemperatureF(controller) => Some(
            DataValue::ControllerTemperatureF { controller, temperature: 0 },
        ),
    }
}

impl DataLine {
    /// The measurements are in the order of their kinds, one of each at most.
    pub open spec fn wf(&self) -> bool {
        sorted_by_kind(self.line@)
    }

    /// An empty record at a date and time of day in UTC; `None` where the
    /// date or the time of day does not exist.
    pub fn new(date: CalendarDate, time: ClockTime) -> (r: Option<DataLine>)
        ensures
            r is Some <==> moment(date, time) is Some,
            r matches Some(line) ==> Some(line.unix_time) == moment(date, time)
                && line.line@ == Seq::<DataValue>::empty() && line.wf(),
            r matches Some(line) ==> Some(line.unix_time) == at_time_of_day(midnight(date), time),
            r is None ==> at_time_of_day(midnight(date), time) is None,
    {
        match date.timestamp_at(&time) {
            Some(unix_time) => Some(DataLine { unix_time, line: Vec::new() }),
            None => None,
        }
    }

    /// Where a measurement of the kind `key` stands, or where it would have
    /// to be put.
    pub fn position(&self, key: u32) -> (r: Result<usize, usize>)
        requires
            self.wf(),
        ensures
            match r {
                Ok(i) => i < self.line.len() && self.line[i as int].kind_key() == key,
                Err(i) => {
                    &&& i <= self.line.len()
                    &&& forall|j: int| 0 <= j < i ==> (#[trigger] self.line[j].kind_key()) < key
                    &&& forall|j: int|
                        i <= j < self.line.len() ==> (#[trigger] self.line[j].kind_key()) > key
                },
            },
    {
        let mut lo: usize = 0;
        let mut hi: usize = self.line.len();
        while lo < hi
            invariant
                self.wf(),
                lo <= hi <= self.line.len(),
                forall|j: int| 0 <= j < lo ==> (#[trigger] self.line[j].kind_key()) < key,
                forall|j: int| hi <= j < self.line.len() ==> (#[trigger] self.line[j].kind_key()) > key,
            decreases hi - lo,
        {
            let mid = lo + (hi - lo) / 2;
            let found = self.line[mid].kind();
            if found == key {
                return Ok(mid);
            } else if found < key {
                assert forall|j: int| 0 <= j < mid + 1 implies (#[trigger] self.line[j].kind_key())
                    < key by {
                    if j < mid {
                        assert(self.line[j].kind_key() < self.line[mid as int].kind_key());
                    }
                }
                lo = mid + 1;
            } else {
                assert forall|j: int| mid <= j < self.line.len() implies (
                #[trigger] self.line[j].kind_key()) > key by {
                    if j > mid {
                        assert(self.line[mid as int].kind_key() < self.line[j].kind_key());
                    }
                }
                hi = mid;
            }
        }
        Err(lo)
    }

    /// Offers a measurement to the record. It is added at the place of its
    /// kind, unless the record already has one of that kind: then the record
    /// stays as it is.
    pub fn add_data(&mut self, data: DataValue)
        requires
            old(self).wf(),
        ensures
            final(self).wf(),
            final(self).unix_time == old(self).unix_time,
            final(self)@ == with_value(old(self)@, data),
    {
        match self.position(data.kind()) {
            Ok(i) => {
                proof {
                    lemma_value_at(self.line@, i as int);
                }
            },
            Err(pos) => {
                proof {
                    lemma_insert_kind(self.line@, pos as int, data);
                }
                self.line.insert(pos, data);
            },
        }
    }

    /// The measurement of the record that is of the same kind as `data`.
    pub fn search_data(&self, data: &DataValue) -> (r: Option<&DataValue>)
        requires
            self.wf(),
        ensures
            r is Some <==> self@.contains_key(data.kind_key()),
            r matches Some(found) ==> *found == self@[data.kind_key()],
    {
        match self.position(data.kind()) {
            Ok(i) => {
                proof {
                    lemma_value_at(self.line@, i as int);
                }
                Some(&self.line[i])
            },
            Err(pos) => {
                proof {
                    lemma_kind_absent(self.line@, pos as int, data.kind_key());
                }
                None
            },
        }
    }

    /// What the record shows on an axis: seconds on the time axis, millionths
    /// of the unit on an axis of measurements, `None` where the record has
    /// nothing to show.
    pub fn calculate_axis_data(&self, axis: AxisDataType) -> (r: Option<i64>)
        requires
            self.wf(),
        ensures
            r.is_some() == axis_value(self.unix_time as int, self@, axis).is_some(),
            r matches Some(v) ==> Some(v as int) == axis_value(self.unix_time as int, self@, axis),
    {
        match axis {
            AxisDataType::Time => Some(self.unix_time),
            _ => match probe_for(axis) {
                Some(probe) => match self.search_data(&probe) {
                    Some(found) => Some(found.amount()),
                    None => None,
                },
                None => None,
            },
        }
    }

    /// Whether the measurements are in the order of their kinds, one of each
    /// at most: whether the record is one that the other functions accept.
    pub fn is_well_formed(&self) -> (ok: bool)
        ensures
            ok == self.wf(),
    {
        if self.line.len() < 2 {
            return true;
        }
        let mut i: usize = 1;
        while i < self.line.len()
            invariant
                1 <= i <= self.line.len(),
                sorted_by_kind(self.line@.take(i as int)),
            decreases self.line.len() - i,
        {
            if self.line[i - 1].kind() >= self.line[i].kind() {
                proof {
                    if sorted_by_kind(self.line@) {
                        assert(self.line@[i as int - 1].kind_key() < self.line@[i as int].kind_key());
                    }
                }
                return false;
            }
            proof {
                let head = self.line@.take(i as int);
                let next = self.line@.take(i as int + 1);
                assert forall|a: int, b: int| 0 <= a < b < next.len() implies #[trigger] next[a].kind_key()
                    < #[trigger] next[b].kind_key() by {
                    if b < i {
                        assert(head[a].kind_key() < head[b].kind_key());
                    } else if a < i - 1 {
                        assert(head[a].kind_key() < head[i as int - 1].kind_key());
                    }
                }
            }
            i = i + 1;
        }
        proof {
            assert(self.line@.take(self.line.len() as int) =~= self.line@);
        }
        true
    }

    /// A copy of the record.
    pub fn duplicate(&self) -> (copy: DataLine)
        ensures
            copy.unix_time == self.unix_time,
            copy.line@ == self.line@,
    {
        let mut line: Vec<DataValue> = Vec::new();
        let mut i: usize = 0;
        while i < self.line.len()
            invariant
                i <= self.line.len(),
                line@ == self.line@.take(i as int),
            decreases self.line.len() - i,
        {
            line.push(self.line[i]);
            proof {
                assert(self.line@.take(i as int + 1) =~= self.line@.take(i as int).push(
                    self.line[i as int],
                ));
            }
            i = i + 1;
        }
        proof {
            assert(self.line@.take(self.line.len() as int) =~= self.line@);
        }
        DataLine { unix_time: self.unix_time, line }
    }

    /// How two records are ordered: by their moments alone.
    pub open spec fn cmp_spec(&self, other: &DataLine) -> Ordering {
        if self.unix_time < other.unix_time {
            Ordering::Less
        } else if self.unix_time == other.unix_time {
            Ordering::Equal
        } else {
            Ordering::Greater
        }
    }

    /// Orders two records by their moments.
    pub fn cmp(&self, other: &DataLine) -> (o: Ordering)
        ensures
            o == self.cmp_spec(other),
    {
        if self.unix_time < other.unix_time {
            Ordering::Less
        } else if self.unix_time == other.unix_time {
            Ordering::Equal
        } else {
            Ordering::Greater
        }
    }
}

impl Clone for DataLine {
    fn clone(&self) -> (copy: DataLine)
        ensures
            copy.unix_time == self.unix_time,
            copy.line@ == self.line@,
    {
        self.duplicate()
    }
}

/// The measurements of the record, in the order of their kinds.
impl IntoIterator for DataLine {
    type Item = DataValue;

    type IntoIter = std::vec::IntoIter<DataValue>;

    fn into_iter(self) -> (iter: std::vec::IntoIter<DataValue>)
        ensures
            iter == vstd::std_specs::vec::spec_into_iter(self.line),
    {
        self.line.into_iter()
    }
}

/// An empty record at a moment given in seconds since 1970-01-01T00:00:00Z.
impl From<i64> for DataLine {
    fn from(value: i64) -> (r: DataLine)
        ensures
            r.unix_time == value,
            r.line@ == Seq::<DataValue>::empty(),
            r.wf(),
    {
        DataLine { unix_time: value, line: Vec::new() }
    }
}

/// What the conversion gives is said by the contract of `from`: its moment
/// and that it is empty. Two empty records need not be the same value, so
/// the conversion is not held to give one certain record.
impl FromSpecImpl<i64> for DataLine {
    open spec fn obeys_from_spec() -> bool {
        false
    }

    open spec fn from_spec(value: i64) -> DataLine {
        choose|r: DataLine| r.unix_time == value && r.line@ == Seq::<DataValue>::empty()
    }
}

/// Two records are equal when their moments are: the measurements take no part.
impl PartialEq for DataLine {
    fn eq(&self, other: &DataLine) -> (r: bool) {
        self.unix_time == other.unix_time
    }
}

impl PartialEqSpecImpl for DataLine {
    open spec fn obeys_eq_spec() -> bool {
        true
    }

    open spec fn eq_spec(&self, other: &DataLine) -> bool {
        self.unix_time == other.unix_time
    }
}

impl PartialOrd for DataLine {
    fn partial_cmp(&self, other: &DataLine) -> (r: Option<Ordering>) {
        Some(self.cmp(other))
    }
}

impl PartialOrdSpecImpl for DataLine {
    open spec fn obeys_partial_cmp_spec() -> bool {
        true
    }

    open spec fn partial_cmp_spec(&self, other: &DataLine) -> Option<Ordering> {
        Some(self.cmp_spec(other))
    }
}


/// Gathers what a line says before the record is made: the date, the time of
/// day, and the measurements in the order in which they were read.
#[derive(Debug)]
pub struct DataLineBuilder {
    date: Option<CalendarDate>,
    time: Option<ClockTime>,
    line: Vec<DataValue>,
}

impl Default for DataLineBuilder {
    fn default() -> (r: DataLineBuilder)
        ensures
            r.date() is None,
            r.time() is None,
            r.values() == Seq::<DataValue>::empty(),
    {
        DataLineBuilder { date: None, time: None, line: Vec::new() }
    }
}

/// The record that a builder makes: at the moment of its date and time, with
/// the measurements offered in the order in which they were read. Without a
/// date, without a time, or with a date and time that do not exist, there is
/// no record but a date error.
pub open spec fn built(
    date: Option<CalendarDate>,
    time: Option<ClockTime>,
    values: Seq<DataValue>,
) -> Result<(i64, Map<int, DataValue>), ParseError> {
    match (date, time) {
        (Some(d), Some(t)) => match moment(d, t) {
            Some(unix_time) => Ok((unix_time, with_values(Map::<int, DataValue>::empty(), values))),
            None => Err(ParseError::DateTimeParseError),
        },
        _ => Err(ParseError::DateTimeParseError),
    }
}

impl DataLineBuilder {
    /// The date set, if any.
    pub closed spec fn date(&self) -> Option<CalendarDate> {
        self.date
    }

    /// The time of day set, if any.
    pub closed spec fn time(&self) -> Option<ClockTime> {
        self.time
    }

    /// The measurements noted, in the order in which they were noted.
    pub closed spec fn values(&self) -> Seq<DataValue> {
        self.line@
    }

    /// Notes one more measurement.
    pub fn add_data(&mut self, data: DataValue)
        ensures
            final(self).values() == old(self).values().push(data),
            final(self).date() == old(self).date(),
            final(self).time() == old(self).time(),
    {
        self.line.push(data);
    }

    /// Sets the date.
    pub fn set_date(self, date: CalendarDate) -> (r: DataLineBuilder)
        ensures
            r.date() == Some(date),
            r.time() == self.time(),
            r.values() == self.values(),
    {
        DataLineBuilder { date: Some(date), time: self.time, line: self.line }
    }

    /// Sets the time of day.
    pub fn set_time(self, time: ClockTime) -> (r: DataLineBuilder)
        ensures
            r.date() == self.date(),
            r.time() == Some(time),
            r.values() == self.values(),
    {
        DataLineBuilder { date: self.date, time: Some(time), line: self.line }
    }

    /// Makes the record. Of several measurements of one kind the first read
    /// is kept.
    pub fn build(self) -> (r: Result<DataLine, ParseError>)
        ensures
            match built(self.date(), self.time(), self.values()) {
                Ok((unix_time, measurements)) => r matches Ok(line) && line.unix_time == unix_time
                    && line@ == measurements && line.wf(),
                Err(e) => r matches Err(f) && f == e,
            },
            r matches Ok(line) ==> Some(line.unix_time) == at_time_of_day(
                midnight(self.date()->0),
                self.time()->0,
            ),
    {
        let date = match self.date {
            Some(d) => d,
            None => {
                return Err(ParseError::DateTimeParseError);
            },
        };
        let time = match self.time {
            Some(t) => t,
            None => {
                return Err(ParseError::DateTimeParseError);
            },
        };
        let mut record = match DataLine::new(date, time) {
            Some(l) => l,
            None => {
                return Err(ParseError::DateTimeParseError);
            },
        };
        proof {
            assert(record@ =~= Map::<int, DataValue>::empty());
        }
        let mut i: usize = 0;
        while i < self.line.len()
            invariant
                i <= self.line.len(),
                record.wf(),
                Some(record.unix_time) == moment(date, time),
                record@ == with_values(Map::<int, DataValue>::empty(), self.line@.take(i as int)),
            decreases self.line.len() - i,
        {
            proof {
                assert(self.line@.take(i as int + 1).drop_last() =~= self.line@.take(i as int));
            }
            record.add_data(self.line[i]);
            i = i + 1;
        }
        proof {
            assert(self.line@.take(self.line.len() as int) =~= self.line@);
        }
        Ok(record)
    }
}

} // verus!
