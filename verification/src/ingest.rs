//! Taking in a file: every line is offered to both readers, and what they
//! read is merged into the records kept so far.

use crate::calendar::utc_year_of_tomorrow;
use crate::parse::live_data::live_line;
use crate::parse::live_data::LiveData;
use crate::parse::parse_error::ParseError;
use crate::parse::stored_data::stored_line;
use crate::parse::stored_data::StoredData;
use crate::parse::utils::ParseCompleteReturnValue;
use crate::solar_data::cell::AvailableCells;
use crate::solar_data::controllers::AvailableControllers;
use crate::solar_data::line::has_kind;
use crate::solar_data::line::with_values;
use crate::solar_data::line::DataLine;
use crate::solar_data::storage::merge_stores;
use crate::solar_data::storage::store_with;
use crate::solar_data::storage::DataStorage;
use crate::solar_data::value::DataValue;
use crate::text::entries_of;
use crate::text::entries_spec;
use crate::text::split_bytes;
use crate::text::split_on;
use vstd::prelude::*;
use vstd::string::StringSliceAdditionalSpecFns;

verus! {

/// All that is kept between requests: the records, and the ids of the cells
/// and of the controllers that the records of the live dialect have shown.
#[derive(Debug)]
pub struct SolarRecords {
    pub data: DataStorage,
    pub cells: AvailableCells,
    pub controllers: AvailableControllers,
}

impl Default for SolarRecords {
    fn default() -> (r: SolarRecords)
        ensures
            r.wf(),
            r.data.data@ == Seq::<DataLine>::empty(),
            r.cells@ == Seq::<u16>::empty(),
            r.controllers@ == Seq::<u16>::empty(),
    {
        SolarRecords {
            data: DataStorage::default(),
            cells: AvailableCells::default(),
            controllers: AvailableControllers::default(),
        }
    }
}

impl SolarRecords {
    /// The store and both registries are well formed.
    pub open spec fn wf(&self) -> bool {
        self.data.wf() && self.cells.wf() && self.controllers.wf()
    }

    /// Whether the records are such that the other functions accept them.
    pub fn is_well_formed(&self) -> (ok: bool)
        ensures
            ok == self.wf(),
    {
        self.data.is_well_formed() && self.cells.is_well_formed()
            && self.controllers.is_well_formed()
    }
}

/// The key of the kind "voltage of the cell".
pub open spec fn cell_key(cell: u16) -> int {
    (DataValue::CellVoltage { cell, voltage: 0 }).kind_key()
}

/// The key of the kind "panel voltage of the controller".
pub open spec fn panel_key(controller: u16) -> int {
    (DataValue::ControllerPanelVoltage { controller, voltage: 0 }).kind_key()
}

/// The key of the kind "battery voltage of the controller".
pub open spec fn battery_key(controller: u16) -> int {
    (DataValue::ControllerBatteryVoltage { controller, voltage: 0 }).kind_key()
}

/// The key of the kind "amps of the controller".
pub open spec fn amps_key(controller: u16) -> int {
    (DataValue::ControllerAmps { controller, amps: 0 }).kind_key()
}

/// The key of the kind "temperature of the controller".
pub open spec fn temperature_key(controller: u16) -> int {
    (DataValue::ControllerTemperatureF { controller, temperature: 0 }).kind_key()
}

/// The cells of which a record holds a voltage.
pub open spec fn cells_in(m: Map<int, DataValue>) -> Set<u16> {
    Set::new(|cell: u16| m.contains_key(cell_key(cell)))
}

/// The controllers of which a record holds a panel voltage, a battery
/// voltage, amps or a temperature.
pub open spec fn controllers_in(m: Map<int, DataValue>) -> Set<u16> {
    Set::new(
        |controller: u16|
            m.contains_key(panel_key(controller)) || m.contains_key(battery_key(controller))
                || m.contains_key(amps_key(controller)) || m.contains_key(
                temperature_key(controller),
            ),
    )
}

/// The lines of a text as entries: the text is cut at every carriage return,
/// each piece at every comma, and each entry is trimmed.
pub open spec fn lines_of(text: Seq<u8>) -> Seq<Seq<Seq<u8>>> {
    let raw = split_bytes(text, 13);
    Seq::new(raw.len(), |i: int| entries_spec(raw[i]))
}

/// What one of the two readers makes of a line.
#[verifier::opaque]
pub open spec fn outcome(fields: Seq<Seq<u8>>, current_year: int, live: bool) -> Result<
    (i64, Seq<DataValue>),
    ParseError,
> {
    if live {
        live_line(fields, current_year)
    } else {
        stored_line(fields, current_year)
    }
}

/// The record made of measurements in the order in which they were read.
pub open spec fn record_of(values: Seq<DataValue>) -> Map<int, DataValue> {
    with_values(Map::<int, DataValue>::empty(), values)
}

/// A store after a reader has been offered a line: the record is pushed
/// where the reader could read the line.
pub open spec fn store_after(
    store: Map<int, Map<int, DataValue>>,
    read: Result<(i64, Seq<DataValue>), ParseError>,
) -> Map<int, Map<int, DataValue>> {
    match read {
        Ok((unix_time, values)) => store_with(store, unix_time as int, record_of(values)),
        Err(_) => store,
    }
}

/// The cells of the record that a reader has read, if it has read one.
pub open spec fn cells_read(read: Result<(i64, Seq<DataValue>), ParseError>) -> Set<u16> {
    match read {
        Ok((_, values)) => cells_in(record_of(values)),
        Err(_) => Set::empty(),
    }
}

/// The controllers of the record that a reader has read, if it has read one.
pub open spec fn controllers_read(read: Result<(i64, Seq<DataValue>), ParseError>) -> Set<u16> {
    match read {
        Ok((_, values)) => controllers_in(record_of(values)),
        Err(_) => Set::empty(),
    }
}

/// The store of one reader after the lines: every line that it can read is
/// pushed, in the order of the lines.
pub open spec fn pushed(lines: Seq<Seq<Seq<u8>>>, current_year: int, live: bool) -> Map<
    int,
    Map<int, DataValue>,
>
    decreases lines.len(),
{
    if lines.len() == 0 {
        Map::empty()
    } else {
        store_after(
            pushed(lines.drop_last(), current_year, live),
            outcome(lines.last(), current_year, live),
        )
    }
}

/// The cells that the lines show to the reader of the live dialect.
pub open spec fn cells_seen(lines: Seq<Seq<Seq<u8>>>, current_year: int) -> Set<u16>
    decreases lines.len(),
{
    if lines.len() == 0 {
        Set::empty()
    } else {
        cells_seen(lines.drop_last(), current_year).union(
            cells_read(outcome(lines.last(), current_year, true)),
        )
    }
}

/// The controllers that the lines show to the reader of the live dialect.
pub open spec fn controllers_seen(lines: Seq<Seq<Seq<u8>>>, current_year: int) -> Set<u16>
    decreases lines.len(),
{
    if lines.len() == 0 {
        Set::empty()
    } else {
        controllers_seen(lines.drop_last(), current_year).union(
            controllers_read(outcome(lines.last(), current_year, true)),
        )
    }
}

/// What taking in a text does to the records, seen from the year
/// `current_year`: both readers' stores are merged, the live one first, and
/// merged into the records kept; the ids that the live reader saw are added.
pub open spec fn ingested(
    before: SolarRecords,
    after: SolarRecords,
    text: Seq<u8>,
    current_year: int,
) -> bool {
    let lines = lines_of(text);
    &&& after.data@ == merge_stores(
        before.data@,
        merge_stores(pushed(lines, current_year, true), pushed(lines, current_year, false)),
    )
    &&& after.cells.ids() == before.cells.ids().union(cells_seen(lines, current_year))
    &&& after.controllers.ids() == before.controllers.ids().union(
        controllers_seen(lines, current_year),
    )
}

/// The cells seen among the first `n` measurements.
spec fn cells_among(s: Seq<DataValue>, n: int) -> Set<u16> {
    Set::new(|cell: u16| exists|j: int| 0 <= j < n && #[trigger] s[j].kind_key() == cell_key(cell))
}

/// The controllers seen among the first `n` measurements.
spec fn controllers_among(s: Seq<DataValue>, n: int) -> Set<u16> {
    Set::new(
        |controller: u16|
            exists|j: int|
                0 <= j < n && (#[trigger] s[j].kind_key() == panel_key(controller)
                    || s[j].kind_key() == battery_key(controller) || s[j].kind_key() == amps_key(
                    controller,
                ) || s[j].kind_key() == temperature_key(controller)),
    )
}

/// Notes in the registries the cells and controllers of a record.
pub fn note_ids(
    line: &DataLine,
    cells: &mut AvailableCells,
    controllers: &mut AvailableControllers,
)
    requires
        old(cells).wf(),
        old(controllers).wf(),
    ensures
        final(cells).wf(),
        final(controllers).wf(),
        final(cells).ids() == old(cells).ids().union(cells_in(line@)),
        final(controllers).ids() == old(controllers).ids().union(controllers_in(line@)),
{
    let mut i: usize = 0;
    proof {
        assert(old(cells).ids().union(cells_among(line.line@, 0)) =~= old(cells).ids());
        assert(old(controllers).ids().union(controllers_among(line.line@, 0)) =~= old(
            controllers,
        ).ids());
    }
    while i < line.line.len()
        invariant
            i <= line.line.len(),
            cells.wf(),
            controllers.wf(),
            cells.ids() == old(cells).ids().union(cells_among(line.line@, i as int)),
            controllers.ids() == old(controllers).ids().union(
                controllers_among(line.line@, i as int),
            ),
        decreases line.line.len() - i,
    {
        let ghost s = line.line@;
        let ghost value = s[i as int];
        match line.line[i] {
            DataValue::CellVoltage { cell, voltage: _ } => {
                let _ = cells.insert(cell);
                proof {
                    assert(value.kind_key() == cell_key(cell));
                    assert(cells_among(s, i as int + 1) =~= cells_among(s, i as int).insert(cell));
                    assert(controllers_among(s, i as int + 1) =~= controllers_among(s, i as int));
                }
            },
            DataValue::ControllerPanelVoltage { controller, voltage: _ } => {
                let _ = controllers.insert(controller);
                proof {
                    assert(value.kind_key() == panel_key(controller));
                    assert(cells_among(s, i as int + 1) =~= cells_among(s, i as int));
                    assert(controllers_among(s, i as int + 1) =~= controllers_among(
                        s,
                        i as int,
                    ).insert(controller));
                }
            },
            DataValue::ControllerBatteryVoltage { controller, voltage: _ } => {
                let _ = controllers.insert(controller);
                proof {
                    assert(value.kind_key() == battery_key(controller));
                    assert(cells_among(s, i as int + 1) =~= cells_among(s, i as int));
                    assert(controllers_among(s, i as int + 1) =~= controllers_among(
                        s,
                        i as int,
                    ).insert(controller));
                }
            },
            DataValue::ControllerAmps { controller, amps: _ } => {
                let _ = controllers.insert(controller);
                proof {
                    assert(value.kind_key() == amps_key(controller));
                    assert(cells_among(s, i as int + 1) =~= cells_among(s, i as int));
                    assert(controllers_among(s, i as int + 1) =~= controllers_among(
                        s,
                        i as int,
                    ).insert(controller));
                }
            },
            DataValue::ControllerTemperatureF { controller, temperature: _ } => {
                let _ = controllers.insert(controller);
                proof {
                    assert(value.kind_key() == temperature_key(controller));
                    assert(cells_among(s, i as int + 1) =~= cells_among(s, i as int));
                    assert(controllers_among(s, i as int + 1) =~= controllers_among(
                        s,
                        i as int,
                    ).insert(controller));
                }
            },
            _ => {
                proof {
                    assert(cells_among(s, i as int + 1) =~= cells_among(s, i as int));
                    assert(controllers_among(s, i as int + 1) =~= controllers_among(s, i as int));
                }
            },
        }
        i = i + 1;
    }
    proof {
        let s = line.line@;
        assert forall|cell: u16| cells_among(s, s.len() as int).contains(cell) <==> cells_in(
            line@,
        ).contains(cell) by {
            if has_kind(s, cell_key(cell)) {
                let j = choose|j: int| 0 <= j < s.len() && #[trigger] s[j].kind_key() == cell_key(
                    cell,
                );
                assert(s[j].kind_key() == cell_key(cell));
            }
        }
        assert(cells_among(s, s.len() as int) =~= cells_in(line@));
        assert forall|c: u16| controllers_among(s, s.len() as int).contains(c)
            <==> controllers_in(line@).contains(c) by {
            if has_kind(s, panel_key(c)) {
                let j = choose|j: int| 0 <= j < s.len() && #[trigger] s[j].kind_key() == panel_key(
                    c,
                );
                assert(s[j].kind_key() == panel_key(c));
            }
            if has_kind(s, battery_key(c)) {
                let j = choose|j: int|
                    0 <= j < s.len() && #[trigger] s[j].kind_key() == battery_key(c);
                assert(s[j].kind_key() == battery_key(c));
            }
            if has_kind(s, amps_key(c)) {
                let j = choose|j: int| 0 <= j < s.len() && #[trigger] s[j].kind_key() == amps_key(
                    c,
                );
                assert(s[j].kind_key() == amps_key(c));
            }
            if has_kind(s, temperature_key(c)) {
                let j = choose|j: int|
                    0 <= j < s.len() && #[trigger] s[j].kind_key() == temperature_key(c);
                assert(s[j].kind_key() == temperature_key(c));
            }
        }
        assert(controllers_among(s, s.len() as int) =~= controllers_in(line@));
    }
}

/// No lines, nothing read.
proof fn lemma_nothing_read(lines: Seq<Seq<Seq<u8>>>, current_year: int)
    requires
        lines.len() == 0,
    ensures
        pushed(lines, current_year, true) == Map::<int, Map<int, DataValue>>::empty(),
        pushed(lines, current_year, false) == Map::<int, Map<int, DataValue>>::empty(),
        cells_seen(lines, current_year) == Set::<u16>::empty(),
        controllers_seen(lines, current_year) == Set::<u16>::empty(),
{
}

/// Offers one line to both readers and keeps what they read.
fn offer_line(
    line: &str,
    current_year: i32,
    live: &mut LiveData,
    stored: &mut StoredData,
    cells: &mut AvailableCells,
    controllers: &mut AvailableControllers,
)
    requires
        old(live).data.wf(),
        old(stored).data.wf(),
        old(cells).wf(),
        old(controllers).wf(),
    ensures
        final(live).data.wf(),
        final(stored).data.wf(),
        final(cells).wf(),
        final(controllers).wf(),
        final(live).data@ == store_after(
            old(live).data@,
            outcome(entries_spec(line.spec_bytes()), current_year as int, true),
        ),
        final(stored).data@ == store_after(
            old(stored).data@,
            outcome(entries_spec(line.spec_bytes()), current_year as int, false),
        ),
        final(cells).ids() == old(cells).ids().union(
            cells_read(outcome(entries_spec(line.spec_bytes()), current_year as int, true)),
        ),
        final(controllers).ids() == old(controllers).ids().union(
            controllers_read(outcome(entries_spec(line.spec_bytes()), current_year as int, true)),
        ),
{
    reveal(outcome);
    let entries = entries_of(line);
    let from_live = live.parse_in_year(&entries, current_year);
    let from_stored = stored.parse_in_year(&entries, current_year);
    match from_live {
        Ok(record) => {
            note_ids(&record, cells, controllers);
            live.data.push_data_line(record);
        },
        Err(_) => {
            proof {
                assert(cells.ids().union(Set::<u16>::empty()) =~= cells.ids());
                assert(controllers.ids().union(Set::<u16>::empty()) =~= controllers.ids());
            }
        },
    }
    match from_stored {
        Ok(record) => {
            stored.data.push_data_line(record);
        },
        Err(_) => {},
    }
}

/// What both readers make of the lines of a text, given as the pieces
/// between its carriage returns: their stores, and the ids that the live
/// reader saw.
fn read_lines(raw: &Vec<&str>, current_year: i32, Ghost(lines): Ghost<Seq<Seq<Seq<u8>>>>) -> (r: (
    DataStorage,
    DataStorage,
    AvailableCells,
    AvailableControllers,
))
    requires
        lines.len() == raw.len(),
        forall|i: int|
            0 <= i < raw.len() ==> #[trigger] lines[i] == entries_spec(raw[i].spec_bytes()),
    ensures
        r.0.wf(),
        r.1.wf(),
        r.2.wf(),
        r.3.wf(),
        r.0@ == pushed(lines, current_year as int, true),
        r.1@ == pushed(lines, current_year as int, false),
        r.2.ids() == cells_seen(lines, current_year as int),
        r.3.ids() == controllers_seen(lines, current_year as int),
{
    let mut live = LiveData::default();
    let mut stored = StoredData::default();
    let mut cells = AvailableCells::default();
    let mut controllers = AvailableControllers::default();
    let ghost year = current_year as int;
    let mut i: usize = 0;
    proof {
        lemma_nothing_read(lines.take(0), year);
        assert(live.data@ =~= Map::<int, Map<int, DataValue>>::empty());
        assert(stored.data@ =~= Map::<int, Map<int, DataValue>>::empty());
        assert(cells.ids() =~= Set::<u16>::empty());
        assert(controllers.ids() =~= Set::<u16>::empty());
    }
    while i < raw.len()
        invariant
            i <= raw.len(),
            year == current_year as int,
            lines.len() == raw.len(),
            forall|i: int|
                0 <= i < raw.len() ==> #[trigger] lines[i] == entries_spec(raw[i].spec_bytes()),
            live.data.wf(),
            stored.data.wf(),
            cells.wf(),
            controllers.wf(),
            live.data@ == pushed(lines.take(i as int), year, true),
            stored.data@ == pushed(lines.take(i as int), year, false),
            cells.ids() == cells_seen(lines.take(i as int), year),
            controllers.ids() == controllers_seen(lines.take(i as int), year),
        decreases raw.len() - i,
    {
        proof {
            assert(lines.take(i as int + 1).drop_last() =~= lines.take(i as int));
            assert(lines.take(i as int + 1).last() == lines[i as int]);
            assert(lines[i as int] == entries_spec(raw[i as int].spec_bytes()));
        }
        offer_line(raw[i], current_year, &mut live, &mut stored, &mut cells, &mut controllers);
        i = i + 1;
    }
    proof {
        assert(lines.take(raw.len() as int) =~= lines);
    }
    (live.data, stored.data, cells, controllers)
}

/// Takes in the text of a file as seen from the year `current_year`, by
/// which two-digit years are completed.
///
/// The text is cut into lines at every carriage return and each line into
/// trimmed entries at every comma. Each line is offered to both readers; a
/// line that a reader cannot read adds nothing for that reader. What the
/// live reader reads is merged with what the stored reader reads, and the
/// whole into the records kept so far; a measurement already kept is never
/// replaced. The cells and controllers of the live records are noted.
pub fn ingest_in_year(records: &mut SolarRecords, text: &str, current_year: i32)
    requires
        old(records).wf(),
    ensures
        final(records).wf(),
        ingested(*old(records), *final(records), text.spec_bytes(), current_year as int),
{
    let raw = split_on(text, 13);
    proof {
        let lines = lines_of(text.spec_bytes());
        assert forall|i: int| 0 <= i < raw.len() implies #[trigger] lines[i] == entries_spec(
            raw[i].spec_bytes(),
        ) by {
            assert(crate::parse::fields::fields_of(raw@)[i] == raw[i].spec_bytes());
        }
    }
    let (live, stored, cells, controllers) = read_lines(
        &raw,
        current_year,
        Ghost(lines_of(text.spec_bytes())),
    );
    let mut combined = DataStorage::default();
    proof {
        assert(combined@ =~= Map::<int, Map<int, DataValue>>::empty());
        assert(merge_stores(Map::<int, Map<int, DataValue>>::empty(), live@) =~= live@);
    }
    combined.combine_data(&live);
    combined.combine_data(&stored);
    records.data.combine_data(&combined);
    records.cells.combine(&cells);
    records.controllers.combine(&controllers);
}

/// Takes in the text of a file and hands back the name it was given with the
/// ids of all cells and controllers known after it.
///
/// Two-digit years are completed as seen from tomorrow's date in UTC.
pub fn parse_solar_data(records: &mut SolarRecords, name: String, data: &str) -> (payload:
    ParseCompleteReturnValue)
    requires
        old(records).wf(),
    ensures
        final(records).wf(),
        exists|current_year: int|
            -999_999 <= current_year <= 999_999 && #[trigger] ingested(
                *old(records),
                *final(records),
                data.spec_bytes(),
                current_year,
            ),
        payload.name == name,
        payload.cell_ids@ == final(records).cells@,
        payload.controller_ids@ == final(records).controllers@,
{
    let current_year = utc_year_of_tomorrow();
    ingest_in_year(records, data, current_year);
    assert(ingested(*old(records), *records, data.spec_bytes(), current_year as int));
    ParseCompleteReturnValue {
        name,
        cell_ids: records.cells.clone(),
        controller_ids: records.controllers.clone(),
    }
}


/// Taking in a text a second time changes nothing: the records and the ids
/// are after the second time what they were after the first.
pub proof fn law_ingest_twice(
    before: SolarRecords,
    once: SolarRecords,
    twice: SolarRecords,
    text: Seq<u8>,
    current_year: int,
)
    requires
        ingested(before, once, text, current_year),
        ingested(once, twice, text, current_year),
    ensures
        twice.data@ == once.data@,
        twice.cells.ids() == once.cells.ids(),
        twice.controllers.ids() == once.controllers.ids(),
{
    let lines = lines_of(text);
    let read = merge_stores(pushed(lines, current_year, true), pushed(lines, current_year, false));
    crate::solar_data::storage::law_merge_stores_absorbs(before.data@, read);
    assert(twice.cells.ids() =~= once.cells.ids());
    assert(twice.controllers.ids() =~= once.controllers.ids());
}

/// Taking in a text never takes a record away, nor a measurement from a
/// record, nor changes a measurement that was kept before.
pub proof fn law_ingest_keeps(
    before: SolarRecords,
    after: SolarRecords,
    text: Seq<u8>,
    current_year: int,
    t: int,
    key: int,
)
    requires
        ingested(before, after, text, current_year),
        before.data@.contains_key(t),
        before.data@[t].contains_key(key),
    ensures
        after.data@.contains_key(t),
        after.data@[t].contains_key(key),
        after.data@[t][key] == before.data@[t][key],
{
}

} // verus!
