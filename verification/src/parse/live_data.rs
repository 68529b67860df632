//! The live dialect: one line for each moment, written as the controller runs.
//!
//! A line reads: alarm code, date `M/D/YY`, time `HH:MM:SS`, battery voltage,
//! battery amps, solar watts, load watts, state of charge, amp hours, an empty
//! entry; then one voltage for each cell, from cell 0 on, and an empty entry;
//! then for each controller its address, panel voltage, battery voltage, amps,
//! temperature and an empty entry. The controllers end with an empty entry or
//! with the line.

use crate::calendar::at_time_of_day;
use crate::calendar::midnight;
use crate::calendar::moment;
use crate::calendar::utc_year_of_tomorrow;
use crate::calendar::CalendarDate;
use crate::calendar::ClockTime;
use crate::fixed_point::parse_fixed_spec;
use crate::fixed_point::parse_i32_spec;
use crate::parse::fields::address_entry;
use crate::parse::fields::address_entry_spec;
use crate::parse::fields::clock_entry;
use crate::parse::fields::clock_entry_spec;
use crate::parse::fields::code_entry;
use crate::parse::fields::code_entry_spec;
use crate::parse::fields::date_entry;
use crate::parse::fields::date_entry_spec;
use crate::parse::fields::decimal_entry;
use crate::parse::fields::decimal_entry_spec;
use crate::parse::fields::empty_entry;
use crate::parse::fields::empty_entry_spec;
use crate::parse::fields::entry;
use crate::parse::fields::fields_of;
use crate::parse::fields::plus;
use crate::parse::parse_error::ParseError;
use crate::parse::traits::parsed_as;
use crate::parse::traits::TryParse;
use crate::parse::utils::check_version;
use crate::parse::utils::check_version_spec;
use crate::parse::version::Version;
use crate::solar_data::line::DataLine;
use crate::solar_data::line::DataLineBuilder;
use crate::solar_data::storage::DataStorage;
use crate::solar_data::value::DataValue;
use vstd::prelude::*;

verus! {

/// The reader of the live dialect, with the version last declared and the
/// records read so far.
#[derive(Debug)]
pub struct LiveData {
    pub version: Version,
    pub data: DataStorage,
}

impl Default for LiveData {
    fn default() -> (r: LiveData)
        ensures
            r.version == (Version { major: 1, minor: 0 }),
            r.data.data@ == Seq::<DataLine>::empty(),
            r.data.wf(),
    {
        LiveData { version: Version::default(), data: DataStorage::default() }
    }
}

/// The cell voltages that stand from `at` on, the first for the cell `cell`,
/// and the place after the empty entry that ends them. More cells than ids
/// can number are invalid data.
pub open spec fn live_cells(fields: Seq<Seq<u8>>, at: int, cell: int) -> Result<
    (Seq<DataValue>, int),
    ParseError,
>
    decreases fields.len() - at,
{
    if at < 0 || at >= fields.len() {
        Err(ParseError::InsufficientData)
    } else if fields[at].len() == 0 {
        Ok((Seq::<DataValue>::empty(), at + 1))
    } else if cell > 65_535 {
        Err(ParseError::InvalidData)
    } else {
        match parse_fixed_spec(fields[at]) {
            None => Err(ParseError::FloatParseError),
            Some(voltage) => match live_cells(fields, at + 1, cell + 1) {
                Ok((rest, next)) => Ok(
                    (seq![DataValue::CellVoltage { cell: cell as u16, voltage }] + rest, next),
                ),
                Err(e) => Err(e),
            },
        }
    }
}

/// The four measurements of the controller whose address stands at `at`.
#[verifier::opaque]
pub open spec fn controller_group(fields: Seq<Seq<u8>>, at: int) -> Result<
    Seq<DataValue>,
    ParseError,
> {
    match address_entry_spec(fields, at) {
        Err(e) => Err(e),
        Ok(controller) => match decimal_entry_spec(fields, at + 1) {
            Err(e) => Err(e),
            Ok(panel) => match decimal_entry_spec(fields, at + 2) {
                Err(e) => Err(e),
                Ok(battery) => match decimal_entry_spec(fields, at + 3) {
                    Err(e) => Err(e),
                    Ok(amps) => match decimal_entry_spec(fields, at + 4) {
                        Err(e) => Err(e),
                        Ok(temperature) => match empty_entry_spec(fields, at + 5) {
                            Err(e) => Err(e),
                            Ok(_) => Ok(
                                seq![
                                    DataValue::ControllerPanelVoltage { controller, voltage: panel },
                                    DataValue::ControllerBatteryVoltage {
                                        controller,
                                        voltage: battery,
                                    },
                                    DataValue::ControllerAmps { controller, amps },
                                    DataValue::ControllerTemperatureF { controller, temperature },
                                ],
                            ),
                        },
                    },
                },
            },
        }
    }
}

/// The measurements of the controllers that stand from `at` on. The run of
/// controllers ends where an address would stand and the entry is empty, or
/// the line is at its end.
pub open spec fn live_controllers(fields: Seq<Seq<u8>>, at: int) -> Result<
    Seq<DataValue>,
    ParseError,
>
    decreases fields.len() - at + 6,
{
    if at < 0 || at >= fields.len() {
        Ok(Seq::<DataValue>::empty())
    } else if fields[at].len() == 0 {
        Ok(Seq::<DataValue>::empty())
    } else {
        match controller_group(fields, at) {
            Err(e) => Err(e),
            Ok(values) => match live_controllers(fields, at + 6) {
                Ok(rest) => Ok(values + rest),
                Err(e) => Err(e),
            },
        }
    }
}

/// The date, the time of day and the seven measurements with which a line
/// of the live dialect begins.
pub open spec fn live_head(fields: Seq<Seq<u8>>, current_year: int) -> Result<
    (CalendarDate, ClockTime, Seq<DataValue>),
    ParseError,
> {
    match code_entry_spec(fields, 0) {
        Err(e) => Err(e),
        Ok(alarm) => match date_entry_spec(fields, 1, current_year) {
            Err(e) => Err(e),
            Ok(date) => match clock_entry_spec(fields, 2, date, true) {
                Err(e) => Err(e),
                Ok(time) => match decimal_entry_spec(fields, 3) {
                    Err(e) => Err(e),
                    Ok(battery_voltage) => match decimal_entry_spec(fields, 4) {
                        Err(e) => Err(e),
                        Ok(battery_amps) => match decimal_entry_spec(fields, 5) {
                            Err(e) => Err(e),
                            Ok(solar_watts) => match decimal_entry_spec(fields, 6) {
                                Err(e) => Err(e),
                                Ok(load_watts) => match decimal_entry_spec(fields, 7) {
                                    Err(e) => Err(e),
                                    Ok(state_of_charge) => match decimal_entry_spec(fields, 8) {
                                        Err(e) => Err(e),
                                        Ok(amp_hours) => match empty_entry_spec(fields, 9) {
                                            Err(e) => Err(e),
                                            Ok(_) => Ok(
                                                (
                                                    date,
                                                    time,
                                                    seq![
                                                        DataValue::AlarmCode(alarm),
                                                        DataValue::BatteryVoltage(battery_voltage),
                                                        DataValue::BatteryAmps(battery_amps),
                                                        DataValue::SolarWatts(solar_watts),
                                                        DataValue::LoadWatts(load_watts),
                                                        DataValue::StateOfChargePercent(
                                                            state_of_charge,
                                                        ),
                                                        DataValue::AmpHoursSinceMidnight(amp_hours),
                                                    ],
                                                ),
                                            ),
                                        },
                                    },
                                },
                            },
                        },
                    },
                },
            },
        },
    }
}

/// What a line of the live dialect says, in a year: its moment and its
/// measurements in the order of the line, or the first error met.
pub open spec fn live_line(fields: Seq<Seq<u8>>, current_year: int) -> Result<
    (i64, Seq<DataValue>),
    ParseError,
> {
    match live_head(fields, current_year) {
        Err(e) => Err(e),
        Ok((date, time, head)) => match live_cells(fields, 10, 0) {
            Err(e) => Err(e),
            Ok((cells, next)) => match live_controllers(fields, next) {
                Err(e) => Err(e),
                Ok(controllers) => match moment(date, time) {
                    Some(unix_time) => Ok((unix_time, head + cells + controllers)),
                    None => Err(ParseError::DateTimeParseError),
                },
            },
        },
    }
}

/// What is read once `done` has been read and `rest` is what the remaining
/// entries say.
pub open spec fn after(done: Seq<DataValue>, rest: Result<Seq<DataValue>, ParseError>) -> Result<
    Seq<DataValue>,
    ParseError,
> {
    match rest {
        Ok(values) => Ok(done + values),
        Err(e) => Err(e),
    }
}

/// What is read once `done` has been read and `rest` is what the remaining
/// entries say, with the place where they end.
pub open spec fn after_cells(
    done: Seq<DataValue>,
    rest: Result<(Seq<DataValue>, int), ParseError>,
) -> Result<(Seq<DataValue>, int), ParseError> {
    match rest {
        Ok((values, next)) => Ok((done + values, next)),
        Err(e) => Err(e),
    }
}

fn read_head(line: &Vec<&str>, current_year: i32, builder: DataLineBuilder) -> (r: Result<
    DataLineBuilder,
    ParseError,
>)
    ensures
        match live_head(fields_of(line@), current_year as int) {
            Ok((date, time, values)) => r matches Ok(b) && b.date() == Some(date) && b.time()
                == Some(time) && b.values() == builder.values() + values,
            Err(e) => r matches Err(f) && f == e,
        },
{
    let mut builder = builder;
    let ghost start = builder.values();
    let alarm = code_entry(line, 0)?;
    builder.add_data(DataValue::AlarmCode(alarm));
    let date = date_entry(line, 1, current_year)?;
    let builder = builder.set_date(date);
    let time = clock_entry(line, 2, &date, true)?;
    let mut builder = builder.set_time(time);
    let battery_voltage = decimal_entry(line, 3)?;
    builder.add_data(DataValue::BatteryVoltage(battery_voltage));
    let battery_amps = decimal_entry(line, 4)?;
    builder.add_data(DataValue::BatteryAmps(battery_amps));
    let solar_watts = decimal_entry(line, 5)?;
    builder.add_data(DataValue::SolarWatts(solar_watts));
    let load_watts = decimal_entry(line, 6)?;
    builder.add_data(DataValue::LoadWatts(load_watts));
    let state_of_charge = decimal_entry(line, 7)?;
    builder.add_data(DataValue::StateOfChargePercent(state_of_charge));
    let amp_hours = decimal_entry(line, 8)?;
    builder.add_data(DataValue::AmpHoursSinceMidnight(amp_hours));
    empty_entry(line, 9)?;
    proof {
        assert(builder.values() =~= start + seq![
            DataValue::AlarmCode(alarm),
            DataValue::BatteryVoltage(battery_voltage),
            DataValue::BatteryAmps(battery_amps),
            DataValue::SolarWatts(solar_watts),
            DataValue::LoadWatts(load_watts),
            DataValue::StateOfChargePercent(state_of_charge),
            DataValue::AmpHoursSinceMidnight(amp_hours),
        ]);
    }
    Ok(builder)
}

fn read_cells(line: &Vec<&str>, from: usize, builder: &mut DataLineBuilder) -> (r: Result<
    usize,
    ParseError,
>)
    ensures
        final(builder).date() == old(builder).date(),
        final(builder).time() == old(builder).time(),
        match live_cells(fields_of(line@), from as int, 0) {
            Ok((values, next)) => r matches Ok(n) && n == next && final(builder).values() == old(
                builder,
            ).values() + values,
            Err(e) => r matches Err(f) && f == e,
        },
{
    let ghost fields = fields_of(line@);
    let ghost start = builder.values();
    let ghost mut done = Seq::<DataValue>::empty();
    let mut at: usize = from;
    let mut cell: u32 = 0;
    proof {
        assert(start + done =~= start);
        assert(after_cells(done, live_cells(fields, at as int, cell as int)) =~= live_cells(
            fields,
            from as int,
            0,
        )) by {
            match live_cells(fields, from as int, 0) {
                Ok((values, next)) => {
                    assert(done + values =~= values);
                },
                Err(_) => {},
            }
        }
    }
    loop
        invariant
            fields == fields_of(line@),
            from <= at,
            cell <= 65_536,
            builder.date() == old(builder).date(),
            builder.time() == old(builder).time(),
            builder.values() == start + done,
            start == old(builder).values(),
            after_cells(done, live_cells(fields, at as int, cell as int)) == live_cells(
                fields,
                from as int,
                0,
            ),
        decreases line.len() - at + 1,
    {
        if at >= line.len() {
            return Err(ParseError::InsufficientData);
        }
        let text = line[at].as_bytes();
        if text.len() == 0 {
            proof {
                assert(done + Seq::<DataValue>::empty() =~= done);
            }
            return Ok(at + 1);
        }
        if cell > 65_535 {
            return Err(ParseError::InvalidData);
        }
        let voltage = match crate::fixed_point::parse_fixed(text) {
            Some(v) => v,
            None => {
                return Err(ParseError::FloatParseError);
            },
        };
        let value = DataValue::CellVoltage { cell: cell as u16, voltage };
        builder.add_data(value);
        proof {
            let rest = live_cells(fields, at as int + 1, cell as int + 1);
            match rest {
                Ok((values, next)) => {
                    assert(done.push(value) + values =~= done + (seq![value] + values));
                },
                Err(_) => {},
            }
            done = done.push(value);
            assert(start + done =~= builder.values());
        }
        at = at + 1;
        cell = cell + 1;
    }
}

fn read_controller(line: &Vec<&str>, at: usize, builder: &mut DataLineBuilder) -> (r: Result<
    (),
    ParseError,
>)
    requires
        at < line.len(),
    ensures
        final(builder).date() == old(builder).date(),
        final(builder).time() == old(builder).time(),
        match controller_group(fields_of(line@), at as int) {
            Ok(values) => r is Ok && final(builder).values() == old(builder).values() + values,
            Err(e) => r matches Err(f) && f == e,
        },
{
    reveal(controller_group);
    let ghost start = builder.values();
    let controller = address_entry(line, at)?;
    let panel = decimal_entry(line, plus(at, 1))?;
    builder.add_data(DataValue::ControllerPanelVoltage { controller, voltage: panel });
    let battery = decimal_entry(line, plus(at, 2))?;
    builder.add_data(DataValue::ControllerBatteryVoltage { controller, voltage: battery });
    let amps = decimal_entry(line, plus(at, 3))?;
    builder.add_data(DataValue::ControllerAmps { controller, amps });
    let temperature = decimal_entry(line, plus(at, 4))?;
    builder.add_data(DataValue::ControllerTemperatureF { controller, temperature });
    empty_entry(line, plus(at, 5))?;
    proof {
        assert(builder.values() =~= start + seq![
            DataValue::ControllerPanelVoltage { controller, voltage: panel },
            DataValue::ControllerBatteryVoltage { controller, voltage: battery },
            DataValue::ControllerAmps { controller, amps },
            DataValue::ControllerTemperatureF { controller, temperature },
        ]);
    }
    Ok(())
}

fn read_controllers(line: &Vec<&str>, from: usize, builder: &mut DataLineBuilder) -> (r: Result<
    (),
    ParseError,
>)
    ensures
        final(builder).date() == old(builder).date(),
        final(builder).time() == old(builder).time(),
        match live_controllers(fields_of(line@), from as int) {
            Ok(values) => r is Ok && final(builder).values() == old(builder).values() + values,
            Err(e) => r matches Err(f) && f == e,
        },
{
    let ghost fields = fields_of(line@);
    let ghost start = builder.values();
    let ghost mut done = Seq::<DataValue>::empty();
    let mut at: usize = from;
    proof {
        assert(start + done =~= start);
        match live_controllers(fields, from as int) {
            Ok(values) => {
                assert(done + values =~= values);
            },
            Err(_) => {},
        }
    }
    loop
        invariant
            fields == fields_of(line@),
            from <= at,
            builder.date() == old(builder).date(),
            builder.time() == old(builder).time(),
            builder.values() == start + done,
            start == old(builder).values(),
            after(done, live_controllers(fields, at as int)) == live_controllers(
                fields,
                from as int,
            ),
        decreases line.len() - at + 6,
    {
        if at >= line.len() || line[at].as_bytes().len() == 0 {
            proof {
                assert(done + Seq::<DataValue>::empty() =~= done);
            }
            return Ok(());
        }
        let ghost before = builder.values();
        read_controller(line, at, builder)?;
        proof {
            let group = controller_group(fields, at as int)->Ok_0;
            assert(at + 5 < line.len()) by {
                reveal(controller_group);
                assert(empty_entry_spec(fields, at + 5) is Ok);
            }
            match live_controllers(fields, at as int + 6) {
                Ok(values) => {
                    assert((done + group) + values =~= done + (group + values));
                },
                Err(_) => {},
            }
            done = done + group;
            assert(start + done =~= builder.values());
        }
        at = at + 6;
    }
}

impl LiveData {
    /// Reads one line of the live dialect as seen from the year
    /// `current_year`, by which the two digits of the line's year are
    /// completed.
    ///
    /// The line is given as its trimmed entries. A version that the last entry
    /// declares is noted, whether or not the line can be read. Of several
    /// measurements of one kind the first is kept.
    pub fn parse_in_year(&mut self, line: &Vec<&str>, current_year: i32) -> (r: Result<
        DataLine,
        ParseError,
    >)
        ensures
            parsed_as(r, live_line(fields_of(line@), current_year as int)),
            r matches Ok(record) ==> Some(record.unix_time) == at_time_of_day(
                midnight(live_head(fields_of(line@), current_year as int)->Ok_0.0),
                live_head(fields_of(line@), current_year as int)->Ok_0.1,
            ),
            final(self).version == (match check_version_spec(fields_of(line@)) {
                Ok(version) => version,
                Err(_) => old(self).version,
            }),
            final(self).data == old(self).data,
    {
        if let Ok(version) = check_version(line) {
            self.version = version;
        }
        let builder = read_head(line, current_year, DataLineBuilder::default())?;
        let mut builder = builder;
        let next = read_cells(line, 10, &mut builder)?;
        read_controllers(line, next, &mut builder)?;
        proof {
            let fields = fields_of(line@);
            let head = live_head(fields, current_year as int)->Ok_0;
            let cells = live_cells(fields, 10, 0)->Ok_0;
            let controllers = live_controllers(fields, next as int)->Ok_0;
            assert(builder.values() =~= head.2 + cells.0 + controllers);
            assert(moment(head.0, head.1) is Some);
        }
        builder.build()
    }
}

impl TryParse for LiveData {
    open spec fn parse_spec(fields: Seq<Seq<u8>>, current_year: int) -> Result<
        (i64, Seq<DataValue>),
        ParseError,
    > {
        live_line(fields, current_year)
    }

    fn try_parse(&mut self, line: &Vec<&str>) -> (r: Result<DataLine, ParseError>)
        ensures
            final(self).version == (match check_version_spec(fields_of(line@)) {
                Ok(version) => version,
                Err(_) => old(self).version,
            }),
            final(self).data == old(self).data,
    {
        let current_year = utc_year_of_tomorrow();
        let r = self.parse_in_year(line, current_year);
        assert(parsed_as(r, Self::parse_spec(fields_of(line@), current_year as int)));
        r
    }
}

/// Where cell voltages can be read, every entry from `at` up to the empty
/// entry that ends them is a voltage, and the cells are numbered in the order
/// of the entries.
pub proof fn law_live_cells_layout(fields: Seq<Seq<u8>>, at: int, cell: int)
    requires
        0 <= at,
        0 <= cell <= 65_536,
        live_cells(fields, at, cell) is Ok,
    ensures
        ({
            let (values, next) = live_cells(fields, at, cell)->Ok_0;
            &&& next == at + values.len() + 1
            &&& next <= fields.len()
            &&& fields[next - 1].len() == 0
            &&& cell + values.len() <= 65_536
            &&& forall|k: int|
                0 <= k < values.len() ==> fields[at + k].len() > 0 && parse_fixed_spec(
                    fields[at + k],
                ) is Some && #[trigger] values[k] == (DataValue::CellVoltage {
                    cell: (cell + k) as u16,
                    voltage: parse_fixed_spec(fields[at + k])->0,
                })
        }),
    decreases fields.len() - at,
{
    if fields[at].len() != 0 {
        law_live_cells_layout(fields, at + 1, cell + 1);
        let (values, next) = live_cells(fields, at, cell)->Ok_0;
        let (rest, _) = live_cells(fields, at + 1, cell + 1)->Ok_0;
        let first = DataValue::CellVoltage {
            cell: cell as u16,
            voltage: parse_fixed_spec(fields[at])->0,
        };
        assert(values == seq![first] + rest);
        assert forall|k: int| 0 <= k < values.len() implies fields[at + k].len() > 0
            && parse_fixed_spec(fields[at + k]) is Some && #[trigger] values[k] == (
        DataValue::CellVoltage {
            cell: (cell + k) as u16,
            voltage: parse_fixed_spec(fields[at + k])->0,
        }) by {
            if k > 0 {
                assert(values[k] == rest[k - 1]);
            }
        }
    }
}

/// How many controllers stand from `at` on.
pub open spec fn controller_count(fields: Seq<Seq<u8>>, at: int) -> int
    decreases fields.len() - at + 6,
{
    if at < 0 || at >= fields.len() || fields[at].len() == 0 {
        0
    } else if controller_group(fields, at) is Ok {
        1 + controller_count(fields, at + 6)
    } else {
        0
    }
}

/// A controller that can be read gives four measurements, from six entries
/// of which the last is empty.
pub proof fn law_controller_group_layout(fields: Seq<Seq<u8>>, at: int)
    requires
        controller_group(fields, at) is Ok,
    ensures
        0 <= at,
        at + 5 < fields.len(),
        fields[at + 5].len() == 0,
        address_entry_spec(fields, at) is Ok,
        decimal_entry_spec(fields, at + 1) is Ok,
        decimal_entry_spec(fields, at + 2) is Ok,
        decimal_entry_spec(fields, at + 3) is Ok,
        decimal_entry_spec(fields, at + 4) is Ok,
        controller_group(fields, at)->Ok_0 == seq![
            DataValue::ControllerPanelVoltage {
                controller: address_entry_spec(fields, at)->Ok_0,
                voltage: decimal_entry_spec(fields, at + 1)->Ok_0,
            },
            DataValue::ControllerBatteryVoltage {
                controller: address_entry_spec(fields, at)->Ok_0,
                voltage: decimal_entry_spec(fields, at + 2)->Ok_0,
            },
            DataValue::ControllerAmps {
                controller: address_entry_spec(fields, at)->Ok_0,
                amps: decimal_entry_spec(fields, at + 3)->Ok_0,
            },
            DataValue::ControllerTemperatureF {
                controller: address_entry_spec(fields, at)->Ok_0,
                temperature: decimal_entry_spec(fields, at + 4)->Ok_0,
            },
        ],
        controller_group(fields, at)->Ok_0.len() == 4,
{
    reveal(controller_group);
}

/// Where controllers can be read, they stand in groups of six entries: four
/// measurements are read from each group, and after the last group the line
/// ends or an empty entry stands.
pub proof fn law_live_controllers_layout(fields: Seq<Seq<u8>>, at: int)
    requires
        0 <= at,
        live_controllers(fields, at) is Ok,
    ensures
        ({
            let values = live_controllers(fields, at)->Ok_0;
            let groups = controller_count(fields, at);
            &&& 0 <= groups
            &&& values.len() == 4 * groups
            &&& at + 6 * groups >= fields.len() || fields[at + 6 * groups].len() == 0
            &&& forall|g: int|
                0 <= g < groups ==> #[trigger] controller_group(fields, at + 6 * g) is Ok
                    && controller_group(fields, at + 6 * g)->Ok_0 == values.subrange(
                    4 * g,
                    4 * g + 4,
                )
        }),
    decreases fields.len() - at + 6,
{
    if at < fields.len() && fields[at].len() != 0 {
        law_live_controllers_layout(fields, at + 6);
        law_controller_group_layout(fields, at);
        let values = live_controllers(fields, at)->Ok_0;
        let group = controller_group(fields, at)->Ok_0;
        let rest = live_controllers(fields, at + 6)->Ok_0;
        let groups = controller_count(fields, at);
        assert(values == group + rest);
        assert(groups == controller_count(fields, at + 6) + 1);
        assert forall|g: int| 0 <= g < groups implies #[trigger] controller_group(
            fields,
            at + 6 * g,
        ) is Ok && controller_group(fields, at + 6 * g)->Ok_0 == values.subrange(
            4 * g,
            4 * g + 4,
        ) by {
            if g == 0 {
                assert(values.subrange(0, 4) =~= group);
            } else {
                assert(at + 6 * g == (at + 6) + 6 * (g - 1));
                assert(controller_group(fields, (at + 6) + 6 * (g - 1)) is Ok);
                assert(values.subrange(4 * g, 4 * g + 4) =~= rest.subrange(
                    4 * (g - 1),
                    4 * (g - 1) + 4,
                ));
            }
        }
    }
}

/// A line of the live dialect that can be read has its first nine entries
/// read in order: the alarm code, the date, the time and six amounts; its
/// tenth entry is empty; and its cells begin at the eleventh.
pub proof fn law_live_line_layout(fields: Seq<Seq<u8>>, current_year: int)
    requires
        live_line(fields, current_year) is Ok,
    ensures
        fields.len() >= 11,
        fields[9].len() == 0,
        live_cells(fields, 10, 0) is Ok,
        live_controllers(fields, live_cells(fields, 10, 0)->Ok_0.1) is Ok,
        ({
            let values = live_line(fields, current_year)->Ok_0.1;
            let cells = live_cells(fields, 10, 0)->Ok_0.0;
            let controllers = live_controllers(fields, live_cells(fields, 10, 0)->Ok_0.1)->Ok_0;
            &&& parse_i32_spec(fields[0]) is Some
            &&& values.len() == 7 + cells.len() + controllers.len()
            &&& values[0] == DataValue::AlarmCode(parse_i32_spec(fields[0])->0)
            &&& values[1] == DataValue::BatteryVoltage(parse_fixed_spec(fields[3])->0)
            &&& values[2] == DataValue::BatteryAmps(parse_fixed_spec(fields[4])->0)
            &&& values[3] == DataValue::SolarWatts(parse_fixed_spec(fields[5])->0)
            &&& values[4] == DataValue::LoadWatts(parse_fixed_spec(fields[6])->0)
            &&& values[5] == DataValue::StateOfChargePercent(parse_fixed_spec(fields[7])->0)
            &&& values[6] == DataValue::AmpHoursSinceMidnight(parse_fixed_spec(fields[8])->0)
            &&& values.subrange(7, 7 + cells.len() as int) == cells
            &&& values.subrange(7 + cells.len() as int, values.len() as int) == controllers
        }),
{
    let head = live_head(fields, current_year)->Ok_0.2;
    let cells = live_cells(fields, 10, 0)->Ok_0.0;
    let controllers = live_controllers(fields, live_cells(fields, 10, 0)->Ok_0.1)->Ok_0;
    let values = live_line(fields, current_year)->Ok_0.1;
    assert(values == head + cells + controllers);
    assert(head.len() == 7);
    law_live_cells_layout(fields, 10, 0);
    assert(values.subrange(7, 7 + cells.len() as int) =~= cells);
    assert(values.subrange(7 + cells.len() as int, values.len() as int) =~= controllers);
}

/// A line of the live dialect that can be read is read at the moment that
/// its date and its time of day mark in UTC, to the second: the date is that
/// of the second entry, its year completed, the time that of the third.
pub proof fn law_live_moment(fields: Seq<Seq<u8>>, current_year: int)
    requires
        live_line(fields, current_year) is Ok,
    ensures
        fields.len() > 2,
        crate::parse::fields::date_fields(fields[1]) is Some,
        crate::parse::fields::clock_fields(fields[2], true) is Some,
        ({
            let (month, day, last_two) = crate::parse::fields::date_fields(fields[1])->0;
            let (hour, minute, second) = crate::parse::fields::clock_fields(fields[2], true)->0;
            let year = crate::parse::fields::century_year_spec(current_year, last_two as int);
            &&& i32::MIN <= year <= i32::MAX
            &&& Some(live_line(fields, current_year)->Ok_0.0) == crate::calendar::utc_unix_timestamp(
                year as i32,
                month,
                day,
                hour,
                minute,
                second,
            )
        }),
{
}

} // verus!
