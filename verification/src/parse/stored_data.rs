//! The stored dialect: summaries that the controller keeps and hands out later.
//!
//! A line reads: date `M/D/YY`, time `HH:MM`, battery voltage, state of
//! charge, solar amps, load amps. Amps become watts by the battery voltage.
//! Where more entries follow, the seventh is passed over; then come a low and
//! a high voltage for each cell, and four sums: solar watts, load watts, the
//! lowest and the highest state of charge. With `n` entries after the seventh
//! there are `(n - 4) / 2` cells.

use crate::calendar::midnight;
use crate::calendar::at_time_of_day;
use crate::calendar::moment;
use crate::calendar::utc_year_of_tomorrow;
use crate::calendar::CalendarDate;
use crate::calendar::ClockTime;
use crate::fixed_point::mul_fixed;
use crate::fixed_point::parse_fixed_spec;
use crate::fixed_point::product_units;
use crate::parse::fields::clock_entry;
use crate::parse::fields::clock_entry_spec;
use crate::parse::fields::date_entry;
use crate::parse::fields::date_entry_spec;
use crate::parse::fields::decimal_entry;
use crate::parse::fields::decimal_entry_spec;
use crate::parse::fields::fields_of;
use crate::parse::fields::plus;
use crate::parse::live_data::after;
use crate::parse::parse_error::ParseError;
use crate::parse::traits::parsed_as;
use crate::parse::traits::TryParse;
use crate::parse::utils::check_version;
use crate::parse::utils::check_version_spec;
use crate::parse::version::Version;
use crate::solar_data::line::DataLine;
use crate::solar_data::line::DataLineBuilder;
use crate::solar_data::storage::DataStorage;
use crate::solar_data::value::DataValue;
use vstd::prelude::*;

verus! {

/// The reader of the stored dialect, with the version last declared and the
/// records read so far.
#[derive(Debug)]
pub struct StoredData {
    pub version: Version,
    pub data: DataStorage,
}

impl Default for StoredData {
    fn default() -> (r: StoredData)
        ensures
            r.version == (Version { major: 1, minor: 0 }),
            r.data.data@ == Seq::<DataLine>::empty(),
            r.data.wf(),
    {
        StoredData { version: Version::default(), data: DataStorage::default() }
    }
}

/// 2010-01-01T00:00:00Z. A line dated earlier holds no data.
pub const EARLIEST_MIDNIGHT: i64 = 1_262_304_000;

/// The battery voltage, in millionths, that marks a line without data when
/// state of charge, solar amps and load amps are all zero: 5 volts.
pub const NO_DATA_VOLTAGE: i64 = 5_000_000;

/// Whether the four amounts are those of a line without data.
pub open spec fn is_no_data(voltage: i64, state_of_charge: i64, solar_amps: i64, load_amps: i64)
    -> bool {
    voltage == NO_DATA_VOLTAGE && state_of_charge == 0 && solar_amps == 0 && load_amps == 0
}

/// Watts from amps and volts, where they fit.
pub open spec fn watts(amps: i64, volts: i64) -> Option<i64> {
    if i64::MIN <= product_units(amps as int, volts as int) <= i64::MAX {
        Some(product_units(amps as int, volts as int) as i64)
    } else {
        None
    }
}

/// The date, the time of day and the four measurements with which a line of
/// the stored dialect begins. A date before 2010, the amounts of a line
/// without data, and watts that do not fit are invalid data.
pub open spec fn stored_head(fields: Seq<Seq<u8>>, current_year: int) -> Result<
    (CalendarDate, ClockTime, Seq<DataValue>),
    ParseError,
> {
    match date_entry_spec(fields, 0, current_year) {
        Err(e) => Err(e),
        Ok(date) => if midnight(date) is Some && midnight(date)->0 < EARLIEST_MIDNIGHT {
            Err(ParseError::InvalidData)
        } else {
            match clock_entry_spec(fields, 1, date, false) {
                Err(e) => Err(e),
                Ok(time) => match decimal_entry_spec(fields, 2) {
                    Err(e) => Err(e),
                    Ok(voltage) => match decimal_entry_spec(fields, 3) {
                        Err(e) => Err(e),
                        Ok(state_of_charge) => match decimal_entry_spec(fields, 4) {
                            Err(e) => Err(e),
                            Ok(solar_amps) => match decimal_entry_spec(fields, 5) {
                                Err(e) => Err(e),
                                Ok(load_amps) => if is_no_data(
                                    voltage,
                                    state_of_charge,
                                    solar_amps,
                                    load_amps,
                                ) {
                                    Err(ParseError::InvalidData)
                                } else {
                                    match (watts(solar_amps, voltage), watts(load_amps, voltage)) {
                                        (Some(solar), Some(load)) => Ok(
                                            (
                                                date,
                                                time,
                                                seq![
                                                    DataValue::BatteryVoltage(voltage),
                                                    DataValue::StateOfChargePercent(state_of_charge),
                                                    DataValue::SolarWatts(solar),
                                                    DataValue::LoadWatts(load),
                                                ],
                                            ),
                                        ),
                                        _ => Err(ParseError::InvalidData),
                                    }
                                },
                            },
                        },
                    },
                },
            }
        },
    }
}

/// How many cells the statistics of a line speak of.
pub open spec fn statistics_cells(fields: Seq<Seq<u8>>) -> int {
    if fields.len() >= 11 {
        (fields.len() - 11) / 2
    } else {
        0
    }
}

/// The low and high voltages of the cells from `cell` up to `count`, the
/// first pair standing at `at`. A cell is numbered by the last sixteen bits
/// of its place.
pub open spec fn stored_cells(fields: Seq<Seq<u8>>, at: int, cell: int, count: int) -> Result<
    Seq<DataValue>,
    ParseError,
>
    decreases count - cell,
{
    if cell >= count {
        Ok(Seq::<DataValue>::empty())
    } else {
        match decimal_entry_spec(fields, at) {
            Err(e) => Err(e),
            Ok(low) => match decimal_entry_spec(fields, at + 1) {
                Err(e) => Err(e),
                Ok(high) => match stored_cells(fields, at + 2, cell + 1, count) {
                    Err(e) => Err(e),
                    Ok(rest) => Ok(
                        seq![
                            DataValue::StatisticsCellVoltageLow {
                                cell: (cell % 65_536) as u16,
                                voltage: low,
                            },
                            DataValue::StatisticsCellVoltageHigh {
                                cell: (cell % 65_536) as u16,
                                voltage: high,
                            },
                        ] + rest,
                    ),
                },
            },
        }
    }
}

/// The four sums that stand from `at` on.
pub open spec fn stored_sums(fields: Seq<Seq<u8>>, at: int) -> Result<Seq<DataValue>, ParseError> {
    match decimal_entry_spec(fields, at) {
        Err(e) => Err(e),
        Ok(solar) => match decimal_entry_spec(fields, at + 1) {
            Err(e) => Err(e),
            Ok(load) => match decimal_entry_spec(fields, at + 2) {
                Err(e) => Err(e),
                Ok(low) => match decimal_entry_spec(fields, at + 3) {
                    Err(e) => Err(e),
                    Ok(high) => Ok(
                        seq![
                            DataValue::StatisticsSolarWatts(solar),
                            DataValue::StatisticsLoadWatts(load),
                            DataValue::StatisticsStateOfChargePercentLow(low),
                            DataValue::StatisticsStateOfChargePercentHigh(high),
                        ],
                    ),
                },
            },
        },
    }
}

/// The statistics of a line, where it has any: nothing for a line of six
/// entries, else the cells and the sums that follow the seventh entry.
pub open spec fn stored_statistics(fields: Seq<Seq<u8>>) -> Result<Seq<DataValue>, ParseError> {
    if fields.len() <= 6 {
        Ok(Seq::<DataValue>::empty())
    } else {
        let count = statistics_cells(fields);
        match stored_cells(fields, 7, 0, count) {
            Err(e) => Err(e),
            Ok(cells) => match stored_sums(fields, 7 + 2 * count) {
                Err(e) => Err(e),
                Ok(sums) => Ok(cells + sums),
            },
        }
    }
}

/// What a line of the stored dialect says, in a year: its moment and its
/// measurements in the order of the line, or the first error met.
pub open spec fn stored_line(fields: Seq<Seq<u8>>, current_year: int) -> Result<
    (i64, Seq<DataValue>),
    ParseError,
> {
    match stored_head(fields, current_year) {
        Err(e) => Err(e),
        Ok((date, time, head)) => match stored_statistics(fields) {
            Err(e) => Err(e),
            Ok(statistics) => match moment(date, time) {
                Some(unix_time) => Ok((unix_time, head + statistics)),
                None => Err(ParseError::DateTimeParseError),
            },
        },
    }
}

fn read_head(line: &Vec<&str>, current_year: i32, builder: DataLineBuilder) -> (r: Result<
    DataLineBuilder,
    ParseError,
>)
    ensures
        match stored_head(fields_of(line@), current_year as int) {
            Ok((date, time, values)) => r matches Ok(b) && b.date() == Some(date) && b.time()
                == Some(time) && b.values() == builder.values() + values,
            Err(e) => r matches Err(f) && f == e,
        },
{
    let ghost start = builder.values();
    let date = date_entry(line, 0, current_year)?;
    match date.midnight_timestamp() {
        Some(t) => {
            if t < EARLIEST_MIDNIGHT {
                return Err(ParseError::InvalidData);
            }
        },
        None => {},
    }
    let builder = builder.set_date(date);
    let time = clock_entry(line, 1, &date, false)?;
    let mut builder = builder.set_time(time);
    let voltage = decimal_entry(line, 2)?;
    let state_of_charge = decimal_entry(line, 3)?;
    let solar_amps = decimal_entry(line, 4)?;
    let load_amps = decimal_entry(line, 5)?;
    if voltage == NO_DATA_VOLTAGE && state_of_charge == 0 && solar_amps == 0 && load_amps == 0 {
        return Err(ParseError::InvalidData);
    }
    let solar = match mul_fixed(solar_amps, voltage) {
        Some(w) => w,
        None => {
            return Err(ParseError::InvalidData);
        },
    };
    let load = match mul_fixed(load_amps, voltage) {
        Some(w) => w,
        None => {
            return Err(ParseError::InvalidData);
        },
    };
    builder.add_data(DataValue::BatteryVoltage(voltage));
    builder.add_data(DataValue::StateOfChargePercent(state_of_charge));
    builder.add_data(DataValue::SolarWatts(solar));
    builder.add_data(DataValue::LoadWatts(load));
    proof {
        assert(builder.values() =~= start + seq![
            DataValue::BatteryVoltage(voltage),
            DataValue::StateOfChargePercent(state_of_charge),
            DataValue::SolarWatts(solar),
            DataValue::LoadWatts(load),
        ]);
    }
    Ok(builder)
}

fn read_cells(line: &Vec<&str>, count: usize, builder: &mut DataLineBuilder) -> (r: Result<
    (),
    ParseError,
>)
    requires
        7 + 2 * count <= usize::MAX,
    ensures
        final(builder).date() == old(builder).date(),
        final(builder).time() == old(builder).time(),
        match stored_cells(fields_of(line@), 7, 0, count as int) {
            Ok(values) => r is Ok && final(builder).values() == old(builder).values() + values,
            Err(e) => r matches Err(f) && f == e,
        },
{
    let ghost fields = fields_of(line@);
    let ghost start = builder.values();
    let ghost mut done = Seq::<DataValue>::empty();
    let mut cell: usize = 0;
    proof {
        assert(start + done =~= start);
        match stored_cells(fields, 7, 0, count as int) {
            Ok(values) => {
                assert(done + values =~= values);
            },
            Err(_) => {},
        }
    }
    while cell < count
        invariant
            fields == fields_of(line@),
            cell <= count,
            7 + 2 * count <= usize::MAX,
            builder.date() == old(builder).date(),
            builder.time() == old(builder).time(),
            builder.values() == start + done,
            start == old(builder).values(),
            after(done, stored_cells(fields, 7 + 2 * cell, cell as int, count as int))
                == stored_cells(fields, 7, 0, count as int),
        decreases count - cell,
    {
        let at = 7 + 2 * cell;
        let id: u16 = (cell % 65_536) as u16;
        let low = decimal_entry(line, at)?;
        let first = DataValue::StatisticsCellVoltageLow { cell: id, voltage: low };
        builder.add_data(first);
        let high = decimal_entry(line, at + 1)?;
        let second = DataValue::StatisticsCellVoltageHigh { cell: id, voltage: high };
        builder.add_data(second);
        proof {
            match stored_cells(fields, at + 2, cell as int + 1, count as int) {
                Ok(values) => {
                    assert((done + seq![first, second]) + values =~= done + (seq![first, second]
                        + values));
                },
                Err(_) => {},
            }
            done = done + seq![first, second];
            assert(start + done =~= builder.values());
        }
        cell = cell + 1;
    }
    proof {
        assert(done + Seq::<DataValue>::empty() =~= done);
    }
    Ok(())
}

fn read_sums(line: &Vec<&str>, at: usize, builder: &mut DataLineBuilder) -> (r: Result<
    (),
    ParseError,
>)
    ensures
        final(builder).date() == old(builder).date(),
        final(builder).time() == old(builder).time(),
        match stored_sums(fields_of(line@), at as int) {
            Ok(values) => r is Ok && final(builder).values() == old(builder).values() + values,
            Err(e) => r matches Err(f) && f == e,
        },
{
    let ghost start = builder.values();
    let solar = decimal_entry(line, at)?;
    assert(at < line.len());
    builder.add_data(DataValue::StatisticsSolarWatts(solar));
    let load = decimal_entry(line, plus(at, 1))?;
    assert(at + 1 < line.len());
    builder.add_data(DataValue::StatisticsLoadWatts(load));
    let low = decimal_entry(line, plus(at, 2))?;
    assert(at + 2 < line.len());
    builder.add_data(DataValue::StatisticsStateOfChargePercentLow(low));
    let high = decimal_entry(line, plus(at, 3))?;
    assert(at + 3 < line.len());
    builder.add_data(DataValue::StatisticsStateOfChargePercentHigh(high));
    proof {
        assert(builder.values() =~= start + seq![
            DataValue::StatisticsSolarWatts(solar),
            DataValue::StatisticsLoadWatts(load),
            DataValue::StatisticsStateOfChargePercentLow(low),
            DataValue::StatisticsStateOfChargePercentHigh(high),
        ]);
    }
    Ok(())
}

impl StoredData {
    /// Reads one line of the stored dialect as seen from the year
    /// `current_year`, by which the two digits of the line's year are
    /// completed.
    ///
    /// The line is given as its trimmed entries. A version that the last entry
    /// declares is noted, whether or not the line can be read. Of several
    /// measurements of one kind the first is kept.
    pub fn parse_in_year(&mut self, line: &Vec<&str>, current_year: i32) -> (r: Result<
        DataLine,
        ParseError,
    >)
        ensures
            parsed_as(r, stored_line(fields_of(line@), current_year as int)),
            r matches Ok(record) ==> Some(record.unix_time) == at_time_of_day(
                midnight(stored_head(fields_of(line@), current_year as int)->Ok_0.0),
                stored_head(fields_of(line@), current_year as int)->Ok_0.1,
            ),
            final(self).version == (match check_version_spec(fields_of(line@)) {
                Ok(version) => version,
                Err(_) => old(self).version,
            }),
            final(self).data == old(self).data,
    {
        if let Ok(version) = check_version(line) {
            self.version = version;
        }
        let builder = read_head(line, current_year, DataLineBuilder::default())?;
        let mut builder = builder;
        let ghost head = builder.values();
        if line.len() > 6 {
            let count: usize = if line.len() >= 11 {
                (line.len() - 11) / 2
            } else {
                0
            };
            read_cells(line, count, &mut builder)?;
            let ghost cells = stored_cells(fields_of(line@), 7, 0, count as int)->Ok_0;
            read_sums(line, 7 + 2 * count, &mut builder)?;
            proof {
                let sums = stored_sums(fields_of(line@), 7 + 2 * count)->Ok_0;
                assert(builder.values() =~= head + (cells + sums));
            }
        } else {
            proof {
                assert(head + Seq::<DataValue>::empty() =~= head);
            }
        }
        proof {
            let first = stored_head(fields_of(line@), current_year as int)->Ok_0;
            assert(head =~= first.2);
            assert(moment(first.0, first.1) is Some);
        }
        builder.build()
    }
}

impl TryParse for StoredData {
    open spec fn parse_spec(fields: Seq<Seq<u8>>, current_year: int) -> Result<
        (i64, Seq<DataValue>),
        ParseError,
    > {
        stored_line(fields, current_year)
    }

    fn try_parse(&mut self, line: &Vec<&str>) -> (r: Result<DataLine, ParseError>)
        ensures
            final(self).version == (match check_version_spec(fields_of(line@)) {
                Ok(version) => version,
                Err(_) => old(self).version,
            }),
            final(self).data == old(self).data,
    {
        let current_year = utc_year_of_tomorrow();
        let r = self.parse_in_year(line, current_year);
        assert(parsed_as(r, Self::parse_spec(fields_of(line@), current_year as int)));
        r
    }
}

/// Where the statistics of the cells can be read, they stand in pairs of
/// entries: a low and a high voltage for each cell, the cells numbered in the
/// order of the pairs.
pub proof fn law_stored_cells_layout(fields: Seq<Seq<u8>>, at: int, cell: int, count: int)
    requires
        0 <= cell <= count,
        stored_cells(fields, at, cell, count) is Ok,
    ensures
        ({
            let values = stored_cells(fields, at, cell, count)->Ok_0;
            &&& values.len() == 2 * (count - cell)
            &&& forall|k: int|
                #![trigger values[2 * k]]
                0 <= k < count - cell ==> decimal_entry_spec(fields, at + 2 * k) is Ok
                    && decimal_entry_spec(fields, at + 2 * k + 1) is Ok && values[2 * k] == (
                DataValue::StatisticsCellVoltageLow {
                    cell: ((cell + k) % 65_536) as u16,
                    voltage: decimal_entry_spec(fields, at + 2 * k)->Ok_0,
                }) && values[2 * k + 1] == (DataValue::StatisticsCellVoltageHigh {
                    cell: ((cell + k) % 65_536) as u16,
                    voltage: decimal_entry_spec(fields, at + 2 * k + 1)->Ok_0,
                })
        }),
    decreases count - cell,
{
    if cell < count {
        law_stored_cells_layout(fields, at + 2, cell + 1, count);
        let values = stored_cells(fields, at, cell, count)->Ok_0;
        let rest = stored_cells(fields, at + 2, cell + 1, count)->Ok_0;
        let low = DataValue::StatisticsCellVoltageLow {
            cell: (cell % 65_536) as u16,
            voltage: decimal_entry_spec(fields, at)->Ok_0,
        };
        let high = DataValue::StatisticsCellVoltageHigh {
            cell: (cell % 65_536) as u16,
            voltage: decimal_entry_spec(fields, at + 1)->Ok_0,
        };
        assert(values == seq![low, high] + rest);
        assert forall|k: int|
            #![trigger values[2 * k]]
            0 <= k < count - cell implies decimal_entry_spec(fields, at + 2 * k) is Ok
                && decimal_entry_spec(fields, at + 2 * k + 1) is Ok && values[2 * k] == (
            DataValue::StatisticsCellVoltageLow {
                cell: ((cell + k) % 65_536) as u16,
                voltage: decimal_entry_spec(fields, at + 2 * k)->Ok_0,
            }) && values[2 * k + 1] == (DataValue::StatisticsCellVoltageHigh {
                cell: ((cell + k) % 65_536) as u16,
                voltage: decimal_entry_spec(fields, at + 2 * k + 1)->Ok_0,
            }) by {
            if k > 0 {
                assert(values[2 * k] == rest[2 * (k - 1)]);
                assert(values[2 * k + 1] == rest[2 * (k - 1) + 1]);
                assert(at + 2 * k == (at + 2) + 2 * (k - 1));
                assert(cell + k == (cell + 1) + (k - 1));
            } else {
                assert(values[0] == low);
                assert(values[1] == high);
            }
        }
    }
}

/// A line of the stored dialect that can be read has six entries, or eleven
/// and more. Its first four measurements are the battery voltage, the state
/// of charge, and the solar and load watts, which are the amps of the fifth
/// and sixth entry times the battery voltage. With more than six entries,
/// two measurements for each cell and the four sums follow.
pub proof fn law_stored_line_layout(fields: Seq<Seq<u8>>, current_year: int)
    requires
        stored_line(fields, current_year) is Ok,
    ensures
        fields.len() == 6 || fields.len() >= 11,
        ({
            let values = stored_line(fields, current_year)->Ok_0.1;
            let voltage = parse_fixed_spec(fields[2])->0;
            &&& parse_fixed_spec(fields[2]) is Some
            &&& parse_fixed_spec(fields[3]) is Some
            &&& parse_fixed_spec(fields[4]) is Some
            &&& parse_fixed_spec(fields[5]) is Some
            &&& !is_no_data(
                voltage,
                parse_fixed_spec(fields[3])->0,
                parse_fixed_spec(fields[4])->0,
                parse_fixed_spec(fields[5])->0,
            )
            &&& values.len() == (if fields.len() == 6 {
                4
            } else {
                8 + 2 * statistics_cells(fields)
            })
            &&& values[0] == DataValue::BatteryVoltage(voltage)
            &&& values[1] == DataValue::StateOfChargePercent(parse_fixed_spec(fields[3])->0)
            &&& values[2] == DataValue::SolarWatts(
                product_units(parse_fixed_spec(fields[4])->0 as int, voltage as int) as i64,
            )
            &&& values[3] == DataValue::LoadWatts(
                product_units(parse_fixed_spec(fields[5])->0 as int, voltage as int) as i64,
            )
        }),
{
    let head = stored_head(fields, current_year)->Ok_0.2;
    let statistics = stored_statistics(fields)->Ok_0;
    let values = stored_line(fields, current_year)->Ok_0.1;
    assert(values == head + statistics);
    assert(head.len() == 4);
    if fields.len() > 6 {
        let count = statistics_cells(fields);
        law_stored_cells_layout(fields, 7, 0, count);
        let sums = stored_sums(fields, 7 + 2 * count)->Ok_0;
        assert(sums.len() == 4);
        assert(decimal_entry_spec(fields, 7 + 2 * count + 3) is Ok);
    }
}

/// A line of the stored dialect with a battery voltage of 5, a state of
/// charge of 0, solar amps of 0 and load amps of 0 cannot be read, whatever
/// its other entries say.
pub proof fn law_no_data_line_fails(fields: Seq<Seq<u8>>, current_year: int)
    requires
        decimal_entry_spec(fields, 2) == Ok::<i64, ParseError>(NO_DATA_VOLTAGE),
        decimal_entry_spec(fields, 3) == Ok::<i64, ParseError>(0),
        decimal_entry_spec(fields, 4) == Ok::<i64, ParseError>(0),
        decimal_entry_spec(fields, 5) == Ok::<i64, ParseError>(0),
    ensures
        stored_line(fields, current_year) is Err,
        stored_head(fields, current_year) is Err,
{
}

/// A line of the stored dialect whose date lies before 2010-01-01T00:00:00Z
/// cannot be read: it is invalid data.
pub proof fn law_early_line_fails(fields: Seq<Seq<u8>>, current_year: int)
    requires
        date_entry_spec(fields, 0, current_year) is Ok,
        midnight(date_entry_spec(fields, 0, current_year)->Ok_0) is Some,
        midnight(date_entry_spec(fields, 0, current_year)->Ok_0)->0 < EARLIEST_MIDNIGHT,
    ensures
        stored_line(fields, current_year) == Err::<(i64, Seq<DataValue>), ParseError>(
            ParseError::InvalidData,
        ),
{
}

/// A line of the stored dialect that can be read has a date that the
/// calendar knows and that does not lie before 2010-01-01T00:00:00Z.
pub proof fn law_read_line_is_recent(fields: Seq<Seq<u8>>, current_year: int)
    requires
        stored_line(fields, current_year) is Ok,
    ensures
        date_entry_spec(fields, 0, current_year) is Ok,
        midnight(date_entry_spec(fields, 0, current_year)->Ok_0) is Some,
        midnight(date_entry_spec(fields, 0, current_year)->Ok_0)->0 >= EARLIEST_MIDNIGHT,
{
}

} // verus!
