//! What both readers of lines have in common.

use crate::parse::fields::fields_of;
use crate::parse::parse_error::ParseError;
use crate::solar_data::line::with_values;
use crate::solar_data::line::DataLine;
use crate::solar_data::value::DataValue;
use vstd::prelude::*;

verus! {

/// Whether a reader's answer is the record, or the error, that was to be
/// expected: a record at the expected moment with the expected measurements,
/// the first of each kind kept.
pub open spec fn parsed_as(
    r: Result<DataLine, ParseError>,
    expected: Result<(i64, Seq<DataValue>), ParseError>,
) -> bool {
    match expected {
        Ok((unix_time, values)) => r matches Ok(line) && line.unix_time == unix_time && line.wf()
            && line@ == with_values(Map::<int, DataValue>::empty(), values),
        Err(e) => r matches Err(f) && f == e,
    }
}

/// A reader of one dialect.
pub trait TryParse {
    /// What the reader makes of a line in a year: the moment and the
    /// measurements in the order of the line, or the first error met.
    /// `current_year` is the year of tomorrow's date, by which two-digit years
    /// are completed.
    spec fn parse_spec(fields: Seq<Seq<u8>>, current_year: int) -> Result<
        (i64, Seq<DataValue>),
        ParseError,
    >;

    /// Reads one line, given as its trimmed entries. Two-digit years are
    /// completed as seen from tomorrow's date in UTC.
    fn try_parse(&mut self, line: &Vec<&str>) -> (r: Result<DataLine, ParseError>)
        ensures
            exists|current_year: int|
                -999_999 <= current_year <= 999_999 && parsed_as(
                    r,
                    #[trigger] Self::parse_spec(fields_of(line@), current_year),
                ),
    ;
}

} // verus!
