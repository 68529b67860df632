//! The version marker of a line, and the century of a two-digit year.

use crate::calendar::utc_year_of_tomorrow;
use crate::fixed_point::first_index_of;
use crate::fixed_point::lemma_first_index_of;
use crate::fixed_point::parse_u32;
use crate::fixed_point::parse_u32_spec;
use crate::parse::fields::century_year;
use crate::parse::fields::century_year_spec;
use crate::parse::fields::fields_of;
use crate::parse::parse_error::ParseError;
use crate::parse::version::Version;
use crate::solar_data::cell::AvailableCells;
use crate::solar_data::controllers::AvailableControllers;
use vstd::prelude::*;
use vstd::slice::slice_subrange;

verus! {

/// Whether the text holds the marker `Ver`.
pub open spec fn has_marker(text: Seq<u8>) -> bool {
    exists|i: int|
        0 <= i && i + 3 <= text.len() && #[trigger] text[i] == 86 && text[i + 1] == 101 && text[i
            + 2] == 114
}

/// Index of the last occurrence of `b` in `s`, or -1 where there is none.
pub open spec fn last_index_of(s: Seq<u8>, b: u8) -> int
    decreases s.len(),
{
    if s.len() == 0 {
        -1
    } else if s.last() == b {
        s.len() - 1
    } else {
        last_index_of(s.drop_last(), b)
    }
}

/// The version that a marked entry declares: after the last space of the
/// entry stand the major number, a point and the minor number; what follows
/// a second point is not read.
pub open spec fn version_of(text: Seq<u8>) -> Result<Version, ParseError> {
    let tail = text.skip(last_index_of(text, 32) + 1);
    let dot = first_index_of(tail, 46);
    match parse_u32_spec(tail.take(dot)) {
        None => Err(ParseError::IntParseError),
        Some(major) => if dot >= tail.len() {
            Err(ParseError::ImproperFormat)
        } else {
            let rest = tail.skip(dot + 1);
            match parse_u32_spec(rest.take(first_index_of(rest, 46))) {
                None => Err(ParseError::IntParseError),
                Some(minor) => Ok(Version { major, minor }),
            }
        },
    }
}

/// The version that a line declares in its last entry.
pub open spec fn check_version_spec(fields: Seq<Seq<u8>>) -> Result<Version, ParseError> {
    if fields.len() == 0 {
        Err(ParseError::InsufficientData)
    } else if has_marker(fields.last()) {
        version_of(fields.last())
    } else {
        Err(ParseError::NoVersion)
    }
}

fn contains_marker(text: &[u8]) -> (found: bool)
    ensures
        found == has_marker(text@),
{
    if text.len() < 3 {
        return false;
    }
    let mut i: usize = 0;
    while i <= text.len() - 3
        invariant
            text.len() >= 3,
            forall|j: int|
                0 <= j < i && j + 3 <= text.len() ==> !(#[trigger] text[j] == 86 && text[j + 1]
                    == 101 && text[j + 2] == 114),
        decreases text.len() - i,
    {
        if text[i] == 86 && text[i + 1] == 101 && text[i + 2] == 114 {
            return true;
        }
        i = i + 1;
    }
    false
}

/// Where the part after the last occurrence of `b` begins.
fn after_last(text: &[u8], b: u8) -> (start: usize)
    ensures
        start == last_index_of(text@, b) + 1,
        start <= text.len(),
{
    let mut i: usize = text.len();
    proof {
        assert(text@.take(i as int) =~= text@);
    }
    while i > 0
        invariant
            i <= text.len(),
            last_index_of(text@, b) == last_index_of(text@.take(i as int), b),
        decreases i,
    {
        if text[i - 1] == b {
            return i;
        }
        proof {
            assert(text@.take(i as int).drop_last() =~= text@.take(i as int - 1));
        }
        i = i - 1;
    }
    0
}

/// Where the first occurrence of `b` at or after `from` stands; the length
/// of the text where there is none.
fn find_from(text: &[u8], from: usize, b: u8) -> (at: usize)
    requires
        from <= text.len(),
    ensures
        from <= at <= text.len(),
        at - from == first_index_of(text@.skip(from as int), b),
{
    let mut i: usize = from;
    while i < text.len() && text[i] != b
        invariant
            from <= i <= text.len(),
            forall|j: int| from <= j < i ==> text[j] != b,
        decreases text.len() - i,
    {
        i = i + 1;
    }
    proof {
        let rest = text@.skip(from as int);
        assert forall|j: int| 0 <= j < i - from implies rest[j] != b by {
            assert(rest[j] == text[j + from]);
        }
        if i < text.len() {
            assert(rest[i - from] == text[i as int]);
        }
        lemma_first_index_of(rest, b, i - from);
    }
    i
}

fn read_version(text: &[u8]) -> (r: Result<Version, ParseError>)
    ensures
        r == version_of(text@),
{
    let start = after_last(text, 32);
    let dot = find_from(text, start, 46);
    let ghost tail = text@.skip(start as int);
    proof {
        assert(tail.take(dot - start) =~= text@.subrange(start as int, dot as int));
    }
    let major = match parse_u32(slice_subrange(text, start, dot)) {
        Some(v) => v,
        None => {
            return Err(ParseError::IntParseError);
        },
    };
    if dot >= text.len() {
        return Err(ParseError::ImproperFormat);
    }
    let end = find_from(text, dot + 1, 46);
    proof {
        let rest = tail.skip(dot - start + 1);
        assert(rest =~= text@.skip(dot as int + 1));
        assert(rest.take(end - dot - 1) =~= text@.subrange(dot as int + 1, end as int));
    }
    match parse_u32(slice_subrange(text, dot + 1, end)) {
        Some(minor) => Ok(Version { major, minor }),
        None => Err(ParseError::IntParseError),
    }
}

/// Looks for a version marker in the last entry of a line.
///
/// A line with no entry gives `InsufficientData`; a last entry without the
/// marker `Ver` gives `NoVersion`. With the marker, the numbers after the last
/// space of the entry are read as `major.minor`: a number that cannot be
/// read gives `IntParseError`, a missing point `ImproperFormat`.
pub fn check_version(line: &Vec<&str>) -> (r: Result<Version, ParseError>)
    ensures
        r == check_version_spec(fields_of(line@)),
{
    if line.len() == 0 {
        return Err(ParseError::InsufficientData);
    }
    let last = line[line.len() - 1].as_bytes();
    if contains_marker(last) {
        read_version(last)
    } else {
        Err(ParseError::NoVersion)
    }
}

/// Completes the two digits of a year, as seen from tomorrow's year in UTC:
/// the year lies in tomorrow's century, or in the century before where it
/// would otherwise lie in the future.
pub fn convert_year(last_two_year: u8) -> (year: i32)
    ensures
        exists|current: int|
            -999_999 <= current <= 999_999 && year == #[trigger] century_year_spec(
                current,
                last_two_year as int,
            ),
{
    let current = utc_year_of_tomorrow();
    let year = century_year(current, last_two_year);
    assert(year == century_year_spec(current as int, last_two_year as int));
    year as i32
}

/// What an ingest hands back: the name it was given and the ids known so far.
pub struct ParseCompleteReturnValue {
    pub name: String,
    pub cell_ids: AvailableCells,
    pub controller_ids: AvailableControllers,
}

} // verus!
