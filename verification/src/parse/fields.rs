//! The entries of a line: dates, times of day and numbers at given places.

use crate::calendar::midnight;
use crate::calendar::moment;
use crate::calendar::CalendarDate;
use crate::calendar::ClockTime;
use crate::fixed_point::digits_only;
use crate::fixed_point::digits_value;
use crate::fixed_point::first_index_of;
use crate::fixed_point::is_digit;
use crate::fixed_point::lemma_first_index_bounds;
use crate::fixed_point::lemma_first_index_of;
use crate::fixed_point::parse_fixed;
use crate::fixed_point::parse_fixed_spec;
use crate::fixed_point::parse_i32;
use crate::fixed_point::parse_i32_spec;
use crate::fixed_point::parse_u16;
use crate::fixed_point::parse_u16_spec;
use crate::fixed_point::read_digits;
use crate::fixed_point::rem_toward_zero;
use crate::parse::parse_error::ParseError;
use vstd::prelude::*;
use vstd::string::StringSliceAdditionalSpecFns;

verus! {

/// The entries of a line as bytes.
pub open spec fn fields_of(line: Seq<&str>) -> Seq<Seq<u8>> {
    Seq::new(line.len(), |i: int| line[i].spec_bytes())
}

/// The month, the day and the two digits of the year that a date entry
/// writes. The entry reads `M/D/YY`: one or two digits for the month, one or
/// two for the day, two for the year.
pub open spec fn date_fields(text: Seq<u8>) -> Option<(u8, u8, u8)> {
    let first = first_index_of(text, 47);
    let rest = text.skip(first + 1);
    let second = first_index_of(rest, 47);
    let month = text.take(first);
    let day = rest.take(second);
    let year = rest.skip(second + 1);
    if first < text.len() && second < rest.len() && 1 <= month.len() <= 2 && 1 <= day.len() <= 2
        && year.len() == 2 && digits_only(month) && digits_only(day) && digits_only(year) {
        Some((digits_value(month) as u8, digits_value(day) as u8, digits_value(year) as u8))
    } else {
        None
    }
}

/// The number that two digits write.
pub open spec fn two_digits(tens: u8, ones: u8) -> u8 {
    ((tens - 48) * 10 + (ones - 48)) as u8
}

/// The hour, minute and second that a time entry writes. The entry reads
/// `HH:MM:SS`, or `HH:MM` where it has no seconds: always two digits each.
pub open spec fn clock_fields(text: Seq<u8>, with_seconds: bool) -> Option<(u8, u8, u8)> {
    if with_seconds {
        if text.len() == 8 && is_digit(text[0]) && is_digit(text[1]) && text[2] == 58 && is_digit(
            text[3],
        ) && is_digit(text[4]) && text[5] == 58 && is_digit(text[6]) && is_digit(text[7]) {
            Some(
                (
                    two_digits(text[0], text[1]),
                    two_digits(text[3], text[4]),
                    two_digits(text[6], text[7]),
                ),
            )
        } else {
            None
        }
    } else {
        if text.len() == 5 && is_digit(text[0]) && is_digit(text[1]) && text[2] == 58 && is_digit(
            text[3],
        ) && is_digit(text[4]) {
            Some((two_digits(text[0], text[1]), two_digits(text[3], text[4]), 0u8))
        } else {
            None
        }
    }
}

/// The full year for the two digits of a year, seen from the year
/// `current_year`: the year of those two digits in the century of
/// `current_year`, or in the century before where that year would lie after
/// `current_year`.
pub open spec fn century_year_spec(current_year: int, last_two: int) -> int {
    let within = rem_toward_zero(current_year, 100);
    if within < last_two {
        current_year - within - 100 + last_two
    } else {
        current_year - within + last_two
    }
}

/// The full year for the two digits of a year, seen from the year `current_year`.
pub fn century_year(current_year: i32, last_two: u8) -> (year: i64)
    ensures
        year == century_year_spec(current_year as int, last_two as int),
{
    let within: i64 = (current_year % 100) as i64;
    let current: i64 = current_year as i64;
    let digits: i64 = last_two as i64;
    if within < digits {
        current - within - 100 + digits
    } else {
        current - within + digits
    }
}

/// Up to two digits write a number below a hundred; two digits write ten
/// times the first and the second.
pub proof fn lemma_two_digit_value(s: Seq<u8>)
    requires
        digits_only(s),
        s.len() <= 2,
    ensures
        digits_value(s) <= 99,
        s.len() == 2 ==> digits_value(s) == two_digits(s[0], s[1]),
{
    if s.len() == 0 {
    } else if s.len() == 1 {
        assert(s.drop_last().len() == 0);
        assert(digits_value(s.drop_last()) == 0);
        assert(is_digit(s[0]));
        assert(s.last() == s[0]);
        assert(digits_value(s) == digits_value(s.drop_last()) * 10 + (s.last() - 48) as nat);
    } else {
        let head = s.drop_last();
        assert(head.len() == 1);
        assert(head.drop_last().len() == 0);
        assert(digits_value(head.drop_last()) == 0);
        assert(head[0] == s[0]);
        assert(head.last() == s[0]);
        assert(s.last() == s[1]);
        assert(is_digit(s[0]));
        assert(is_digit(s[1]));
        assert(digits_value(head) == digits_value(head.drop_last()) * 10 + (head.last() - 48) as nat);
        assert(digits_value(s) == digits_value(head) * 10 + (s.last() - 48) as nat);
    }
}

/// Digits that are followed by neither the separator nor the end leave no
/// run of digits before the first separator.
proof fn lemma_split_blocked(s: Seq<u8>, b: u8, a: int)
    requires
        !is_digit(b),
        0 <= a <= s.len(),
        digits_only(s.subrange(0, a)),
        a < s.len() ==> s[a] != b && !is_digit(s[a]),
    ensures
        first_index_of(s, b) == s.len() || !digits_only(s.take(first_index_of(s, b))),
{
    lemma_first_index_bounds(s, b);
    let first = first_index_of(s, b);
    assert forall|j: int| 0 <= j < a implies s[j] != b by {
        assert(s.subrange(0, a)[j] == s[j]);
        assert(is_digit(s.subrange(0, a)[j]));
    }
    if first < s.len() {
        if first < a {
            assert(s[first] == b);
        }
        assert(first > a);
        assert(s.take(first)[a] == s[a]);
    }
}

/// The first separator after a run of digits that it ends.
proof fn lemma_split_at(s: Seq<u8>, b: u8, a: int)
    requires
        !is_digit(b),
        0 <= a < s.len(),
        digits_only(s.subrange(0, a)),
        s[a] == b,
    ensures
        first_index_of(s, b) == a,
{
    assert forall|j: int| 0 <= j < a implies s[j] != b by {
        assert(s.subrange(0, a)[j] == s[j]);
        assert(is_digit(s.subrange(0, a)[j]));
    }
    lemma_first_index_of(s, b, a);
}

/// Reads a date entry: `M/D/YY`.
pub fn parse_date_text(text: &[u8]) -> (r: Option<(u8, u8, u8)>)
    ensures
        r == date_fields(text@),
{
    let n = text.len();
    let (a, month) = read_digits(text, 0, 99);
    if a >= n || text[a] != 47 {
        proof {
            lemma_split_blocked(text@, 47, a as int);
        }
        return None;
    }
    proof {
        lemma_split_at(text@, 47, a as int);
        assert(text@.take(a as int) =~= text@.subrange(0, a as int));
    }
    if a == 0 || a > 2 {
        return None;
    }
    let ghost rest = text@.skip(a as int + 1);
    let (b, day) = read_digits(text, a + 1, 99);
    proof {
        assert(rest.subrange(0, b - a - 1) =~= text@.subrange(a as int + 1, b as int));
        if b < n {
            assert(rest[b - a - 1] == text[b as int]);
        }
    }
    if b >= n || text[b] != 47 {
        proof {
            lemma_split_blocked(rest, 47, b - a - 1);
        }
        return None;
    }
    proof {
        lemma_split_at(rest, 47, b - a - 1);
        assert(rest.take(b - a - 1) =~= text@.subrange(a as int + 1, b as int));
    }
    if b - a - 1 == 0 || b - a - 1 > 2 {
        return None;
    }
    let (c, year) = read_digits(text, b + 1, 99);
    let ghost year_text = rest.skip(b - a);
    proof {
        assert(year_text =~= text@.skip(b as int + 1));
    }
    if c < n {
        proof {
            assert(year_text[c - b - 1] == text[c as int]);
            if year_text.len() == 2 && digits_only(year_text) {
                assert(is_digit(year_text[c - b - 1]));
            }
        }
        return None;
    }
    if c - b - 1 != 2 {
        return None;
    }
    proof {
        assert(year_text =~= text@.subrange(b as int + 1, c as int));
        lemma_two_digit_value(text@.subrange(0, a as int));
        lemma_two_digit_value(text@.subrange(a as int + 1, b as int));
        lemma_two_digit_value(text@.subrange(b as int + 1, c as int));
    }
    Some((month as u8, day as u8, year as u8))
}

fn digit_at(text: &[u8], i: usize) -> (r: Option<u8>)
    requires
        i < text.len(),
    ensures
        r is Some <==> is_digit(text[i as int]),
        r matches Some(d) ==> d == text[i as int] - 48,
{
    let b = text[i];
    if b >= 48 && b <= 57 {
        Some(b - 48)
    } else {
        None
    }
}

fn two_digits_at(text: &[u8], i: usize) -> (r: Option<u8>)
    requires
        i + 1 < text.len(),
    ensures
        r is Some <==> is_digit(text[i as int]) && is_digit(text[i + 1]),
        r matches Some(v) ==> v == two_digits(text[i as int], text[i + 1]),
{
    match digit_at(text, i) {
        Some(tens) => match digit_at(text, i + 1) {
            Some(ones) => Some(tens * 10 + ones),
            None => None,
        },
        None => None,
    }
}

/// Reads a time entry: `HH:MM:SS`, or `HH:MM` without seconds.
pub fn parse_clock_text(text: &[u8], with_seconds: bool) -> (r: Option<(u8, u8, u8)>)
    ensures
        r == clock_fields(text@, with_seconds),
{
    if with_seconds {
        if text.len() != 8 || text[2] != 58 || text[5] != 58 {
            return None;
        }
    } else {
        if text.len() != 5 || text[2] != 58 {
            return None;
        }
    }
    let hour = match two_digits_at(text, 0) {
        Some(v) => v,
        None => {
            return None;
        },
    };
    let minute = match two_digits_at(text, 3) {
        Some(v) => v,
        None => {
            return None;
        },
    };
    let second = if with_seconds {
        match two_digits_at(text, 6) {
            Some(v) => v,
            None => {
                return None;
            },
        }
    } else {
        0
    };
    Some((hour, minute, second))
}

/// The entry at a place of the line.
pub open spec fn entry_spec(fields: Seq<Seq<u8>>, i: int) -> Result<Seq<u8>, ParseError> {
    if 0 <= i < fields.len() {
        Ok(fields[i])
    } else {
        Err(ParseError::InsufficientData)
    }
}

/// The decimal number at a place of the line, in millionths.
pub open spec fn decimal_entry_spec(fields: Seq<Seq<u8>>, i: int) -> Result<i64, ParseError> {
    match entry_spec(fields, i) {
        Ok(text) => match parse_fixed_spec(text) {
            Some(v) => Ok(v),
            None => Err(ParseError::FloatParseError),
        },
        Err(e) => Err(e),
    }
}

/// The alarm code at a place of the line.
pub open spec fn code_entry_spec(fields: Seq<Seq<u8>>, i: int) -> Result<i32, ParseError> {
    match entry_spec(fields, i) {
        Ok(text) => match parse_i32_spec(text) {
            Some(v) => Ok(v),
            None => Err(ParseError::IntParseError),
        },
        Err(e) => Err(e),
    }
}

/// The controller address at a place of the line.
pub open spec fn address_entry_spec(fields: Seq<Seq<u8>>, i: int) -> Result<u16, ParseError> {
    match entry_spec(fields, i) {
        Ok(text) => match parse_u16_spec(text) {
            Some(v) => Ok(v),
            None => Err(ParseError::IntParseError),
        },
        Err(e) => Err(e),
    }
}

/// The empty entry that must stand at a place of the line.
pub open spec fn empty_entry_spec(fields: Seq<Seq<u8>>, i: int) -> Result<(), ParseError> {
    match entry_spec(fields, i) {
        Ok(text) => if text.len() == 0 {
            Ok(())
        } else {
            Err(ParseError::InvalidDelimeter)
        },
        Err(e) => Err(e),
    }
}

/// The date at a place of the line, its year completed as seen from the year
/// `current_year`. A date that is not written `M/D/YY`, or that the calendar
/// does not have, is a date error.
pub open spec fn date_entry_spec(fields: Seq<Seq<u8>>, i: int, current_year: int) -> Result<
    CalendarDate,
    ParseError,
> {
    match entry_spec(fields, i) {
        Ok(text) => match date_fields(text) {
            Some((month, day, last_two)) => {
                let year = century_year_spec(current_year, last_two as int);
                let date = CalendarDate { year: year as i32, month, day };
                if i32::MIN <= year <= i32::MAX && midnight(date) is Some {
                    Ok(date)
                } else {
                    Err(ParseError::DateTimeParseError)
                }
            },
            None => Err(ParseError::DateTimeParseError),
        },
        Err(e) => Err(e),
    }
}

/// The time of day at a place of the line, on a date. A time that is not
/// written `HH:MM:SS` (or `HH:MM`), or that the day does not have, is a time
/// error.
pub open spec fn clock_entry_spec(
    fields: Seq<Seq<u8>>,
    i: int,
    date: CalendarDate,
    with_seconds: bool,
) -> Result<ClockTime, ParseError> {
    match entry_spec(fields, i) {
        Ok(text) => match clock_fields(text, with_seconds) {
            Some((hour, minute, second)) => {
                let time = ClockTime { hour, minute, second };
                if moment(date, time) is Some {
                    Ok(time)
                } else {
                    Err(ParseError::DateTimeParseError)
                }
            },
            None => Err(ParseError::DateTimeParseError),
        },
        Err(e) => Err(e),
    }
}

/// `at + by`, held at the greatest index where the sum would pass it.
pub fn plus(at: usize, by: usize) -> (i: usize)
    ensures
        at + by <= usize::MAX ==> i == at + by,
        at + by > usize::MAX ==> i == usize::MAX,
{
    if by <= usize::MAX - at {
        at + by
    } else {
        usize::MAX
    }
}

/// The entry at a place of the line, as bytes; `InsufficientData` where the line
/// is too short.
pub fn entry<'a>(line: &'a Vec<&str>, i: usize) -> (r: Result<&'a [u8], ParseError>)
    ensures
        match r {
            Ok(text) => entry_spec(fields_of(line@), i as int) == Ok::<Seq<u8>, ParseError>(text@),
            Err(e) => entry_spec(fields_of(line@), i as int) == Err::<Seq<u8>, ParseError>(e),
        },
{
    if i < line.len() {
        Ok(line[i].as_bytes())
    } else {
        Err(ParseError::InsufficientData)
    }
}

/// Reads the decimal number at a place of the line.
pub fn decimal_entry(line: &Vec<&str>, i: usize) -> (r: Result<i64, ParseError>)
    ensures
        r == decimal_entry_spec(fields_of(line@), i as int),
{
    match entry(line, i) {
        Ok(text) => match parse_fixed(text) {
            Some(v) => Ok(v),
            None => Err(ParseError::FloatParseError),
        },
        Err(e) => Err(e),
    }
}

/// Reads the alarm code at a place of the line.
pub fn code_entry(line: &Vec<&str>, i: usize) -> (r: Result<i32, ParseError>)
    ensures
        r == code_entry_spec(fields_of(line@), i as int),
{
    match entry(line, i) {
        Ok(text) => match parse_i32(text) {
            Some(v) => Ok(v),
            None => Err(ParseError::IntParseError),
        },
        Err(e) => Err(e),
    }
}

/// Reads the controller address at a place of the line.
pub fn address_entry(line: &Vec<&str>, i: usize) -> (r: Result<u16, ParseError>)
    ensures
        r == address_entry_spec(fields_of(line@), i as int),
{
    match entry(line, i) {
        Ok(text) => match parse_u16(text) {
            Some(v) => Ok(v),
            None => Err(ParseError::IntParseError),
        },
        Err(e) => Err(e),
    }
}

/// Sees that the entry at a place of the line is empty.
pub fn empty_entry(line: &Vec<&str>, i: usize) -> (r: Result<(), ParseError>)
    ensures
        r == empty_entry_spec(fields_of(line@), i as int),
{
    match entry(line, i) {
        Ok(text) => if text.len() == 0 {
            Ok(())
        } else {
            Err(ParseError::InvalidDelimeter)
        },
        Err(e) => Err(e),
    }
}

/// Reads the date at a place of the line and completes its year.
pub fn date_entry(line: &Vec<&str>, i: usize, current_year: i32) -> (r: Result<
    CalendarDate,
    ParseError,
>)
    ensures
        r == date_entry_spec(fields_of(line@), i as int, current_year as int),
{
    match entry(line, i) {
        Ok(text) => match parse_date_text(text) {
            Some((month, day, last_two)) => {
                let year = century_year(current_year, last_two);
                if year < -2_147_483_648 || year > 2_147_483_647 {
                    return Err(ParseError::DateTimeParseError);
                }
                let date = CalendarDate { year: year as i32, month, day };
                match date.midnight_timestamp() {
                    Some(_) => Ok(date),
                    None => Err(ParseError::DateTimeParseError),
                }
            },
            None => Err(ParseError::DateTimeParseError),
        },
        Err(e) => Err(e),
    }
}

/// Reads the time of day at a place of the line.
pub fn clock_entry(line: &Vec<&str>, i: usize, date: &CalendarDate, with_seconds: bool) -> (r:
    Result<ClockTime, ParseError>)
    ensures
        r == clock_entry_spec(fields_of(line@), i as int, *date, with_seconds),
{
    match entry(line, i) {
        Ok(text) => match parse_clock_text(text, with_seconds) {
            Some((hour, minute, second)) => {
                let time = ClockTime { hour, minute, second };
                match date.timestamp_at(&time) {
                    Some(_) => Ok(time),
                    None => Err(ParseError::DateTimeParseError),
                }
            },
            None => Err(ParseError::DateTimeParseError),
        },
        Err(e) => Err(e),
    }
}

} // verus!
