use solar_telemetry::parse::parse_error::ParseError;
use solar_telemetry::parse::utils::check_version;
use solar_telemetry::parse::utils::convert_year;
use solar_telemetry::parse::fields::century_year;
use solar_telemetry::parse::version::Version;
use std::cmp::Ordering;

#[test]
fn version_marker_is_read() {
    assert_eq!(check_version(&vec!["a", "b", "Ver 2.5"]), Ok(Version { major: 2, minor: 5 }));
    assert_eq!(check_version(&vec!["Firmware Ver 10.02"]), Ok(Version { major: 10, minor: 2 }));
    assert_eq!(check_version(&vec!["Ver1.2"]), Err(ParseError::IntParseError));
    assert_eq!(check_version(&vec!["Ver 1.2.3"]), Ok(Version { major: 1, minor: 2 }));
}

#[test]
fn version_marker_is_looked_for_in_the_last_entry_only() {
    assert_eq!(check_version(&vec!["Ver 2.5", "b"]), Err(ParseError::NoVersion));
    assert_eq!(check_version(&vec!["ver 2.5"]), Err(ParseError::NoVersion));
    assert_eq!(check_version(&vec![""]), Err(ParseError::NoVersion));
    assert_eq!(check_version(&vec!["Ve"]), Err(ParseError::NoVersion));
}

#[test]
fn version_of_a_line_without_entries_is_insufficient() {
    assert_eq!(check_version(&vec![]), Err(ParseError::InsufficientData));
}

#[test]
fn version_without_a_point_is_improper() {
    assert_eq!(check_version(&vec!["Ver 2"]), Err(ParseError::ImproperFormat));
}

#[test]
fn version_numbers_must_be_integers() {
    assert_eq!(check_version(&vec!["Ver x.5"]), Err(ParseError::IntParseError));
    assert_eq!(check_version(&vec!["Ver 2.x"]), Err(ParseError::IntParseError));
    assert_eq!(check_version(&vec!["Ver 2."]), Err(ParseError::IntParseError));
    assert_eq!(check_version(&vec!["Ver "]), Err(ParseError::IntParseError));
    assert_eq!(check_version(&vec!["Ver"]), Err(ParseError::IntParseError));
    assert_eq!(check_version(&vec!["Ver 4294967296.0"]), Err(ParseError::IntParseError));
    assert_eq!(check_version(&vec!["Ver -1.0"]), Err(ParseError::IntParseError));
}

#[test]
fn version_is_read_after_the_last_space() {
    assert_eq!(check_version(&vec!["Ver 1.0 build 7.9"]), Ok(Version { major: 7, minor: 9 }));
    assert_eq!(check_version(&vec!["3.4 Ver"]), Err(ParseError::IntParseError));
    assert_eq!(check_version(&vec!["3.4Ver"]), Err(ParseError::IntParseError));
    assert_eq!(check_version(&vec!["Ver 1.0 "]), Err(ParseError::IntParseError));
}

#[test]
fn versions_are_ordered_by_major_then_minor() {
    let a = Version { major: 1, minor: 9 };
    let b = Version { major: 2, minor: 0 };
    let c = Version { major: 2, minor: 1 };
    assert!(a < b);
    assert!(b < c);
    assert!(a < c);
    assert!(c > a);
    assert_eq!(a.partial_cmp(&a), Some(Ordering::Equal));
    assert_eq!(b.cmp(&a), Ordering::Greater);
    assert_eq!(a.cmp(&b), Ordering::Less);
    assert_eq!(Version::default(), Version { major: 1, minor: 0 });
}

#[test]
fn century_is_the_current_one_unless_the_year_would_be_in_the_future() {
    assert_eq!(century_year(2026, 26), 2026);
    assert_eq!(century_year(2026, 27), 1927);
    assert_eq!(century_year(2026, 0), 2000);
    assert_eq!(century_year(2026, 99), 1999);
    assert_eq!(century_year(2000, 0), 2000);
    assert_eq!(century_year(2000, 1), 1901);
    assert_eq!(century_year(2099, 99), 2099);
    assert_eq!(century_year(1999, 99), 1999);
}

#[test]
fn century_before_the_year_zero_follows_the_sign_of_the_remainder() {
    // -5 has the remainder -5 by 100: every two-digit year is later
    assert_eq!(century_year(-5, 0), -100);
    assert_eq!(century_year(-5, 99), -1);
    assert_eq!(century_year(i32::MIN, 99), i32::MIN as i64 + 48 - 100 + 99);
    assert_eq!(century_year(i32::MAX, 0), i32::MAX as i64 - 47);
}

#[test]
fn year_is_completed_as_seen_from_tomorrow() {
    let year = convert_year(0);
    assert_eq!(year % 100, 0);
    assert!(2000 <= year && year <= 9900);
    let year = convert_year(99);
    assert_eq!(year % 100, 99);
    assert!(1999 <= year && year <= 9999);
}

#[test]
fn errors_have_a_text() {
    assert_eq!(ParseError::IntParseError.message(), "Coult not parse int.");
    assert_eq!(ParseError::FloatParseError.message(), "Could not parse float");
    assert_eq!(ParseError::DateTimeParseError.message(), "Could not parse date/time");
    assert_eq!(ParseError::InsufficientData.message(), "Insufficient data, expected more entries");
    assert_eq!(ParseError::InvalidDelimeter.message(), "Invalid delimeter, expected empty entry");
    assert_eq!(ParseError::InvalidData.message(), "Line contained invalid data");
    assert_eq!(
        ParseError::ImproperFormat.message(),
        "Could not parse data out of improperly formatted entry"
    );
    assert_eq!(ParseError::NoVersion.message(), "Version string not found");
}
