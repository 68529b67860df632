use solar_telemetry::theme::Color;
use solar_telemetry::theme::HexCodeError;
use solar_telemetry::theme::Theme;
use solar_telemetry::theme::ThemeData;

#[test]
fn short_hex_code_doubles_its_digits() {
    assert_eq!(Color::from_hex_code("#fff"), Ok(Color(255, 255, 255)));
    assert_eq!(Color::from_hex_code("#000"), Ok(Color(0, 0, 0)));
    assert_eq!(Color::from_hex_code("#1aF"), Ok(Color(0x11, 0xaa, 0xff)));
    assert_eq!(Color::from_hex_code("#09c"), Ok(Color(0x00, 0x99, 0xcc)));
}

#[test]
fn long_hex_code_has_two_digits_for_each_part() {
    assert_eq!(Color::from_hex_code("#ffffff"), Ok(Color(255, 255, 255)));
    assert_eq!(Color::from_hex_code("#000000"), Ok(Color(0, 0, 0)));
    assert_eq!(Color::from_hex_code("#12aBcD"), Ok(Color(0x12, 0xab, 0xcd)));
    assert_eq!(Color::from_hex_code("#0f10Fe"), Ok(Color(0x0f, 0x10, 0xfe)));
}

#[test]
fn hex_code_must_begin_with_the_number_sign() {
    assert_eq!(Color::from_hex_code("fff"), Err(HexCodeError::InvalidFirstCharacter('f')));
    assert_eq!(Color::from_hex_code("ffff"), Err(HexCodeError::InvalidFirstCharacter('f')));
    assert_eq!(Color::from_hex_code(" #fff"), Err(HexCodeError::InvalidFirstCharacter(' ')));
    assert_eq!(Color::from_hex_code("é"), Err(HexCodeError::InvalidFirstCharacter('é')));
}

#[test]
fn hex_code_must_be_four_or_seven_bytes_long() {
    assert_eq!(Color::from_hex_code(""), Err(HexCodeError::InvalidLength(0)));
    assert_eq!(Color::from_hex_code("#"), Err(HexCodeError::InvalidLength(1)));
    assert_eq!(Color::from_hex_code("#ff"), Err(HexCodeError::InvalidLength(3)));
    assert_eq!(Color::from_hex_code("#ffff"), Err(HexCodeError::InvalidLength(5)));
    assert_eq!(Color::from_hex_code("#fffff"), Err(HexCodeError::InvalidLength(6)));
    assert_eq!(Color::from_hex_code("#fffffff"), Err(HexCodeError::InvalidLength(8)));
    assert_eq!(Color::from_hex_code("#xyz1"), Err(HexCodeError::InvalidLength(5)));
}

#[test]
fn hex_code_must_be_made_of_hex_digits() {
    assert_eq!(Color::from_hex_code("#ffg"), Err(HexCodeError::InvalidCharacter('g')));
    assert_eq!(Color::from_hex_code("#xyz"), Err(HexCodeError::InvalidCharacter('x')));
    assert_eq!(Color::from_hex_code("#12345G"), Err(HexCodeError::InvalidCharacter('G')));
    assert_eq!(Color::from_hex_code("#+12"), Err(HexCodeError::InvalidCharacter('+')));
    assert_eq!(Color::from_hex_code("#é1"), Err(HexCodeError::InvalidCharacter('é')));
    assert_eq!(Color::from_hex_code("#1é"), Err(HexCodeError::InvalidCharacter('é')));
    assert_eq!(Color::from_hex_code("#12€4"), Err(HexCodeError::InvalidCharacter('€')));
    assert_eq!(Color::from_hex_code("#ff "), Err(HexCodeError::InvalidCharacter(' ')));
}

#[test]
fn themes_have_their_names() {
    assert_eq!(Theme::Dark.to_string(), "dark");
    assert_eq!(Theme::Light.to_string(), "light");
    let colour = Color::from_hex_code("#123456").unwrap();
    let data = ThemeData {
        theme_primary: colour,
        theme_secondary: colour,
        theme_background_primary: colour,
        theme_background_secondary: colour,
        theme_background_tertiary: colour,
        theme_text: Color(1, 2, 3),
    };
    assert_eq!(data.theme_primary, Color(0x12, 0x34, 0x56));
    assert_eq!(data.theme_text.2, 3);
}
