//! The colours of a theme, read from hex codes.

use vstd::prelude::*;
use vstd::string::StrSliceExecFns;
use vstd::string::StringExecFns;
use vstd::string::StringSliceAdditionalSpecFns;
use vstd::utf8::is_ascii_chars;
use vstd::utf8::is_ascii_chars_encode_utf8;

verus! {

/// A colour: red, green and blue.
#[derive(Clone, Copy, Debug, PartialEq, Eq, Structural)]
pub struct Color(pub u8, pub u8, pub u8);

/// Why a text is no hex code of a colour.
#[derive(Clone, Copy, Debug, PartialEq, Eq, Structural)]
pub enum HexCodeError {
    /// The text does not begin with `#` but with this character.
    InvalidFirstCharacter(char),
    /// The text is not 4 or 7 bytes long but this long.
    InvalidLength(usize),
    /// This character is no hex digit.
    InvalidCharacter(char),
}

/// The colours of a theme.
#[derive(Clone, Copy, Debug, PartialEq, Eq, Structural)]
pub struct ThemeData {
    pub theme_primary: Color,
    pub theme_secondary: Color,
    pub theme_background_primary: Color,
    pub theme_background_secondary: Color,
    pub theme_background_tertiary: Color,
    pub theme_text: Color,
}

/// The theme in use.
#[derive(Clone, Copy, Debug, PartialEq, Eq, Structural)]
pub enum Theme {
    Dark,
    Light,
}

impl Theme {
    /// The name of the theme.
    pub open spec fn name_spec(&self) -> Seq<char> {
        match self {
            Theme::Dark => "dark"@,
            Theme::Light => "light"@,
        }
    }

    /// The name of the theme.
    pub fn to_string(&self) -> (name: String)
        ensures
            name@ == self.name_spec(),
    {
        match self {
            Theme::Dark => String::from_str("dark"),
            Theme::Light => String::from_str("light"),
        }
    }
}

/// The number that a hex digit writes, in either case.
pub open spec fn hex_value(c: char) -> Option<u8> {
    let u = c as u32;
    if 48 <= u <= 57 {
        Some((u - 48) as u8)
    } else if 65 <= u <= 70 {
        Some((u - 55) as u8)
    } else if 97 <= u <= 102 {
        Some((u - 87) as u8)
    } else {
        None
    }
}

/// The place of the first character at or after `from` that is no hex digit,
/// or the length of the text where there is none.
pub open spec fn first_non_hex(chars: Seq<char>, from: int) -> int
    decreases chars.len() - from,
{
    if from < 0 || from >= chars.len() {
        chars.len() as int
    } else if hex_value(chars[from]) is None {
        from
    } else {
        first_non_hex(chars, from + 1)
    }
}

/// The number of the hex digit at a place.
pub open spec fn digit_at(chars: Seq<char>, i: int) -> int {
    hex_value(chars[i])->0 as int
}

/// The colour that a hex code writes: `#` and three hex digits, each of which
/// stands for itself twice, or `#` and six hex digits, two for each of red,
/// green and blue. `byte_len` is the length of the text in bytes.
pub open spec fn hex_color(chars: Seq<char>, byte_len: int) -> Result<Color, HexCodeError> {
    if chars.len() == 0 {
        Err(HexCodeError::InvalidLength(0))
    } else if chars[0] != '#' {
        Err(HexCodeError::InvalidFirstCharacter(chars[0]))
    } else if byte_len == 4 || byte_len == 7 {
        let bad = first_non_hex(chars, 1);
        if bad < chars.len() {
            Err(HexCodeError::InvalidCharacter(chars[bad]))
        } else if byte_len == 4 {
            Ok(
                Color(
                    (17 * digit_at(chars, 1)) as u8,
                    (17 * digit_at(chars, 2)) as u8,
                    (17 * digit_at(chars, 3)) as u8,
                ),
            )
        } else {
            Ok(
                Color(
                    (16 * digit_at(chars, 1) + digit_at(chars, 2)) as u8,
                    (16 * digit_at(chars, 3) + digit_at(chars, 4)) as u8,
                    (16 * digit_at(chars, 5) + digit_at(chars, 6)) as u8,
                ),
            )
        }
    } else {
        Err(HexCodeError::InvalidLength(byte_len as usize))
    }
}

fn hex_digit(c: char) -> (r: Option<u8>)
    ensures
        r == hex_value(c),
        r matches Some(d) ==> d < 16,
{
    let u = c as u32;
    if 48 <= u && u <= 57 {
        Some((u - 48) as u8)
    } else if 65 <= u && u <= 70 {
        Some((u - 55) as u8)
    } else if 97 <= u && u <= 102 {
        Some((u - 87) as u8)
    } else {
        None
    }
}

/// A hex digit is an ASCII character.
proof fn lemma_hex_is_ascii(c: char)
    requires
        hex_value(c) is Some,
    ensures
        '\0' <= c <= '\u{7f}',
{
    let u = c as u32;
    assert(48 <= u <= 102);
}

/// From a place on which all characters up to another place are hex digits,
/// the first that is none is sought from that other place on.
proof fn lemma_first_non_hex(chars: Seq<char>, from: int, to: int)
    requires
        0 <= from <= to <= chars.len(),
        forall|j: int| from <= j < to ==> hex_value(chars[j]) is Some,
    ensures
        first_non_hex(chars, from) == first_non_hex(chars, to),
    decreases to - from,
{
    if from < to {
        lemma_first_non_hex(chars, from + 1, to);
    }
}

impl Color {
    /// Reads a colour from its hex code: `#rgb` or `#rrggbb`.
    ///
    /// A text that does not begin with `#` gives `InvalidFirstCharacter`, an
    /// empty text `InvalidLength`; then a text that is not 4 or 7 bytes long
    /// gives `InvalidLength`; then the first character that is no hex digit
    /// gives `InvalidCharacter`.
    pub fn from_hex_code(code: &str) -> (r: Result<Color, HexCodeError>)
        ensures
            r == hex_color(code@, code.spec_bytes().len() as int),
    {
        let count = code.unicode_len();
        if count == 0 {
            return Err(HexCodeError::InvalidLength(0));
        }
        let first = code.get_char(0);
        if first != '#' {
            return Err(HexCodeError::InvalidFirstCharacter(first));
        }
        let len = code.as_bytes().len();
        if len != 4 && len != 7 {
            return Err(HexCodeError::InvalidLength(len));
        }
        let mut digits: Vec<u8> = Vec::new();
        let mut i: usize = 1;
        while i < count
            invariant
                1 <= i <= count,
                count == code@.len(),
                len == code.spec_bytes().len(),
                len == 4 || len == 7,
                code@[0] == '#',
                digits.len() == i - 1,
                forall|j: int| 1 <= j < i ==> hex_value(code@[j]) == Some(#[trigger] digits[j - 1]),
                forall|j: int| 0 <= j < digits.len() ==> digits[j] < 16,
            decreases count - i,
        {
            let c = code.get_char(i);
            match hex_digit(c) {
                Some(d) => {
                    digits.push(d);
                },
                None => {
                    proof {
                        assert forall|j: int| 1 <= j < i implies hex_value(code@[j]) is Some by {
                            assert(hex_value(code@[j]) == Some(digits[j - 1]));
                        }
                        lemma_first_non_hex(code@, 1, i as int);
                        assert(first_non_hex(code@, i as int) == i);
                    }
                    return Err(HexCodeError::InvalidCharacter(c));
                },
            }
            i = i + 1;
        }
        proof {
            assert forall|j: int| 1 <= j < count implies hex_value(code@[j]) is Some by {
                assert(hex_value(code@[j]) == Some(digits[j - 1]));
            }
            lemma_first_non_hex(code@, 1, count as int);
            assert forall|j: int| 0 <= j < code@.len() implies '\0' <= #[trigger] code@[j]
                <= '\u{7f}' by {
                if j > 0 {
                    lemma_hex_is_ascii(code@[j]);
                } else {
                    assert(code@[0] == '#');
                }
            }
            assert(is_ascii_chars(code@));
            is_ascii_chars_encode_utf8(code@);
            assert(code.spec_bytes().len() == code@.len());
        }
        if len == 4 {
            Ok(Color(digits[0] * 17, digits[1] * 17, digits[2] * 17))
        } else {
            Ok(
                Color(
                    digits[0] * 16 + digits[1],
                    digits[2] * 16 + digits[3],
                    digits[4] * 16 + digits[5],
                ),
            )
        }
    }
}

} // verus!
