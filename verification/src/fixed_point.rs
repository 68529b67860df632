//! Decimal text and fixed-point arithmetic.
//!
//! A measurement is an `i64` count of millionths. This module reads decimal
//! and integer text into such counts and multiplies them.

use vstd::prelude::*;

verus! {

/// How many stored units make one whole.
pub const UNITS_PER_ONE: i64 = 1_000_000;

/// The largest whole part whose millionths can still fit in an `i64`.
pub const WHOLE_LIMIT: u64 = 9_223_372_036_854;

/// Whether the byte is one of the digits `0` to `9`.
pub open spec fn is_digit(b: u8) -> bool {
    48 <= b <= 57
}

/// Whether every byte is a digit.
pub open spec fn digits_only(s: Seq<u8>) -> bool {
    forall|i: int| 0 <= i < s.len() ==> is_digit(#[trigger] s[i])
}

/// The number that a run of decimal digits writes.
pub open spec fn digits_value(s: Seq<u8>) -> nat
    decreases s.len(),
{
    if s.len() == 0 {
        0
    } else {
        digits_value(s.drop_last()) * 10 + (s.last() - 48) as nat
    }
}

/// Ten to the power `n`.
pub open spec fn pow10(n: nat) -> nat
    decreases n,
{
    if n == 0 {
        1
    } else {
        10 * pow10((n - 1) as nat)
    }
}

/// Index of the first occurrence of `b` in `s`, or `s.len()` where there is none.
pub open spec fn first_index_of(s: Seq<u8>, b: u8) -> int
    decreases s.len(),
{
    if s.len() == 0 {
        0
    } else if s[0] == b {
        0
    } else {
        1 + first_index_of(s.skip(1), b)
    }
}

/// Length of a leading `+` or `-`.
pub open spec fn sign_len(text: Seq<u8>) -> int {
    if text.len() > 0 && (text[0] == 43 || text[0] == 45) {
        1
    } else {
        0
    }
}

/// Length of a leading `+`.
pub open spec fn plus_len(text: Seq<u8>) -> int {
    if text.len() > 0 && text[0] == 43 {
        1
    } else {
        0
    }
}

/// Whether the text begins with `-`.
pub open spec fn is_negative(text: Seq<u8>) -> bool {
    text.len() > 0 && text[0] == 45
}

/// Millionths written by the digits after the decimal point. Digits past the
/// sixth are dropped.
pub open spec fn fraction_units(frac: Seq<u8>) -> nat {
    if frac.len() >= 6 {
        digits_value(frac.take(6))
    } else {
        digits_value(frac) * pow10((6 - frac.len()) as nat)
    }
}

/// The count of millionths that a decimal text writes: an optional sign, then
/// digits, optionally a point and more digits, with at least one digit in all.
/// `None` where the text has another shape.
pub open spec fn decimal_units(text: Seq<u8>) -> Option<int> {
    let body = text.skip(sign_len(text));
    let dot = first_index_of(body, 46);
    let whole = body.take(dot);
    let frac = if dot < body.len() {
        body.skip(dot + 1)
    } else {
        Seq::<u8>::empty()
    };
    if digits_only(whole) && digits_only(frac) && whole.len() + frac.len() > 0 {
        let magnitude = digits_value(whole) * 1_000_000 + fraction_units(frac);
        Some(
            if is_negative(text) {
                -magnitude
            } else {
                magnitude as int
            },
        )
    } else {
        None
    }
}

/// What `parse_fixed` returns: the millionths of a decimal text whose
/// magnitude fits in an `i64`.
pub open spec fn parse_fixed_spec(text: Seq<u8>) -> Option<i64> {
    match decimal_units(text) {
        Some(v) => if -i64::MAX <= v <= i64::MAX {
            Some(v as i64)
        } else {
            None
        },
        None => None,
    }
}

/// The integer that a text writes: an optional `+` (or `-`, where `signed`),
/// then one or more digits.
pub open spec fn integer_value(text: Seq<u8>, signed: bool) -> Option<int> {
    let skip = if signed {
        sign_len(text)
    } else {
        plus_len(text)
    };
    let digits = text.skip(skip);
    if digits.len() > 0 && digits_only(digits) {
        Some(
            if signed && is_negative(text) {
                -digits_value(digits)
            } else {
                digits_value(digits) as int
            },
        )
    } else {
        None
    }
}

/// What `parse_i32` returns: the signed integer that a text writes, where it fits.
pub open spec fn parse_i32_spec(text: Seq<u8>) -> Option<i32> {
    match integer_value(text, true) {
        Some(v) => if i32::MIN <= v <= i32::MAX {
            Some(v as i32)
        } else {
            None
        },
        None => None,
    }
}

/// What `parse_u32` returns: the unsigned integer that a text writes, where it fits.
pub open spec fn parse_u32_spec(text: Seq<u8>) -> Option<u32> {
    match integer_value(text, false) {
        Some(v) => if v <= u32::MAX {
            Some(v as u32)
        } else {
            None
        },
        None => None,
    }
}

/// What `parse_u16` returns: the unsigned integer that a text writes, where it fits.
pub open spec fn parse_u16_spec(text: Seq<u8>) -> Option<u16> {
    match integer_value(text, false) {
        Some(v) => if v <= u16::MAX {
            Some(v as u16)
        } else {
            None
        },
        None => None,
    }
}

/// The value of a digit run, held at `cap + 1` once it exceeds `cap`.
pub open spec fn capped(value: nat, cap: nat) -> nat {
    if value > cap {
        cap + 1
    } else {
        value
    }
}

/// A place before which `b` does not occur, and at which it does or the text ends, is
/// the first index of `b`.
pub proof fn lemma_first_index_of(s: Seq<u8>, b: u8, i: int)
    requires
        0 <= i <= s.len(),
        forall|j: int| 0 <= j < i ==> s[j] != b,
        i < s.len() ==> s[i] == b,
    ensures
        first_index_of(s, b) == i,
    decreases i,
{
    if i > 0 {
        let rest = s.skip(1);
        assert forall|j: int| 0 <= j < i - 1 implies rest[j] != b by {
            assert(rest[j] == s[j + 1]);
        }
        lemma_first_index_of(rest, b, i - 1);
    }
}

/// The first index of `b` lies within the text or at its end; `b` stands there and
/// nowhere before.
pub proof fn lemma_first_index_bounds(s: Seq<u8>, b: u8)
    ensures
        0 <= first_index_of(s, b) <= s.len(),
        first_index_of(s, b) < s.len() ==> s[first_index_of(s, b)] == b,
        forall|j: int| 0 <= j < first_index_of(s, b) ==> s[j] != b,
    decreases s.len(),
{
    if s.len() > 0 && s[0] != b {
        let rest = s.skip(1);
        lemma_first_index_bounds(rest, b);
        assert forall|j: int| 0 <= j < first_index_of(s, b) implies s[j] != b by {
            if j > 0 {
                assert(rest[j - 1] == s[j]);
            }
        }
    }
}

/// Reads the digits of `text` from `from` on, up to the first byte that is no
/// digit. Returns where it stopped and the value read, held at `cap + 1` once
/// it exceeds `cap`.
pub fn read_digits(text: &[u8], from: usize, cap: u64) -> (r: (usize, u64))
    requires
        from <= text.len(),
        cap <= 1_000_000_000_000_000_000,
    ensures
        from <= r.0 <= text.len(),
        digits_only(text@.subrange(from as int, r.0 as int)),
        r.0 < text.len() ==> !is_digit(text[r.0 as int]),
        r.1 == capped(digits_value(text@.subrange(from as int, r.0 as int)), cap as nat),
{
    let mut i: usize = from;
    let mut value: u64 = 0;
    while i < text.len() && text[i] >= 48 && text[i] <= 57
        invariant
            from <= i <= text.len(),
            cap <= 1_000_000_000_000_000_000,
            digits_only(text@.subrange(from as int, i as int)),
            value == capped(digits_value(text@.subrange(from as int, i as int)), cap as nat),
        decreases text.len() - i,
    {
        let digit: u64 = (text[i] - 48) as u64;
        proof {
            let run = text@.subrange(from as int, i as int + 1);
            assert(run.drop_last() =~= text@.subrange(from as int, i as int));
            assert(run.last() == text[i as int]);
            assert forall|j: int| 0 <= j < run.len() implies is_digit(#[trigger] run[j]) by {
                if j < run.len() - 1 {
                    assert(run[j] == text@.subrange(from as int, i as int)[j]);
                }
            }
        }
        if value <= cap {
            value = value * 10 + digit;
            if value > cap {
                value = cap + 1;
            }
        }
        i = i + 1;
    }
    proof {
        assert(text@.subrange(from as int, from as int) =~= Seq::<u8>::empty()) ;
    }
    (i, value)
}


/// The powers of ten up to a million.
pub proof fn lemma_pow10_small()
    ensures
        pow10(0) == 1,
        pow10(1) == 10,
        pow10(2) == 100,
        pow10(3) == 1_000,
        pow10(4) == 10_000,
        pow10(5) == 100_000,
        pow10(6) == 1_000_000,
{
    reveal_with_fuel(pow10, 8);
}

/// Reads the digits after a decimal point, from `from` on, up to the first
/// byte that is no digit. Returns where it stopped and the millionths that the
/// digits write.
fn read_fraction(text: &[u8], from: usize) -> (r: (usize, u64))
    requires
        from <= text.len(),
    ensures
        from <= r.0 <= text.len(),
        digits_only(text@.subrange(from as int, r.0 as int)),
        r.0 < text.len() ==> !is_digit(text[r.0 as int]),
        r.1 == fraction_units(text@.subrange(from as int, r.0 as int)),
        r.1 < 1_000_000,
{
    let mut j: usize = from;
    let mut count: usize = 0;
    let mut frac: u64 = 0;
    proof {
        lemma_pow10_small();
        assert(text@.subrange(from as int, from as int) =~= Seq::<u8>::empty());
    }
    while j < text.len() && text[j] >= 48 && text[j] <= 57
        invariant
            from <= j <= text.len(),
            count <= 6,
            count <= j - from,
            count < 6 ==> count == j - from,
            digits_only(text@.subrange(from as int, j as int)),
            frac == digits_value(text@.subrange(from as int, from + count)),
            frac < pow10(count as nat),
        decreases text.len() - j,
    {
        proof {
            lemma_pow10_small();
            let run = text@.subrange(from as int, j as int + 1);
            assert forall|k: int| 0 <= k < run.len() implies is_digit(#[trigger] run[k]) by {
                if k < run.len() - 1 {
                    assert(run[k] == text@.subrange(from as int, j as int)[k]);
                }
            }
        }
        if count < 6 {
            proof {
                let run = text@.subrange(from as int, j as int + 1);
                assert(run.drop_last() =~= text@.subrange(from as int, j as int));
            }
            frac = frac * 10 + (text[j] - 48) as u64;
            count = count + 1;
        }
        j = j + 1;
    }
    let ghost digits = text@.subrange(from as int, j as int);
    let ghost read = count;
    proof {
        lemma_pow10_small();
        if count == 6 {
            assert(digits.take(6) =~= text@.subrange(from as int, from + 6));
        } else {
            assert(digits =~= text@.subrange(from as int, from + count));
            assert(digits_value(digits) * pow10(0) == digits_value(digits));
        }
    }
    while count < 6
        invariant
            read <= count <= 6,
            read < 6 ==> frac == digits_value(digits) * pow10((count - read) as nat) && read
                == digits.len(),
            read == 6 ==> frac == digits_value(digits.take(6)) && digits.len() >= 6,
            frac < pow10(count as nat),
        decreases 6 - count,
    {
        proof {
            lemma_pow10_small();
            assert(pow10((count + 1 - read) as nat) == 10 * pow10((count - read) as nat));
            assert(digits_value(digits) * pow10((count + 1 - read) as nat) == 10 * (digits_value(
                digits,
            ) * pow10((count - read) as nat))) by (nonlinear_arith)
                requires
                    pow10((count + 1 - read) as nat) == 10 * pow10((count - read) as nat),
            ;
        }
        frac = frac * 10;
        count = count + 1;
    }
    proof {
        lemma_pow10_small();
    }
    (j, frac)
}

/// The value of a decimal text with digits only: no point.
proof fn lemma_decimal_without_point(text: Seq<u8>, start: int)
    requires
        start == sign_len(text),
        digits_only(text.skip(start)),
    ensures
        decimal_units(text) == (if text.len() > start {
            Some(
                if is_negative(text) {
                    -(digits_value(text.skip(start)) * 1_000_000)
                } else {
                    (digits_value(text.skip(start)) * 1_000_000) as int
                },
            )
        } else {
            None
        }),
{
    let body = text.skip(start);
    assert forall|j: int| 0 <= j < body.len() implies body[j] != 46 by {
        assert(is_digit(body[j]));
    }
    lemma_first_index_of(body, 46, body.len() as int);
    assert(body.take(body.len() as int) =~= body);
    lemma_pow10_small();
    assert(digits_value(Seq::<u8>::empty()) == 0);
    assert(fraction_units(Seq::<u8>::empty()) == 0);
}

/// A decimal text whose digits are followed by a byte that is no point has no value.
proof fn lemma_decimal_stray_byte(text: Seq<u8>, start: int, stop: int)
    requires
        start == sign_len(text),
        start <= stop < text.len(),
        digits_only(text.subrange(start, stop)),
        !is_digit(text[stop]),
        text[stop] != 46,
    ensures
        decimal_units(text) is None,
{
    let body = text.skip(start);
    lemma_first_index_bounds(body, 46);
    let dot = first_index_of(body, 46);
    assert(body[stop - start] == text[stop]);
    assert forall|j: int| 0 <= j < stop - start implies body[j] != 46 by {
        assert(body[j] == text.subrange(start, stop)[j]);
        assert(is_digit(text.subrange(start, stop)[j]));
    }
    if dot <= stop - start {
        if dot < stop - start {
            assert(body[dot] == 46);
        }
    }
    assert(dot > stop - start);
    assert(body.take(dot)[stop - start] == text[stop]);
}

/// The value of a decimal text with a point at `stop` and digits up to `end`.
proof fn lemma_decimal_with_point(text: Seq<u8>, start: int, stop: int, end: int)
    requires
        start == sign_len(text),
        start <= stop < end <= text.len(),
        digits_only(text.subrange(start, stop)),
        text[stop] == 46,
        digits_only(text.subrange(stop + 1, end)),
        end < text.len() ==> !is_digit(text[end]),
    ensures
        decimal_units(text) == (if end == text.len() && (stop - start) + (end - stop - 1) > 0 {
            let magnitude = digits_value(text.subrange(start, stop)) * 1_000_000 + fraction_units(
                text.subrange(stop + 1, end),
            );
            Some(
                if is_negative(text) {
                    -magnitude
                } else {
                    magnitude as int
                },
            )
        } else {
            None
        }),
{
    let body = text.skip(start);
    assert forall|j: int| 0 <= j < stop - start implies body[j] != 46 by {
        assert(body[j] == text.subrange(start, stop)[j]);
        assert(is_digit(text.subrange(start, stop)[j]));
    }
    assert(body[stop - start] == text[stop]);
    lemma_first_index_of(body, 46, stop - start);
    assert(body.take(stop - start) =~= text.subrange(start, stop));
    let tail = body.skip(stop - start + 1);
    if end < text.len() {
        assert(tail[end - stop - 1] == text[end]);
    } else {
        assert(tail =~= text.subrange(stop + 1, end));
    }
}

/// Reads a decimal text into millionths.
///
/// The text is an optional sign, digits, and optionally a point with more
/// digits; at least one digit must be present. Digits past the sixth after the
/// point are dropped. A text of another shape, or one whose magnitude does not
/// fit in an `i64`, gives `None`.
pub fn parse_fixed(text: &[u8]) -> (r: Option<i64>)
    ensures
        r == parse_fixed_spec(text@),
{
    let n = text.len();
    let mut start: usize = 0;
    let mut negative = false;
    if n > 0 && (text[0] == 43 || text[0] == 45) {
        negative = text[0] == 45;
        start = 1;
    }
    let (stop, whole) = read_digits(text, start, WHOLE_LIMIT);
    let mut frac: u64 = 0;
    if stop < n {
        if text[stop] != 46 {
            proof {
                lemma_decimal_stray_byte(text@, start as int, stop as int);
            }
            return None;
        }
        let (end, units) = read_fraction(text, stop + 1);
        proof {
            lemma_decimal_with_point(text@, start as int, stop as int, end as int);
        }
        if end < n || end - start == 1 {
            return None;
        }
        frac = units;
    } else {
        proof {
            assert(text@.skip(start as int) =~= text@.subrange(start as int, stop as int));
            lemma_decimal_without_point(text@, start as int);
        }
        if stop == start {
            return None;
        }
    }
    if whole > WHOLE_LIMIT {
        return None;
    }
    let magnitude: u64 = whole * 1_000_000 + frac;
    if magnitude > 9_223_372_036_854_775_807 {
        return None;
    }
    if negative {
        Some(-(magnitude as i64))
    } else {
        Some(magnitude as i64)
    }
}

/// Reads an optional sign and one or more digits. The value is held at
/// `cap + 1` once it exceeds `cap`.
fn read_integer(text: &[u8], signed: bool, cap: u64) -> (r: Option<(bool, u64)>)
    requires
        cap <= 1_000_000_000_000_000_000,
    ensures
        match r {
            Some((negative, value)) => {
                &&& integer_value(text@, signed) is Some
                &&& negative == (signed && is_negative(text@))
                &&& value == capped(
                    (if negative {
                        -integer_value(text@, signed)->0
                    } else {
                        integer_value(text@, signed)->0
                    }) as nat,
                    cap as nat,
                )
            },
            None => integer_value(text@, signed) is None,
        },
{
    let n = text.len();
    let mut start: usize = 0;
    let mut negative = false;
    if n > 0 && (text[0] == 43 || (signed && text[0] == 45)) {
        negative = text[0] == 45;
        start = 1;
    }
    let (stop, value) = read_digits(text, start, cap);
    let ghost digits = text@.skip(start as int);
    if stop < n {
        proof {
            assert(digits[stop - start] == text[stop as int]);
        }
        return None;
    }
    if stop == start {
        return None;
    }
    proof {
        assert(digits =~= text@.subrange(start as int, stop as int));
    }
    Some((negative, value))
}

/// Reads a signed integer as `str::parse::<i32>` does: an optional `+` or `-`
/// and one or more digits, with a value in range.
pub fn parse_i32(text: &[u8]) -> (r: Option<i32>)
    ensures
        r == parse_i32_spec(text@),
{
    match read_integer(text, true, 2_147_483_648) {
        Some((negative, value)) => {
            if negative {
                if value > 2_147_483_648 {
                    None
                } else {
                    Some((-(value as i64)) as i32)
                }
            } else {
                if value > 2_147_483_647 {
                    None
                } else {
                    Some(value as i32)
                }
            }
        },
        None => None,
    }
}

/// Reads an unsigned integer as `str::parse::<u32>` does: an optional `+` and
/// one or more digits, with a value in range.
pub fn parse_u32(text: &[u8]) -> (r: Option<u32>)
    ensures
        r == parse_u32_spec(text@),
{
    match read_integer(text, false, 4_294_967_295) {
        Some((_, value)) => {
            if value > 4_294_967_295 {
                None
            } else {
                Some(value as u32)
            }
        },
        None => None,
    }
}

/// Reads an unsigned integer as `str::parse::<u16>` does.
pub fn parse_u16(text: &[u8]) -> (r: Option<u16>)
    ensures
        r == parse_u16_spec(text@),
{
    match read_integer(text, false, 65_535) {
        Some((_, value)) => {
            if value > 65_535 {
                None
            } else {
                Some(value as u16)
            }
        },
        None => None,
    }
}

/// Division that rounds toward zero.
pub open spec fn div_toward_zero(a: int, b: int) -> int {
    if a >= 0 {
        a / b
    } else {
        -((-a) / b)
    }
}

/// Remainder of the division that rounds toward zero; it has the sign of `a`.
pub open spec fn rem_toward_zero(a: int, b: int) -> int {
    if a >= 0 {
        a % b
    } else {
        -((-a) % b)
    }
}

/// The product of two counts of millionths, again in millionths, rounded
/// toward zero.
pub open spec fn product_units(a: int, b: int) -> int {
    div_toward_zero(a * b, UNITS_PER_ONE as int)
}

/// Multiplies two measurements. `None` where the product does not fit.
pub fn mul_fixed(a: i64, b: i64) -> (r: Option<i64>)
    ensures
        r == (if i64::MIN <= product_units(a as int, b as int) <= i64::MAX {
            Some(product_units(a as int, b as int) as i64)
        } else {
            None
        }),
{
    assert(-0x4000_0000_0000_0000_0000_0000_0000_0000 <= (a as int) * (b as int)
        <= 0x4000_0000_0000_0000_0000_0000_0000_0000) by (nonlinear_arith)
        requires
            -0x8000_0000_0000_0000 <= a <= 0x7fff_ffff_ffff_ffff,
            -0x8000_0000_0000_0000 <= b <= 0x7fff_ffff_ffff_ffff,
    ;
    let wide: i128 = (a as i128) * (b as i128);
    let scaled: i128 = wide / (UNITS_PER_ONE as i128);
    if scaled < -9_223_372_036_854_775_808 || scaled > 9_223_372_036_854_775_807 {
        None
    } else {
        Some(scaled as i64)
    }
}

} // verus!
