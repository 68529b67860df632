//! Cutting raw text into lines and lines into entries.

use crate::fixed_point::first_index_of;
use crate::fixed_point::lemma_first_index_of;
use crate::parse::fields::fields_of;
use vstd::prelude::*;
use vstd::std_specs::iter::IteratorSpec;
use vstd::string::StrSliceExecFns;
use vstd::string::StringSliceAdditionalSpecFns;
use vstd::utf8::decode_utf8;
use vstd::utf8::encode_utf8;
use vstd::utf8::encode_utf8_valid_utf8;
use vstd::utf8::is_char_boundary;
use vstd::utf8::is_char_boundary_iff_not_is_continuation_byte;
use vstd::utf8::is_char_boundary_start_end_of_seq;
use vstd::utf8::valid_utf8;

verus! {

/// The pieces of a text between the occurrences of a separator: one more
/// piece than there are separators, so that a text without any is one piece.
pub open spec fn split_bytes(s: Seq<u8>, separator: u8) -> Seq<Seq<u8>>
    decreases s.len(),
{
    let i = first_index_of(s, separator);
    if 0 <= i < s.len() {
        seq![s.take(i)] + split_bytes(s.skip(i + 1), separator)
    } else {
        seq![s]
    }
}

/// Whether a character is white space, as `char::is_whitespace` says.
pub uninterp spec fn white_space(c: char) -> bool;

/// Calls `char::is_whitespace`. The contract claims only that the answer is
/// a function of the character.
#[verifier::external_body]
pub(crate) fn is_white_space(c: char) -> (r: bool)
    ensures
        r == white_space(c),
{
    c.is_whitespace()
}

/// How many characters of white space a text begins with.
pub open spec fn leading_white(s: Seq<char>) -> int
    decreases s.len(),
{
    if s.len() > 0 && white_space(s[0]) {
        1 + leading_white(s.skip(1))
    } else {
        0
    }
}

/// How many characters of white space a text ends with.
pub open spec fn trailing_white(s: Seq<char>) -> int
    decreases s.len(),
{
    if s.len() > 0 && white_space(s.last()) {
        1 + trailing_white(s.drop_last())
    } else {
        0
    }
}

/// A text without the white space that it begins and ends with.
pub open spec fn trimmed_chars(s: Seq<char>) -> Seq<char> {
    if leading_white(s) >= s.len() {
        Seq::<char>::empty()
    } else {
        s.subrange(leading_white(s), s.len() - trailing_white(s))
    }
}

/// A text, given as its bytes, without the white space that it begins and
/// ends with.
pub open spec fn trimmed(text: Seq<u8>) -> Seq<u8> {
    encode_utf8(trimmed_chars(decode_utf8(text)))
}

/// The place before which all is white space, and at which the text ends or
/// a character is none, is the count of leading white space.
proof fn lemma_leading_white(s: Seq<char>, a: int)
    requires
        0 <= a <= s.len(),
        forall|j: int| 0 <= j < a ==> white_space(s[j]),
        a < s.len() ==> !white_space(s[a]),
    ensures
        leading_white(s) == a,
    decreases a,
{
    if a > 0 {
        let rest = s.skip(1);
        assert forall|j: int| 0 <= j < a - 1 implies white_space(rest[j]) by {
            assert(rest[j] == s[j + 1]);
        }
        if a - 1 < rest.len() {
            assert(rest[a - 1] == s[a]);
        }
        lemma_leading_white(rest, a - 1);
    }
}

/// The place from which on all is white space, and before which the text
/// begins or a character is none, leaves the count of trailing white space.
proof fn lemma_trailing_white(s: Seq<char>, b: int)
    requires
        0 <= b <= s.len(),
        forall|j: int| b <= j < s.len() ==> white_space(s[j]),
        b > 0 ==> !white_space(s[b - 1]),
    ensures
        trailing_white(s) == s.len() - b,
    decreases s.len() - b,
{
    if b < s.len() {
        let head = s.drop_last();
        assert forall|j: int| b <= j < head.len() implies white_space(head[j]) by {
            assert(head[j] == s[j]);
        }
        if b > 0 {
            assert(head[b - 1] == s[b - 1]);
        }
        lemma_trailing_white(head, b);
    }
}

/// Removes the white space that a text begins and ends with.
pub fn trim_entry<'a>(text: &'a str) -> (r: &'a str)
    ensures
        r@ == trimmed_chars(text@),
        r.spec_bytes() == trimmed(text.spec_bytes()),
{
    let n = text.unicode_len();
    let mut first: usize = 0;
    let mut end: usize = 0;
    let mut i: usize = 0;
    let mut chars = text.chars();
    proof {
        vstd::string::axiom_spec_iter(text);
    }
    loop
        invariant
            n == text@.len(),
            i <= n,
            chars.remaining() == text@.skip(i as int),
            chars.obeys_prophetic_iter_laws(),
            end == 0 ==> forall|j: int| 0 <= j < i ==> white_space(text@[j]),
            end > 0 ==> first < end <= i && !white_space(text@[first as int]) && !white_space(
                text@[end - 1],
            ) && (forall|j: int| 0 <= j < first ==> white_space(text@[j])) && (forall|j: int|
                end <= j < i ==> white_space(text@[j])),
        ensures
            i == n,
        decreases n - i,
    {
        let ghost before = chars;
        let next = chars.next();
        proof {
            vstd::string::next_postcondition(&before, &chars, next);
        }
        match next {
            Some(c) => {
                proof {
                    assert(text@.skip(i as int)[0] == text@[i as int]);
                    assert(text@.skip(i as int).drop_first() =~= text@.skip(i as int + 1));
                }
                if !is_white_space(c) {
                    if end == 0 {
                        first = i;
                    }
                    end = i + 1;
                }
                i = i + 1;
            },
            None => {
                proof {
                    assert(text@.skip(i as int).len() == 0);
                }
                break ;
            },
        }
    }
    proof {
        if end == 0 {
            lemma_leading_white(text@, n as int);
        } else {
            lemma_leading_white(text@, first as int);
            lemma_trailing_white(text@, end as int);
        }
        vstd::utf8::encode_utf8_decode_utf8(text@);
    }
    if end == 0 {
        text.substring_char(0, 0)
    } else {
        text.substring_char(first, end)
    }
}

/// Where the first occurrence of `b` stands; the length of the text where
/// there is none.
fn find_byte(text: &[u8], b: u8) -> (at: usize)
    ensures
        at <= text.len(),
        at == first_index_of(text@, b),
        at < text.len() ==> text[at as int] == b,
{
    let mut i: usize = 0;
    while i < text.len() && text[i] != b
        invariant
            i <= text.len(),
            forall|j: int| 0 <= j < i ==> text[j] != b,
        decreases text.len() - i,
    {
        i = i + 1;
    }
    proof {
        lemma_first_index_of(text@, b, i as int);
    }
    i
}

/// Cuts a text at every occurrence of a separator, which is an ASCII byte.
pub fn split_on<'a>(text: &'a str, separator: u8) -> (pieces: Vec<&'a str>)
    requires
        separator < 128,
    ensures
        fields_of(pieces@) == split_bytes(text.spec_bytes(), separator),
        pieces.len() >= 1,
{
    let mut pieces: Vec<&'a str> = Vec::new();
    let mut rest: &'a str = text;
    let ghost mut done = Seq::<Seq<u8>>::empty();
    proof {
        assert(done + split_bytes(rest.spec_bytes(), separator) =~= split_bytes(
            text.spec_bytes(),
            separator,
        ));
        assert(fields_of(pieces@) =~= done);
    }
    loop
        invariant
            separator < 128,
            fields_of(pieces@) == done,
            done + split_bytes(rest.spec_bytes(), separator) == split_bytes(
                text.spec_bytes(),
                separator,
            ),
        decreases rest.spec_bytes().len(),
    {
        let bytes = rest.as_bytes();
        let at = find_byte(bytes, separator);
        proof {
            encode_utf8_valid_utf8(rest@);
            assert(valid_utf8(rest.spec_bytes()));
        }
        if at >= bytes.len() {
            pieces.push(rest);
            proof {
                assert(fields_of(pieces@) =~= done + seq![rest.spec_bytes()]);
            }
            return pieces;
        }
        proof {
            is_char_boundary_iff_not_is_continuation_byte(rest.spec_bytes(), at as int);
        }
        let (head, tail) = rest.split_at(at);
        proof {
            encode_utf8_valid_utf8(tail@);
            assert(tail.spec_bytes()[0] == separator);
            reveal_with_fuel(is_char_boundary, 2);
            is_char_boundary_start_end_of_seq(vstd::utf8::pop_first_scalar(tail.spec_bytes()));
            assert(is_char_boundary(tail.spec_bytes(), 1));
        }
        let (_, next) = tail.split_at(1);
        let ghost before = pieces@;
        pieces.push(head);
        proof {
            assert(next.spec_bytes() =~= rest.spec_bytes().skip(at as int + 1));
            assert(head.spec_bytes() =~= rest.spec_bytes().take(at as int));
            assert(fields_of(pieces@) =~= done + seq![head.spec_bytes()]);
            assert((done + seq![head.spec_bytes()]) + split_bytes(next.spec_bytes(), separator)
                =~= done + split_bytes(rest.spec_bytes(), separator));
            done = done + seq![head.spec_bytes()];
        }
        rest = next;
    }
}

/// The entries of a line: its pieces between commas, each trimmed.
pub open spec fn entries_spec(line: Seq<u8>) -> Seq<Seq<u8>> {
    let pieces = split_bytes(line, 44);
    Seq::new(pieces.len(), |i: int| trimmed(pieces[i]))
}

/// Cuts a line into its entries: at every comma, and each piece trimmed.
pub fn entries_of<'a>(line: &'a str) -> (entries: Vec<&'a str>)
    ensures
        fields_of(entries@) == entries_spec(line.spec_bytes()),
{
    let pieces = split_on(line, 44);
    let mut entries: Vec<&'a str> = Vec::new();
    let mut i: usize = 0;
    while i < pieces.len()
        invariant
            i <= pieces.len(),
            entries.len() == i,
            forall|j: int|
                0 <= j < i ==> (#[trigger] entries[j]).spec_bytes() == trimmed(
                    pieces[j].spec_bytes(),
                ),
        decreases pieces.len() - i,
    {
        entries.push(trim_entry(pieces[i]));
        i = i + 1;
    }
    proof {
        let expected = entries_spec(line.spec_bytes());
        assert(fields_of(pieces@).len() == pieces@.len());
        assert forall|j: int| 0 <= j < entries@.len() implies fields_of(entries@)[j]
            == expected[j] by {
            assert(fields_of(pieces@)[j] == pieces[j].spec_bytes());
        }
        assert(fields_of(entries@) =~= expected);
    }
    entries
}

} // verus!
