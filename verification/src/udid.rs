//! Unique device identifiers.
use vstd::prelude::*;
use crate::text::{chars_of, lemma_case_of_character, lowered};

verus! {

/// An ASCII hexadecimal digit.
pub open spec fn is_hex_digit(c: char) -> bool {
    ('0' <= c && c <= '9') || ('a' <= c && c <= 'f') || ('A' <= c && c <= 'F')
}

/// The length of an identifier of the older kind: forty hexadecimal digits.
pub const LEGACY_LENGTH: usize = 40;

/// The length of an identifier of the newer kind: eight hexadecimal digits, a
/// hyphen, and sixteen more.
pub const MODERN_LENGTH: usize = 25;

/// The place of the hyphen in an identifier of the newer kind.
pub const HYPHEN_AT: usize = 8;

/// Whether the text is a device identifier of either kind.
pub open spec fn valid_udid(s: Seq<char>) -> bool {
    ||| (s.len() == LEGACY_LENGTH && forall|i: int| 0 <= i < s.len() ==> is_hex_digit(#[trigger] s[i]))
    ||| (s.len() == MODERN_LENGTH && s[HYPHEN_AT as int] == '-' && forall|i: int|
        0 <= i < s.len() && i != HYPHEN_AT ==> is_hex_digit(#[trigger] s[i]))
}

fn hex_digit(c: char) -> (r: bool)
    ensures
        r == is_hex_digit(c),
{
    ('0' <= c && c <= '9') || ('a' <= c && c <= 'f') || ('A' <= c && c <= 'F')
}

pub fn is_valid_device_udid(udid: &str) -> (r: bool)
    ensures
        r == valid_udid(udid@),
{
    let chars: Vec<char> = chars_of(udid);
    let modern = chars.len() == MODERN_LENGTH;
    if !modern && chars.len() != LEGACY_LENGTH {
        return false;
    }
    let mut i: usize = 0;
    while i < chars.len()
        invariant
            chars@ == udid@,
            i <= chars.len(),
            modern == (chars.len() == MODERN_LENGTH),
            modern || chars.len() == LEGACY_LENGTH,
            forall|k: int|
                0 <= k < i ==> (if modern && k == HYPHEN_AT {
                    (#[trigger] chars@[k]) == '-'
                } else {
                    is_hex_digit(chars@[k])
                }),
        decreases chars.len() - i,
    {
        if modern && i == HYPHEN_AT {
            if chars[i] != '-' {
                return false;
            }
        } else if !hex_digit(chars[i]) {
            assert(!is_hex_digit(udid@[i as int]));
            return false;
        }
        i += 1;
    }
    true
}

/// An identifier has forty hexadecimal digits, or eight, a hyphen and sixteen more.
pub proof fn lemma_identifier_shapes(s: Seq<char>)
    ensures
        valid_udid(s) ==> s.len() == 40 || s.len() == 25,
        s.len() == 40 ==> (valid_udid(s) <==> forall|i: int|
            0 <= i < 40 ==> hexadecimal(#[trigger] s[i])),
        s.len() == 25 ==> (valid_udid(s) <==> s[8] == '-' && forall|i: int|
            0 <= i < 25 && i != 8 ==> hexadecimal(#[trigger] s[i])),
{
    assert forall|c: char| is_hex_digit(c) == #[trigger] hexadecimal(c) by {
        lemma_hexadecimal(c);
    }
    if s.len() == 25 {
        if s[8] == '-' && forall|i: int| 0 <= i < 25 && i != 8 ==> hexadecimal(#[trigger] s[i]) {
            assert forall|i: int| 0 <= i < 25 && i != 8 implies is_hex_digit(#[trigger] s[i]) by {
                assert(hexadecimal(s[i]));
            }
        }
        if valid_udid(s) {
            assert forall|i: int| 0 <= i < 25 && i != 8 implies hexadecimal(#[trigger] s[i]) by {
                assert(is_hex_digit(s[i]));
            }
        }
    }
    if s.len() == 40 {
        if forall|i: int| 0 <= i < 40 ==> hexadecimal(#[trigger] s[i]) {
            assert forall|i: int| 0 <= i < 40 implies is_hex_digit(#[trigger] s[i]) by {
                assert(hexadecimal(s[i]));
            }
        }
        if valid_udid(s) {
            assert forall|i: int| 0 <= i < 40 implies hexadecimal(#[trigger] s[i]) by {
                assert(is_hex_digit(s[i]));
            }
        }
    }
}

/// A character that stands for one of the values below sixteen.
pub open spec fn hexadecimal(c: char) -> bool {
    let code = c as u32;
    48 <= code < 58 || 65 <= code < 71 || 97 <= code < 103
}

proof fn lemma_hexadecimal(c: char)
    ensures
        is_hex_digit(c) == hexadecimal(c),
{
}

/// Whether a text is an identifier does not depend on the case of its letters.
pub proof fn lemma_identifier_in_any_case(s: Seq<char>)
    ensures
        valid_udid(lowered(s)) == valid_udid(s),
{
    lemma_identifier_shapes(s);
    lemma_identifier_shapes(lowered(s));
    assert(lowered(s).len() == s.len());
    assert forall|i: int| 0 <= i < s.len() implies hexadecimal(s[i]) == hexadecimal(
        #[trigger] lowered(s)[i],
    ) && (s[i] == '-') == (lowered(s)[i] == '-') by {
        lemma_case_of_character(s[i]);
    }
    if valid_udid(lowered(s)) {
        assert forall|i: int|
            0 <= i < s.len() && (s.len() == 25 ==> i != 8) implies hexadecimal(#[trigger] s[i]) by {
            assert(hexadecimal(lowered(s)[i]));
        }
    }
}

} // verus!
