//! Byte classes of the query grammar and the decoding of percent triplets.
use vstd::prelude::*;

verus! {

pub const UPPER_A: u8 = 65;
pub const UPPER_Z: u8 = 90;
pub const LOWER_A: u8 = 97;
pub const LOWER_Z: u8 = 122;
pub const DIGIT_0: u8 = 48;
pub const DIGIT_9: u8 = 57;
pub const UPPER_F: u8 = 70;
pub const LOWER_F: u8 = 102;
pub const HYPHEN: u8 = 45;
pub const PERIOD: u8 = 46;
pub const UNDERSCORE: u8 = 95;
pub const TILDE: u8 = 126;
pub const EXCLAMATION: u8 = 33;
pub const DOLLAR: u8 = 36;
pub const AMPERSAND: u8 = 38;
pub const COMMA: u8 = 44;
pub const SEMICOLON: u8 = 59;
pub const EQUALS: u8 = 61;
pub const COLON: u8 = 58;
pub const AT_SIGN: u8 = 64;
pub const SLASH: u8 = 47;
pub const QUESTION_MARK: u8 = 63;
pub const PERCENT: u8 = 37;
pub const HASH: u8 = 35;

/// What the scanner does with one raw byte of a query.
#[derive(Clone, Copy, Debug, PartialEq, Eq, Structural)]
pub enum ByteClass {
    /// A byte that may stand for itself in a query.
    Literal,
    /// `%`, which opens a percent triplet.
    Percent,
    /// `#`, which ends the query and opens the fragment.
    FragmentStart,
    /// Any other byte.
    Invalid,
}

/// ALPHA / DIGIT / `-` / `.` / `_` / `~`.
pub open spec fn is_unreserved(b: u8) -> bool {
    (UPPER_A <= b <= UPPER_Z) || (LOWER_A <= b <= LOWER_Z) || (DIGIT_0 <= b <= DIGIT_9) || b == HYPHEN || b == PERIOD
        || b == UNDERSCORE || b == TILDE
}

/// `!` `$` `&` `'` `(` `)` `*` `+` `,` `;` `=`.
pub open spec fn is_sub_delim(b: u8) -> bool {
    b == EXCLAMATION || b == DOLLAR || (AMPERSAND <= b <= COMMA) || b == SEMICOLON || b == EQUALS
}

/// A byte that a query may hold as it is: unreserved, a sub-delimiter, `:`, `@`, `/` or `?`.
pub open spec fn is_query_literal(b: u8) -> bool {
    is_unreserved(b) || is_sub_delim(b) || b == COLON || b == AT_SIGN || b == SLASH || b == QUESTION_MARK
}

pub open spec fn byte_class(b: u8) -> ByteClass {
    if is_query_literal(b) {
        ByteClass::Literal
    } else if b == PERCENT {
        ByteClass::Percent
    } else if b == HASH {
        ByteClass::FragmentStart
    } else {
        ByteClass::Invalid
    }
}

pub open spec fn is_hex_digit(b: u8) -> bool {
    (DIGIT_0 <= b <= DIGIT_9) || (UPPER_A <= b <= UPPER_F) || (LOWER_A <= b <= LOWER_F)
}

/// A hex digit written in its canonical (upper) case; decimal digits have no case.
pub open spec fn is_canonical_hex_digit(b: u8) -> bool {
    (DIGIT_0 <= b <= DIGIT_9) || (UPPER_A <= b <= UPPER_F)
}

pub open spec fn hex_digit_value(b: u8) -> u8 {
    if DIGIT_0 <= b <= DIGIT_9 {
        (b - DIGIT_0) as u8
    } else if UPPER_A <= b <= UPPER_F {
        (b - UPPER_A + 10) as u8
    } else {
        (b - LOWER_A + 10) as u8
    }
}

/// The byte that the triplet `%` `hi` `lo` encodes.
pub open spec fn hex_pair_value(hi: u8, lo: u8) -> u8 {
    (hex_digit_value(hi) * 16 + hex_digit_value(lo)) as u8
}

pub open spec fn ascii_upper(b: u8) -> u8 {
    if LOWER_A <= b <= LOWER_Z {
        (b - 32) as u8
    } else {
        b
    }
}

/// Classifies one byte of a query.
pub fn classify(b: u8) -> (c: ByteClass)
    ensures
        c == byte_class(b),
{
    if is_unreserved_byte(b) || b == EXCLAMATION || b == DOLLAR || (AMPERSAND <= b && b <= COMMA) || b == SEMICOLON
        || b == EQUALS || b == COLON || b == AT_SIGN || b == SLASH || b == QUESTION_MARK {
        ByteClass::Literal
    } else if b == PERCENT {
        ByteClass::Percent
    } else if b == HASH {
        ByteClass::FragmentStart
    } else {
        ByteClass::Invalid
    }
}

/// Whether a (decoded) byte is unreserved.
pub fn is_unreserved_byte(b: u8) -> (r: bool)
    ensures
        r == is_unreserved(b),
{
    (UPPER_A <= b && b <= UPPER_Z) || (LOWER_A <= b && b <= LOWER_Z) || (DIGIT_0 <= b && b <= DIGIT_9) || b == HYPHEN
        || b == PERIOD || b == UNDERSCORE || b == TILDE
}

fn hex_digit(b: u8) -> (r: Option<u8>)
    ensures
        r is Some <==> is_hex_digit(b),
        r matches Some(v) ==> v == hex_digit_value(b) && v < 16,
{
    if DIGIT_0 <= b && b <= DIGIT_9 {
        Some(b - DIGIT_0)
    } else if UPPER_A <= b && b <= UPPER_F {
        Some(b - UPPER_A + 10)
    } else if LOWER_A <= b && b <= LOWER_F {
        Some(b - LOWER_A + 10)
    } else {
        None
    }
}

/// Decodes the two digits that follow a `%`, either of which may be missing.
/// On success returns the encoded byte and whether both digits were already in canonical case.
pub fn get_percent_encoded_value(first: Option<u8>, second: Option<u8>) -> (r: Option<(u8, bool)>)
    ensures
        r is Some <==> (first matches Some(h) && is_hex_digit(h)) && (second matches Some(l)
            && is_hex_digit(l)),
        r matches Some(p) ==> p.0 == hex_pair_value(first->Some_0, second->Some_0) && p.1 == (
        is_canonical_hex_digit(first->Some_0) && is_canonical_hex_digit(second->Some_0)),
{
    match (first, second) {
        (Some(h), Some(l)) => match (hex_digit(h), hex_digit(l)) {
            (Some(hv), Some(lv)) => {
                let canonical = !(LOWER_A <= h && h <= LOWER_F) && !(LOWER_A <= l && l <= LOWER_F);
                Some((hv * 16 + lv, canonical))
            },
            _ => None,
        },
        _ => None,
    }
}

/// Decodes the two hex digits of a triplet that is known to be well formed.
pub fn decode_hex_pair(hi: u8, lo: u8) -> (r: u8)
    requires
        is_hex_digit(hi),
        is_hex_digit(lo),
    ensures
        r == hex_pair_value(hi, lo),
{
    match (hex_digit(hi), hex_digit(lo)) {
        (Some(h), Some(l)) => h * 16 + l,
        _ => 0,
    }
}

/// Upper-cases an ASCII letter and leaves every other byte alone.
pub fn to_ascii_upper(b: u8) -> (r: u8)
    ensures
        r == ascii_upper(b),
{
    if LOWER_A <= b && b <= LOWER_Z {
        b - 32
    } else {
        b
    }
}

/// Upper-casing a hex digit keeps it a hex digit of the same value, now in canonical case.
pub proof fn lemma_upper_hex_digit(b: u8)
    requires
        is_hex_digit(b),
    ensures
        is_hex_digit(ascii_upper(b)),
        is_canonical_hex_digit(ascii_upper(b)),
        hex_digit_value(ascii_upper(b)) == hex_digit_value(b),
        ascii_upper(b) == b <==> is_canonical_hex_digit(b),
{
}

} // verus!
