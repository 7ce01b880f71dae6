//! Colors and the `#RRGGBB` color literal.
//!
//! A color is kept as its three 8-bit components exactly as written in the
//! stylesheet; a raster backend divides them by 255 when it needs unit-range
//! channels.

use crate::Error;
use vstd::prelude::*;

verus! {

/// An 8-bit-per-channel RGB color.
#[derive(Clone, Copy, Debug, PartialEq, Eq, Structural)]
pub struct ColorRgb {
    pub r: u8,
    pub g: u8,
    pub b: u8,
}

/// `c` is an upper- or lower-case hexadecimal digit.
pub open spec fn is_hex_digit(c: char) -> bool {
    (48 <= c as int && c as int <= 57)  // '0' ..= '9'
     || (97 <= c as int && c as int <= 102)  // 'a' ..= 'f'
     || (65 <= c as int && c as int <= 70)  // 'A' ..= 'F'

}

/// The numeric value of a hexadecimal digit.
pub open spec fn hex_val(c: char) -> int
    recommends
        is_hex_digit(c),
{
    if 48 <= c as int && c as int <= 57 {
        c as int - 48
    } else if 97 <= c as int && c as int <= 102 {
        c as int - 87
    } else {
        c as int - 55
    }
}

/// `s` is a well-formed color literal: `#` followed by exactly six
/// hexadecimal digits.
pub open spec fn spec_color_ok(s: Seq<char>) -> bool {
    &&& s.len() == 7
    &&& s[0] == '#'
    &&& forall|i: int| 1 <= i < 7 ==> is_hex_digit(#[trigger] s[i])
}

/// The channel value written at positions `i`, `i + 1` of the literal.
pub open spec fn spec_hex_pair(s: Seq<char>, i: int) -> int
    recommends
        0 <= i,
        i + 1 < s.len(),
{
    16 * hex_val(s[i]) + hex_val(s[i + 1])
}

/// The color denoted by a well-formed literal.
pub open spec fn spec_color_value(s: Seq<char>) -> ColorRgb
    recommends
        spec_color_ok(s),
{
    ColorRgb {
        r: spec_hex_pair(s, 1) as u8,
        g: spec_hex_pair(s, 3) as u8,
        b: spec_hex_pair(s, 5) as u8,
    }
}

/// Decodes one hexadecimal digit.
fn hex_digit(c: char) -> (r: Option<u8>)
    ensures
        match r {
            Some(v) => is_hex_digit(c) && v == hex_val(c),
            None => !is_hex_digit(c),
        },
{
    let u: u32 = c as u32;
    if 48 <= u && u <= 57 {
        Some((u - 48) as u8)
    } else if 97 <= u && u <= 102 {
        Some((u - 87) as u8)
    } else if 65 <= u && u <= 70 {
        Some((u - 55) as u8)
    } else {
        None
    }
}

/// Decodes the two-digit channel starting at position `i`.
fn hex_pair(s: &str, i: usize) -> (r: Option<u8>)
    requires
        i < usize::MAX,
        i + 1 < s@.len(),
    ensures
        match r {
            Some(v) => is_hex_digit(s@[i as int]) && is_hex_digit(s@[i + 1]) && v
                == spec_hex_pair(s@, i as int),
            None => !(is_hex_digit(s@[i as int]) && is_hex_digit(s@[i + 1])),
        },
{
    let hi: Option<u8> = hex_digit(s.get_char(i));
    let lo: Option<u8> = hex_digit(s.get_char(i + 1));
    match (hi, lo) {
        (Some(h), Some(l)) => Some(16 * h + l),
        _ => None,
    }
}

/// Parses a `#RRGGBB` color literal.
///
/// Returns the written channels for a well-formed literal and refuses
/// everything else: a string that does not start with `#`, is not exactly
/// seven characters long, or holds a non-hexadecimal digit.
pub fn parse_color(s: &str) -> (r: Result<ColorRgb, Error>)
    ensures
        r == if spec_color_ok(s@) {
            Ok::<ColorRgb, Error>(spec_color_value(s@))
        } else {
            Err::<ColorRgb, Error>(Error::BadColor)
        },
{
    let n: usize = s.unicode_len();
    if n != 7 {
        return Err(Error::BadColor);
    }
    if s.get_char(0) != '#' {
        return Err(Error::BadColor);
    }
    let pr: Option<u8> = hex_pair(s, 1);
    let pg: Option<u8> = hex_pair(s, 3);
    let pb: Option<u8> = hex_pair(s, 5);
    match (pr, pg, pb) {
        (Some(cr), Some(cg), Some(cb)) => Ok(ColorRgb { r: cr, g: cg, b: cb }),
        _ => Err(Error::BadColor),
    }
}

} // verus!
