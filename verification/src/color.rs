//! Colours written as hexadecimal text, such as `#2E3440` or `#5E81ACFF`.
//!
//! The text is taken byte by byte. Leading `#` signs are left out. The next
//! three pairs of bytes give red, green and blue, and a fourth pair, where the
//! text has one, gives the opacity.

use vstd::prelude::*;
use vstd::string::StringSliceAdditionalSpecFns;

verus! {

/// A colour by its four channels, each from 0 to 255.
#[derive(Clone, Copy, Debug, PartialEq, Eq, Structural)]
pub struct Rgba {
    pub r: u8,
    pub g: u8,
    pub b: u8,
    pub a: u8,
}

/// The value of a byte as a hexadecimal digit, in either case.
pub open spec fn hex_digit(b: u8) -> Option<u8> {
    if 0x30 <= b <= 0x39 {
        Some((b - 0x30) as u8)
    } else if 0x41 <= b <= 0x46 {
        Some((b - 0x41 + 10) as u8)
    } else if 0x61 <= b <= 0x66 {
        Some((b - 0x61 + 10) as u8)
    } else {
        None
    }
}

/// The number that two bytes write: two hexadecimal digits, or a plus sign
/// and one digit.
pub open spec fn channel(hi: u8, lo: u8) -> Option<u8> {
    if hi == 0x2B {
        hex_digit(lo)
    } else {
        match (hex_digit(hi), hex_digit(lo)) {
            (Some(h), Some(l)) => Some((16 * h + l) as u8),
            _ => None,
        }
    }
}

/// The number that two bytes write, or `fallback` where they write none.
pub open spec fn channel_or(hi: u8, lo: u8, fallback: u8) -> u8 {
    match channel(hi, lo) {
        Some(v) => v,
        None => fallback,
    }
}

/// How many `#` signs the text begins with.
pub open spec fn leading_hashes(bytes: Seq<u8>) -> int
    decreases bytes.len(),
{
    if bytes.len() > 0 && bytes[0] == 0x23 {
        1 + leading_hashes(bytes.drop_first())
    } else {
        0
    }
}

/// Whether a character of the text begins at byte `i`, or the text ends there.
pub open spec fn at_boundary(bytes: Seq<u8>, i: int) -> bool {
    i == bytes.len() || (0 <= i < bytes.len() && !(0x80 <= bytes[i] < 0xC0))
}

/// Whether the text can be read as a colour: after its `#` signs it has six
/// bytes at least, and no character lies across the end of a pair.
pub open spec fn is_color_text(bytes: Seq<u8>) -> bool {
    let start = leading_hashes(bytes);
    &&& bytes.len() - start >= 6
    &&& at_boundary(bytes, start + 2)
    &&& at_boundary(bytes, start + 4)
    &&& at_boundary(bytes, start + 6)
    &&& bytes.len() - start >= 8 ==> at_boundary(bytes, start + 8)
}

/// The colour that the text writes. A pair that writes no number counts as 0
/// for red, green and blue, and as 255 for the opacity; a text without a
/// fourth pair is opaque.
pub open spec fn color_of(bytes: Seq<u8>) -> Rgba {
    let start = leading_hashes(bytes);
    Rgba {
        r: channel_or(bytes[start], bytes[start + 1], 0),
        g: channel_or(bytes[start + 2], bytes[start + 3], 0),
        b: channel_or(bytes[start + 4], bytes[start + 5], 0),
        a: if bytes.len() - start >= 8 {
            channel_or(bytes[start + 6], bytes[start + 7], 255)
        } else {
            255
        },
    }
}

fn digit_value(b: u8) -> (r: Option<u8>)
    ensures
        r == hex_digit(b),
        r.is_some() ==> r.unwrap() < 16,
{
    if 0x30 <= b && b <= 0x39 {
        Some(b - 0x30)
    } else if 0x41 <= b && b <= 0x46 {
        Some(b - 0x41 + 10)
    } else if 0x61 <= b && b <= 0x66 {
        Some(b - 0x61 + 10)
    } else {
        None
    }
}

fn read_channel(hi: u8, lo: u8, fallback: u8) -> (r: u8)
    ensures
        r == channel_or(hi, lo, fallback),
{
    if hi == 0x2B {
        match digit_value(lo) {
            Some(v) => v,
            None => fallback,
        }
    } else {
        match (digit_value(hi), digit_value(lo)) {
            (Some(h), Some(l)) => 16 * h + l,
            _ => fallback,
        }
    }
}

fn count_hashes(bytes: &[u8]) -> (n: usize)
    ensures
        n == leading_hashes(bytes@),
        n <= bytes@.len(),
{
    let mut n: usize = 0;
    assert(bytes@.skip(0) =~= bytes@);
    while n < bytes.len() && bytes[n] == 0x23
        invariant
            n <= bytes@.len(),
            leading_hashes(bytes@) == n + leading_hashes(bytes@.skip(n as int)),
        decreases bytes@.len() - n,
    {
        assert(bytes@.skip(n as int).drop_first() =~= bytes@.skip(n + 1));
        n += 1;
    }
    n
}

fn boundary_at(bytes: &[u8], i: usize) -> (r: bool)
    requires
        i <= bytes@.len(),
    ensures
        r == at_boundary(bytes@, i as int),
{
    if i == bytes.len() {
        true
    } else {
        let b: u8 = bytes[i];
        !(0x80 <= b && b < 0xC0)
    }
}

/// Whether `hex` can be read as a colour.
pub fn is_color(hex: &str) -> (r: bool)
    ensures
        r == is_color_text(hex.spec_bytes()),
{
    let bytes = hex.as_bytes();
    let start = count_hashes(bytes);
    let rest: usize = bytes.len() - start;
    if rest < 6 {
        return false;
    }
    if !(boundary_at(bytes, start + 2) && boundary_at(bytes, start + 4) && boundary_at(
        bytes,
        start + 6,
    )) {
        return false;
    }
    if rest >= 8 {
        boundary_at(bytes, start + 8)
    } else {
        true
    }
}

/// Reads `hex` as a colour.
pub fn parse_color(hex: &str) -> (c: Rgba)
    requires
        is_color_text(hex.spec_bytes()),
    ensures
        c == color_of(hex.spec_bytes()),
{
    let bytes = hex.as_bytes();
    let start = count_hashes(bytes);
    let r = read_channel(bytes[start], bytes[start + 1], 0);
    let g = read_channel(bytes[start + 2], bytes[start + 3], 0);
    let b = read_channel(bytes[start + 4], bytes[start + 5], 0);
    let a = if bytes.len() - start >= 8 {
        read_channel(bytes[start + 6], bytes[start + 7], 255)
    } else {
        255
    };
    Rgba { r, g, b, a }
}

} // verus!
