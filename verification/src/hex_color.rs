//! `#RRGGBB` colour strings.
//!
//! A colour attribute is decoded into three 8-bit channels. Decoding never
//! fails: a channel whose two digits are missing or not hexadecimal reads
//! as zero, matching the silent-default policy for malformed colours.

use vstd::prelude::*;

verus! {

/// A colour given as a `#RRGGBB` string.
#[derive(Debug, Clone, PartialEq)]
pub struct HexColor {
    pub hex: String,
}

/// An decoded colour, one byte per channel.
#[derive(Debug, Clone, Copy, PartialEq, Eq, Structural)]
pub struct Rgb {
    pub r: u8,
    pub g: u8,
    pub b: u8,
}

/// The value of one hexadecimal digit, upper or lower case.
pub open spec fn hex_digit_val(c: char) -> Option<u8> {
    let u = c as u32;
    if 48 <= u <= 57 {
        Some((u - 48) as u8)
    } else if 97 <= u <= 102 {
        Some((u - 87) as u8)
    } else if 65 <= u <= 70 {
        Some((u - 55) as u8)
    } else {
        None
    }
}

/// The channel spanning characters `i` and `i + 1`, or zero where the
/// string is too short or a character is not a hexadecimal digit.
pub open spec fn channel_val(s: Seq<char>, i: int) -> u8 {
    if 0 <= i && i + 1 < s.len() {
        match (hex_digit_val(s[i]), hex_digit_val(s[i + 1])) {
            (Some(hi), Some(lo)) => (16 * hi + lo) as u8,
            _ => 0u8,
        }
    } else {
        0u8
    }
}

/// The three channels of a `#RRGGBB` string: characters 1-2, 3-4 and 5-6.
pub open spec fn spec_rgb(s: Seq<char>) -> Rgb {
    Rgb { r: channel_val(s, 1), g: channel_val(s, 3), b: channel_val(s, 5) }
}

impl HexColor {
    pub fn new(hex: &str) -> (c: HexColor)
        ensures
            c.hex@ == hex@,
    {
        HexColor { hex: hex.to_owned() }
    }

    /// Decode the three channels.
    pub fn to_rgb(&self) -> (c: Rgb)
        ensures
            c == spec_rgb(self.hex@),
    {
        let s = self.hex.as_str();
        Rgb { r: channel_at(s, 1), g: channel_at(s, 3), b: channel_at(s, 5) }
    }
}

/// The value of one hexadecimal digit character, or `None`.
fn hex_val(c: char) -> (v: Option<u8>)
    ensures
        v == hex_digit_val(c),
{
    let u = c as u32;
    if 48 <= u && u <= 57 {
        Some((u - 48) as u8)
    } else if 97 <= u && u <= 102 {
        Some((u - 87) as u8)
    } else if 65 <= u && u <= 70 {
        Some((u - 55) as u8)
    } else {
        None
    }
}

/// The channel at characters `i` and `i + 1` of `s`, defaulting to zero.
fn channel_at(s: &str, i: usize) -> (v: u8)
    requires
        i + 1 < usize::MAX,
    ensures
        v == channel_val(s@, i as int),
{
    let n = s.unicode_len();
    if i + 1 < n {
        let hi = hex_val(s.get_char(i));
        let lo = hex_val(s.get_char(i + 1));
        match (hi, lo) {
            (Some(h), Some(l)) => 16 * h + l,
            _ => 0,
        }
    } else {
        0
    }
}

} // verus!
