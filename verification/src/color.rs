//! RGB colors and their `#rrggbb` hex wire form.

use vstd::prelude::*;
use vstd::string::StringSliceAdditionalSpecFns;

verus! {

/// A 24-bit RGB color, the mergeable `color` field of an update record.
#[derive(Clone, Copy, Debug, PartialEq, Eq, Structural)]
pub struct Color {
    pub r: u8,
    pub g: u8,
    pub b: u8,
}

/// True for the ASCII digits and letters that may stand in a hex triplet.
pub open spec fn is_hex_digit(b: u8) -> bool {
    (0x30u8 <= b <= 0x39u8) || (0x61u8 <= b <= 0x66u8) || (0x41u8 <= b <= 0x46u8)
}

/// Numeric value of one hex digit, either case.
pub open spec fn hex_digit_value(b: u8) -> u8 {
    if 0x30u8 <= b <= 0x39u8 {
        (b - 0x30u8) as u8
    } else if 0x61u8 <= b <= 0x66u8 {
        (b - 0x61u8 + 10) as u8
    } else {
        (b - 0x41u8 + 10) as u8
    }
}

/// True when `s` is a hex color triplet: `#` followed by six hex digits.
pub open spec fn is_hex_color(s: Seq<u8>) -> bool {
    s.len() == 7 && s[0] == 0x23u8 && forall|i: int| 1 <= i < 7 ==> is_hex_digit(#[trigger] s[i])
}

/// The color a well-formed hex triplet denotes.
pub open spec fn color_of_hex(s: Seq<u8>) -> Color {
    Color {
        r: (hex_digit_value(s[1]) * 16 + hex_digit_value(s[2])) as u8,
        g: (hex_digit_value(s[3]) * 16 + hex_digit_value(s[4])) as u8,
        b: (hex_digit_value(s[5]) * 16 + hex_digit_value(s[6])) as u8,
    }
}

/// Lowercase hex digit for a value below sixteen.
pub open spec fn hex_digit_of(v: u8) -> u8
    recommends
        v < 16,
{
    if v < 10 {
        (0x30u8 + v) as u8
    } else {
        (0x61u8 + (v - 10)) as u8
    }
}

/// The canonical (lowercase) hex triplet of a color.
pub open spec fn hex_bytes_of(c: Color) -> Seq<u8> {
    seq![
        0x23u8,
        hex_digit_of(c.r / 16),
        hex_digit_of(c.r % 16),
        hex_digit_of(c.g / 16),
        hex_digit_of(c.g % 16),
        hex_digit_of(c.b / 16),
        hex_digit_of(c.b % 16),
    ]
}

/// How `increment` walks the color space: count the red channel up first,
/// then green, then blue, and restart from half red when all are saturated.
pub open spec fn spec_increment(c: Color) -> Color {
    if c.r < 255 {
        Color { r: (c.r + 1) as u8, g: c.g, b: c.b }
    } else if c.g < 255 {
        Color { r: c.r, g: (c.g + 1) as u8, b: c.b }
    } else if c.b < 255 {
        Color { r: c.r, g: c.g, b: (c.b + 1) as u8 }
    } else {
        Color { r: 128, g: 0, b: 0 }
    }
}

/// Numeric value of one hex digit byte, if it is one.
pub(crate) fn hex_digit(b: u8) -> (r: Option<u8>)
    ensures
        r is Some <==> is_hex_digit(b),
        r is Some ==> r->0 == hex_digit_value(b) && r->0 < 16,
{
    if 0x30u8 <= b && b <= 0x39u8 {
        Some(b - 0x30u8)
    } else if 0x61u8 <= b && b <= 0x66u8 {
        Some(b - 0x61u8 + 10)
    } else if 0x41u8 <= b && b <= 0x46u8 {
        Some(b - 0x41u8 + 10)
    } else {
        None
    }
}

/// Lowercase hex digit byte for a value below sixteen.
fn hex_digit_byte(v: u8) -> (r: u8)
    requires
        v < 16,
    ensures
        r == hex_digit_of(v),
{
    if v < 10 {
        0x30u8 + v
    } else {
        0x61u8 + (v - 10)
    }
}

impl Color {
    /// Black, the color of a fresh scene item.
    pub fn default() -> (c: Color)
        ensures
            c == (Color { r: 0, g: 0, b: 0 }),
    {
        Color { r: 0, g: 0, b: 0 }
    }

    pub fn new(r: u8, g: u8, b: u8) -> (c: Color)
        ensures
            c == (Color { r, g, b }),
    {
        Color { r, g, b }
    }

    pub fn white() -> (c: Color)
        ensures
            c == (Color { r: 255, g: 255, b: 255 }),
    {
        Color { r: 255, g: 255, b: 255 }
    }

    /// Parses a `#rrggbb` triplet, either case; rejects everything else.
    pub fn from_hex(hex: &str) -> (r: Result<Color, ()>)
        ensures
            r is Ok <==> is_hex_color(hex.spec_bytes()),
            r is Ok ==> r->Ok_0 == color_of_hex(hex.spec_bytes()),
    {
        let bytes = hex.as_bytes();
        if bytes.len() != 7 {
            return Err(());
        }
        if bytes[0] != 0x23u8 {
            return Err(());
        }
        let d1 = hex_digit(bytes[1]);
        let d2 = hex_digit(bytes[2]);
        let d3 = hex_digit(bytes[3]);
        let d4 = hex_digit(bytes[4]);
        let d5 = hex_digit(bytes[5]);
        let d6 = hex_digit(bytes[6]);
        match (d1, d2, d3, d4, d5, d6) {
            (Some(h1), Some(h2), Some(h3), Some(h4), Some(h5), Some(h6)) => Ok(
                Color { r: h1 * 16 + h2, g: h3 * 16 + h4, b: h5 * 16 + h6 },
            ),
            _ => Err(()),
        }
    }

    /// The canonical lowercase `#rrggbb` form, as wire bytes.
    pub fn hex_bytes(&self) -> (r: Vec<u8>)
        ensures
            r@ == hex_bytes_of(*self),
    {
        let mut out: Vec<u8> = Vec::new();
        out.push(0x23u8);
        out.push(hex_digit_byte(self.r / 16));
        out.push(hex_digit_byte(self.r % 16));
        out.push(hex_digit_byte(self.g / 16));
        out.push(hex_digit_byte(self.g % 16));
        out.push(hex_digit_byte(self.b / 16));
        out.push(hex_digit_byte(self.b % 16));
        proof {
            assert(out@ =~= hex_bytes_of(*self));
        }
        out
    }

    /// Steps to the next color in the walk described by [`spec_increment`].
    pub fn increment(&mut self)
        ensures
            *final(self) == spec_increment(*old(self)),
    {
        if self.r < 255 {
            self.r += 1;
        } else {
            if self.g < 255 {
                self.g += 1;
            } else {
                if self.b < 255 {
                    self.b += 1;
                } else {
                    self.b = 0;
                    self.r = 128;
                    self.g = 0;
                }
            }
        }
    }
}

/// Law: encoding a color and parsing the result gives the color back;
/// the canonical hex form is always accepted.
pub proof fn lemma_hex_round_trip(c: Color)
    ensures
        is_hex_color(hex_bytes_of(c)),
        color_of_hex(hex_bytes_of(c)) == c,
{
}

} // verus!
