//! Colours, and parsing them from `#rrggbb` / `#rrggbbaa` strings.

use vstd::prelude::*;
use vstd::string::StringSliceAdditionalSpecFns;

verus! {

/// An 8-bit RGBA colour.
#[derive(Clone, Copy, Debug, PartialEq, Eq, Structural)]
pub struct Color {
    pub r: u8,
    pub g: u8,
    pub b: u8,
    pub a: u8,
}

/// Why a string is not a hex colour.
#[derive(Clone, Copy, Debug, PartialEq, Eq, Structural)]
pub enum ColorDecodeError {
    /// The string does not start with `#`.
    MissingHash,
    /// The string is neither 7 nor 9 bytes long.
    InvalidStrLength,
    /// A character after `#` is not a hexadecimal digit.
    InvalidHexDigit,
}

/// The byte is an ASCII hexadecimal digit, of either case.
pub open spec fn is_hex_digit(c: u8) -> bool {
    (48 <= c <= 57) || (97 <= c <= 102) || (65 <= c <= 70)
}

/// The value of a hexadecimal digit.
pub open spec fn digit_value(c: u8) -> int {
    if 48 <= c <= 57 {
        c - 48
    } else if 97 <= c <= 102 {
        c - 97 + 10
    } else {
        c - 65 + 10
    }
}

/// The byte written by the two digits at `i` and `i + 1`.
pub open spec fn channel_at(s: Seq<u8>, i: int) -> u8 {
    (16 * digit_value(s[i]) + digit_value(s[i + 1])) as u8
}

/// What `from_hex_str` makes of the bytes `s`: `#` followed by two digits
/// for each of red, green, blue and, if present, alpha (else opaque).
pub open spec fn decode_hex(s: Seq<u8>) -> Result<Color, ColorDecodeError> {
    if s.len() != 7 && s.len() != 9 {
        Err(ColorDecodeError::InvalidStrLength)
    } else if s[0] != 35 {
        Err(ColorDecodeError::MissingHash)
    } else if exists|i: int| 1 <= i < s.len() && !is_hex_digit(#[trigger] s[i]) {
        Err(ColorDecodeError::InvalidHexDigit)
    } else {
        Ok(
            Color {
                r: channel_at(s, 1),
                g: channel_at(s, 3),
                b: channel_at(s, 5),
                a: if s.len() == 9 {
                    channel_at(s, 7)
                } else {
                    255
                },
            },
        )
    }
}

const HASH: u8 = 35;

const DIGIT_0: u8 = 48;

const DIGIT_9: u8 = 57;

const LOWER_A: u8 = 97;

const LOWER_F: u8 = 102;

const UPPER_A: u8 = 65;

const UPPER_F: u8 = 70;

/// The value of one hexadecimal digit, or `None` for any other byte.
fn hex_char_value(c: u8) -> (r: Option<u8>)
    ensures
        is_hex_digit(c) ==> r == Some(digit_value(c) as u8),
        !is_hex_digit(c) ==> r is None,
{
    if DIGIT_0 <= c && c <= DIGIT_9 {
        Some(c - DIGIT_0)
    } else if LOWER_A <= c && c <= LOWER_F {
        Some(c - LOWER_A + 10)
    } else if UPPER_A <= c && c <= UPPER_F {
        Some(c - UPPER_A + 10)
    } else {
        None
    }
}

/// The channel written by the two digits at `i`, which must both be valid.
fn read_channel(bytes: &[u8], i: usize) -> (r: u8)
    requires
        i + 1 < bytes@.len(),
        is_hex_digit(bytes@[i as int]),
        is_hex_digit(bytes@[i + 1]),
    ensures
        r == channel_at(bytes@, i as int),
{
    let high = match hex_char_value(bytes[i]) {
        Some(v) => v,
        None => 0,
    };
    let low = match hex_char_value(bytes[i + 1]) {
        Some(v) => v,
        None => 0,
    };
    high * 16 + low
}

impl Color {
    /// Opaque white.
    pub fn white() -> (c: Self)
        ensures
            c == (Color { r: 255, g: 255, b: 255, a: 255 }),
    {
        Color::rgb(255, 255, 255)
    }

    /// Opaque black.
    pub fn black() -> (c: Self)
        ensures
            c == (Color { r: 0, g: 0, b: 0, a: 255 }),
    {
        Color::rgb(0, 0, 0)
    }

    /// White with no opacity.
    pub fn transparent() -> (c: Self)
        ensures
            c == (Color { r: 255, g: 255, b: 255, a: 0 }),
    {
        Color::rgba(255, 255, 255, 0)
    }

    /// An opaque colour.
    pub fn rgb(r: u8, g: u8, b: u8) -> (c: Self)
        ensures
            c == (Color { r, g, b, a: 255 }),
    {
        Color { r, g, b, a: 255 }
    }

    pub fn rgba(r: u8, g: u8, b: u8, a: u8) -> (c: Self)
        ensures
            c == (Color { r, g, b, a }),
    {
        Color { r, g, b, a }
    }

    /// Parses `#rrggbb` or `#rrggbbaa`, digits of either case.
    pub fn from_hex_str(hex: &str) -> (r: Result<Self, ColorDecodeError>)
        ensures
            r == decode_hex(hex.spec_bytes()),
    {
        let bytes = hex.as_bytes();
        let len = bytes.len();
        let has_alpha = if len == 7 {
            false
        } else if len == 9 {
            true
        } else {
            return Err(ColorDecodeError::InvalidStrLength);
        };

        if bytes[0] != HASH {
            return Err(ColorDecodeError::MissingHash);
        }

        let mut i: usize = 1;
        while i < len
            invariant
                1 <= i <= len,
                len == bytes@.len(),
                bytes@ == hex.spec_bytes(),
                len == 7 || len == 9,
                bytes@[0] == HASH,
                forall|k: int| 1 <= k < i ==> is_hex_digit(#[trigger] bytes@[k]),
            decreases len - i,
        {
            if hex_char_value(bytes[i]).is_none() {
                proof {
                    assert(!is_hex_digit(bytes@[i as int]));
                }
                return Err(ColorDecodeError::InvalidHexDigit);
            }
            i = i + 1;
        }

        let r = read_channel(bytes, 1);
        let g = read_channel(bytes, 3);
        let b = read_channel(bytes, 5);
        let a = if has_alpha {
            read_channel(bytes, 7)
        } else {
            255
        };
        Ok(Color { r, g, b, a })
    }

    /// The channels as `[r, g, b, a]`.
    pub fn to_array(&self) -> (arr: [u8; 4])
        ensures
            arr@ == seq![self.r, self.g, self.b, self.a],
    {
        [self.r, self.g, self.b, self.a]
    }
}

impl Default for Color {
    /// Opaque white.
    fn default() -> (c: Self)
        ensures
            c == (Color { r: 255, g: 255, b: 255, a: 255 }),
    {
        Color::white()
    }
}

impl ColorDecodeError {
    /// A sentence describing the error.
    pub fn message(&self) -> (m: &'static str)
        ensures
            *self == ColorDecodeError::MissingHash ==> m@
                == "Missing '#' at the beginning of the hex color"@,
            *self == ColorDecodeError::InvalidStrLength ==> m@
                == "Hex color string has an invalid length"@,
            *self == ColorDecodeError::InvalidHexDigit ==> m@
                == "Hex color string contains invalid hex digits"@,
    {
        match self {
            ColorDecodeError::MissingHash => "Missing '#' at the beginning of the hex color",
            ColorDecodeError::InvalidStrLength => "Hex color string has an invalid length",
            ColorDecodeError::InvalidHexDigit => "Hex color string contains invalid hex digits",
        }
    }
}

} // verus!
