//! Colors of the configuration, written `#RRGGBB` or `#RRGGBBAA`.

use vstd::prelude::*;
use vstd::string::*;

verus! {

/// A color with red, green, blue and alpha channels, in that order.
#[derive(Clone, Copy, Debug, Eq, PartialEq)]
pub struct Color([u8; 4]);

/// A text that is not a color.
#[derive(Clone, Copy, Debug, Eq, PartialEq, Structural)]
pub struct ParseColorError;

impl ParseColorError {
    /// The message shown to the user.
    pub fn to_string(&self) -> (message: String)
        ensures
            message@ == "expected #RRGGBB or #RRGGBBAA"@,
    {
        String::from_str("expected #RRGGBB or #RRGGBBAA")
    }
}

impl Color {
    /// The channels: red, green, blue, alpha.
    pub closed spec fn spec_channels(self) -> Seq<u8> {
        self.0@
    }

    pub fn rgb(red: u8, green: u8, blue: u8) -> (color: Self)
        ensures
            color.spec_channels() == seq![red, green, blue, 255u8],
    {
        Color([red, green, blue, 255])
    }

    pub fn rgba(red: u8, green: u8, blue: u8, alpha: u8) -> (color: Self)
        ensures
            color.spec_channels() == seq![red, green, blue, alpha],
    {
        Color([red, green, blue, alpha])
    }

    pub fn channels(self) -> (channels: [u8; 4])
        ensures
            channels@ == self.spec_channels(),
    {
        self.0
    }

    /// Two colors are the same color exactly when their four channels agree.
    pub proof fn lemma_equal_iff_channels_equal(self, other: Self)
        ensures
            self == other <==> self.spec_channels() == other.spec_channels(),
    {
        broadcast use vstd::array::group_array_axioms;

        if self.spec_channels() == other.spec_channels() {
            assert(self.0 =~= other.0);
        }
    }

    /// Parses `#RRGGBB` or `#RRGGBBAA`, where each channel is two hexadecimal digits.
    ///
    /// Any other text, including one with characters outside ASCII, is an error.
    pub fn from_str(value: &str) -> (result: Result<Self, ParseColorError>)
        ensures
            match color_from_bytes(value.spec_bytes()) {
                Some(channels) => result matches Ok(color) && color.spec_channels() == channels,
                None => result is Err,
            },
    {
        let bytes = value.as_bytes();
        let length = bytes.len();
        if length == 0 || bytes[0] != 0x23 {
            return Err(ParseColorError);
        }
        if length != 7 && length != 9 {
            return Err(ParseColorError);
        }
        let red = match parse_channel(bytes[1], bytes[2]) {
            Some(value) => value,
            None => {
                return Err(ParseColorError);
            },
        };
        let green = match parse_channel(bytes[3], bytes[4]) {
            Some(value) => value,
            None => {
                return Err(ParseColorError);
            },
        };
        let blue = match parse_channel(bytes[5], bytes[6]) {
            Some(value) => value,
            None => {
                return Err(ParseColorError);
            },
        };
        let alpha = if length == 9 {
            match parse_channel(bytes[7], bytes[8]) {
                Some(value) => value,
                None => {
                    return Err(ParseColorError);
                },
            }
        } else {
            255
        };
        Ok(Color::rgba(red, green, blue, alpha))
    }
}

/// The value of a hexadecimal digit, upper or lower case.
pub open spec fn hex_digit(byte: u8) -> Option<u8> {
    if 0x30 <= byte <= 0x39 {
        Some((byte - 0x30) as u8)
    } else if 0x61 <= byte <= 0x66 {
        Some((byte - 0x61 + 10) as u8)
    } else if 0x41 <= byte <= 0x46 {
        Some((byte - 0x41 + 10) as u8)
    } else {
        None
    }
}

/// The value of a two-byte channel: two hexadecimal digits, high digit first.
pub open spec fn channel_value(high: u8, low: u8) -> Option<u8> {
    match (hex_digit(high), hex_digit(low)) {
        (Some(h), Some(l)) => Some((16 * h + l) as u8),
        _ => None,
    }
}

/// The channels that the UTF-8 bytes of a color text denote, if any.
pub open spec fn color_from_bytes(bytes: Seq<u8>) -> Option<Seq<u8>> {
    if bytes.len() == 0 || bytes[0] != 0x23 || (bytes.len() != 7 && bytes.len() != 9) {
        None
    } else {
        let alpha = if bytes.len() == 9 {
            channel_value(bytes[7], bytes[8])
        } else {
            Some(255u8)
        };
        match (
            channel_value(bytes[1], bytes[2]),
            channel_value(bytes[3], bytes[4]),
            channel_value(bytes[5], bytes[6]),
            alpha,
        ) {
            (Some(r), Some(g), Some(b), Some(a)) => Some(seq![r, g, b, a]),
            _ => None,
        }
    }
}

fn hex_digit_value(byte: u8) -> (digit: Option<u8>)
    ensures
        digit == hex_digit(byte),
{
    if 0x30 <= byte && byte <= 0x39 {
        Some(byte - 0x30)
    } else if 0x61 <= byte && byte <= 0x66 {
        Some(byte - 0x61 + 10)
    } else if 0x41 <= byte && byte <= 0x46 {
        Some(byte - 0x41 + 10)
    } else {
        None
    }
}

fn parse_channel(high: u8, low: u8) -> (value: Option<u8>)
    ensures
        value == channel_value(high, low),
{
    match (hex_digit_value(high), hex_digit_value(low)) {
        (Some(h), Some(l)) => Some(16 * h + l),
        _ => None,
    }
}

/// The lower-case hexadecimal digits `0`-`9`, `a`-`f`, as ASCII bytes.
pub open spec fn lower_hex_digits() -> Seq<u8> {
    seq![48u8, 49, 50, 51, 52, 53, 54, 55, 56, 57, 97, 98, 99, 100, 101, 102]
}

/// The upper-case hexadecimal digits `0`-`9`, `A`-`F`, as ASCII bytes.
pub open spec fn upper_hex_digits() -> Seq<u8> {
    seq![48u8, 49, 50, 51, 52, 53, 54, 55, 56, 57, 65, 66, 67, 68, 69, 70]
}

/// A byte written as two digits of `digits`, high digit first.
pub open spec fn hex_pair(value: u8, digits: Seq<u8>) -> Seq<u8> {
    seq![digits[value as int / 16], digits[value as int % 16]]
}

/// `#RRGGBB` written with `digits`.
pub open spec fn color_text(red: u8, green: u8, blue: u8, digits: Seq<u8>) -> Seq<u8> {
    seq![35u8] + hex_pair(red, digits) + hex_pair(green, digits) + hex_pair(blue, digits)
}

proof fn lemma_digit_tables(d: int)
    requires
        0 <= d < 16,
    ensures
        hex_digit(lower_hex_digits()[d]) == Some(d as u8),
        hex_digit(upper_hex_digits()[d]) == Some(d as u8),
{
}

proof fn lemma_pair_parses(value: u8, digits: Seq<u8>)
    requires
        digits == lower_hex_digits() || digits == upper_hex_digits(),
    ensures
        channel_value(hex_pair(value, digits)[0], hex_pair(value, digits)[1]) == Some(value),
{
    lemma_digit_tables(value as int / 16);
    lemma_digit_tables(value as int % 16);
}

/// Every hexadecimal digit, in either case, is read with its value, and nothing
/// else is a digit: a byte has a digit value exactly when it is the lower- or
/// upper-case digit of that value.
pub proof fn lemma_hex_digits_exactly(byte: u8)
    ensures
        forall|d: int| 0 <= d < 16 ==> #[trigger] hex_digit(lower_hex_digits()[d]) == Some(d as u8)
            && hex_digit(upper_hex_digits()[d]) == Some(d as u8),
        hex_digit(byte) matches Some(d) ==> d < 16 && (byte == lower_hex_digits()[d as int]
            || byte == upper_hex_digits()[d as int]),
{
    assert forall|d: int| 0 <= d < 16 implies #[trigger] hex_digit(lower_hex_digits()[d]) == Some(
        d as u8,
    ) && hex_digit(upper_hex_digits()[d]) == Some(d as u8) by {
        lemma_digit_tables(d);
    }
}

/// Writing any color as `#RRGGBB` or `#RRGGBBAA` with lower- or upper-case
/// hexadecimal digits and parsing it gives back its channels (alpha 255 when it
/// is not written).
pub proof fn lemma_written_colors_parse(red: u8, green: u8, blue: u8, alpha: u8, digits: Seq<u8>)
    requires
        digits == lower_hex_digits() || digits == upper_hex_digits(),
    ensures
        color_from_bytes(color_text(red, green, blue, digits)) == Some(seq![red, green, blue, 255u8]),
        color_from_bytes(color_text(red, green, blue, digits) + hex_pair(alpha, digits)) == Some(
            seq![red, green, blue, alpha],
        ),
{
    lemma_pair_parses(red, digits);
    lemma_pair_parses(green, digits);
    lemma_pair_parses(blue, digits);
    lemma_pair_parses(alpha, digits);
    let text = color_text(red, green, blue, digits);
    let long = text + hex_pair(alpha, digits);
    assert(text.len() == 7);
    assert(text[0] == 35u8 && text[1] == hex_pair(red, digits)[0] && text[2] == hex_pair(red, digits)[1]);
    assert(text[3] == hex_pair(green, digits)[0] && text[4] == hex_pair(green, digits)[1]);
    assert(text[5] == hex_pair(blue, digits)[0] && text[6] == hex_pair(blue, digits)[1]);
    assert(long.len() == 9);
    assert(long[7] == hex_pair(alpha, digits)[0] && long[8] == hex_pair(alpha, digits)[1]);
    assert(color_from_bytes(text) =~= Some(seq![red, green, blue, 255u8]));
    assert(color_from_bytes(long) =~= Some(seq![red, green, blue, alpha]));
}

} // verus!
