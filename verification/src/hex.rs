//! Colors written in hexadecimal: `rrggbb` or `rgb`, with any number of
//! leading `#`. Each channel of the short form is its digit times sixteen.
//! A channel is read as std's `u8::from_str_radix(_, 16)` reads it, so a
//! two-byte channel may also be a `+` sign followed by one digit.

use vstd::prelude::*;
use crate::packet::Color;

verus! {

/// Why a hexadecimal color was refused.
#[derive(Debug, Clone, Copy, PartialEq, Eq, Structural)]
pub enum HexColorError {
    /// The text after the leading `#`s is neither 3 nor 6 bytes long; the length it has.
    InvalidLength(usize),
    /// The red channel is not a hexadecimal number.
    InvalidRed,
    /// The green channel is not a hexadecimal number.
    InvalidGreen,
    /// The blue channel is not a hexadecimal number.
    InvalidBlue,
}

/// The value of one hexadecimal digit byte, upper or lower case.
pub open spec fn hex_digit(b: u8) -> Option<u8> {
    if 48 <= b <= 57 {
        Some((b - 48) as u8)
    } else if 97 <= b <= 102 {
        Some((b - 87) as u8)
    } else if 65 <= b <= 70 {
        Some((b - 55) as u8)
    } else {
        None
    }
}

/// A one-byte channel: a single digit (a lone sign is no number).
pub open spec fn hex_single(b0: u8) -> Option<u8> {
    hex_digit(b0)
}

/// A two-byte channel: two digits, or `+` and one digit.
pub open spec fn hex_pair(b0: u8, b1: u8) -> Option<u8> {
    if b0 == 43 {
        hex_digit(b1)
    } else {
        match (hex_digit(b0), hex_digit(b1)) {
            (Some(h), Some(l)) => Some((h * 16 + l) as u8),
            _ => None,
        }
    }
}

/// `s` without its leading `#` bytes.
pub open spec fn strip_hashes(s: Seq<u8>) -> Seq<u8>
    decreases s.len(),
{
    if s.len() > 0 && s[0] == 35 {
        strip_hashes(s.drop_first())
    } else {
        s
    }
}

/// The three channels in order, or the error of the first one that fails.
pub open spec fn channels(
    r: Option<u8>,
    g: Option<u8>,
    b: Option<u8>,
) -> Result<Color, HexColorError> {
    match (r, g, b) {
        (None, _, _) => Err(HexColorError::InvalidRed),
        (Some(_), None, _) => Err(HexColorError::InvalidGreen),
        (Some(_), Some(_), None) => Err(HexColorError::InvalidBlue),
        (Some(r), Some(g), Some(b)) => Ok(Color { r, g, b }),
    }
}

/// The color that the bytes `s` of a hexadecimal color stand for.
pub open spec fn spec_parse_hex_color(s: Seq<u8>) -> Result<Color, HexColorError> {
    let h = strip_hashes(s);
    if h.len() == 6 {
        channels(hex_pair(h[0], h[1]), hex_pair(h[2], h[3]), hex_pair(h[4], h[5]))
    } else if h.len() == 3 {
        channels(
            match hex_single(h[0]) { Some(d) => Some((d * 16) as u8), None => None },
            match hex_single(h[1]) { Some(d) => Some((d * 16) as u8), None => None },
            match hex_single(h[2]) { Some(d) => Some((d * 16) as u8), None => None },
        )
    } else {
        Err(HexColorError::InvalidLength(h.len() as usize))
    }
}

fn hex_digit_of(b: u8) -> (r: Option<u8>)
    ensures
        r == hex_digit(b),
{
    if 48 <= b && b <= 57 {
        Some(b - 48)
    } else if 97 <= b && b <= 102 {
        Some(b - 87)
    } else if 65 <= b && b <= 70 {
        Some(b - 55)
    } else {
        None
    }
}

fn pair_of(b0: u8, b1: u8) -> (r: Option<u8>)
    ensures
        r == hex_pair(b0, b1),
{
    if b0 == 43 {
        hex_digit_of(b1)
    } else {
        match (hex_digit_of(b0), hex_digit_of(b1)) {
            (Some(h), Some(l)) => Some(h * 16 + l),
            _ => None,
        }
    }
}

fn shifted_single(b0: u8) -> (r: Option<u8>)
    ensures
        r == (match hex_single(b0) { Some(d) => Some((d * 16) as u8), None => None }),
{
    match hex_digit_of(b0) {
        Some(d) => Some(d * 16),
        None => None,
    }
}

fn channels_of(r: Option<u8>, g: Option<u8>, b: Option<u8>) -> (c: Result<Color, HexColorError>)
    ensures
        c == channels(r, g, b),
{
    match (r, g, b) {
        (None, _, _) => Err(HexColorError::InvalidRed),
        (Some(_), None, _) => Err(HexColorError::InvalidGreen),
        (Some(_), Some(_), None) => Err(HexColorError::InvalidBlue),
        (Some(r), Some(g), Some(b)) => Ok(Color { r, g, b }),
    }
}

/// Reads a color from the bytes of its hexadecimal text (`#rrggbb`, `rgb`, ...).
pub fn parse_hex_color(hex: &[u8]) -> (r: Result<Color, HexColorError>)
    ensures
        r == spec_parse_hex_color(hex@),
{
    let n = hex.len();
    let mut i: usize = 0;
    proof {
        assert(hex@.skip(0) =~= hex@);
    }
    while i < n && hex[i] == 35
        invariant
            n == hex@.len(),
            i <= n,
            strip_hashes(hex@.skip(i as int)) == strip_hashes(hex@),
        decreases n - i,
    {
        proof {
            assert(hex@.skip(i as int).drop_first() =~= hex@.skip(i + 1));
        }
        i = i + 1;
    }
    proof {
        let t = hex@.skip(i as int);
        assert(t.len() == 0 || t[0] != 35);
        assert(strip_hashes(t) == t);
    }
    let len = n - i;
    if len == 6 {
        channels_of(
            pair_of(hex[i], hex[i + 1]),
            pair_of(hex[i + 2], hex[i + 3]),
            pair_of(hex[i + 4], hex[i + 5]),
        )
    } else if len == 3 {
        channels_of(shifted_single(hex[i]), shifted_single(hex[i + 1]), shifted_single(hex[i + 2]))
    } else {
        Err(HexColorError::InvalidLength(len))
    }
}

/// The lower-case hexadecimal digit byte of a value below sixteen.
pub open spec fn hex_char(d: u8) -> u8 {
    if d < 10 {
        (48 + d) as u8
    } else {
        (87 + d) as u8
    }
}

/// The six-digit lower-case hexadecimal text of a color, without `#`.
pub open spec fn hex_text(c: Color) -> Seq<u8> {
    seq![
        hex_char(c.r / 16),
        hex_char(c.r % 16),
        hex_char(c.g / 16),
        hex_char(c.g % 16),
        hex_char(c.b / 16),
        hex_char(c.b % 16),
    ]
}

proof fn lemma_hex_char_digit(d: u8)
    requires
        d < 16,
    ensures
        hex_digit(hex_char(d)) == Some(d),
        hex_char(d) != 43,
{
}

proof fn lemma_hex_pair_of_byte(v: u8)
    ensures
        hex_pair(hex_char(v / 16), hex_char(v % 16)) == Some(v),
{
    lemma_hex_char_digit(v / 16);
    lemma_hex_char_digit(v % 16);
}

/// Writing a color as six hexadecimal digits and reading it back gives the same color.
pub proof fn lemma_hex_text_roundtrip(c: Color)
    ensures
        spec_parse_hex_color(hex_text(c)) == Ok::<Color, HexColorError>(c),
{
    lemma_hex_pair_of_byte(c.r);
    lemma_hex_pair_of_byte(c.g);
    lemma_hex_pair_of_byte(c.b);
    let t = hex_text(c);
    assert(t[0] != 35);
    assert(strip_hashes(t) == t);
}

/// A leading `#` does not change the color that a text stands for.
pub proof fn lemma_hash_prefix_ignored(s: Seq<u8>)
    ensures
        spec_parse_hex_color(seq![35u8] + s) == spec_parse_hex_color(s),
{
    let t = seq![35u8] + s;
    assert(t.drop_first() =~= s);
}

/// The upper-case hexadecimal digit byte of a value below sixteen.
pub open spec fn hex_char_upper(d: u8) -> u8 {
    if d < 10 {
        (48 + d) as u8
    } else {
        (55 + d) as u8
    }
}

/// The six-digit upper-case hexadecimal text of a color, without `#`.
pub open spec fn hex_text_upper(c: Color) -> Seq<u8> {
    seq![
        hex_char_upper(c.r / 16),
        hex_char_upper(c.r % 16),
        hex_char_upper(c.g / 16),
        hex_char_upper(c.g % 16),
        hex_char_upper(c.b / 16),
        hex_char_upper(c.b % 16),
    ]
}

/// Upper-case digits are read as well as lower-case ones: writing a color as
/// six upper-case hexadecimal digits and reading it back gives the same color.
pub proof fn lemma_hex_text_upper_roundtrip(c: Color)
    ensures
        spec_parse_hex_color(hex_text_upper(c)) == Ok::<Color, HexColorError>(c),
{
    let t = hex_text_upper(c);
    assert(t[0] != 35);
    assert(strip_hashes(t) == t);
    assert(c.r == (c.r / 16) * 16 + c.r % 16);
    assert(c.g == (c.g / 16) * 16 + c.g % 16);
    assert(c.b == (c.b / 16) * 16 + c.b % 16);
}

/// The short form `rgb` gives each channel its digit times sixteen, for
/// digits of either case.
pub proof fn lemma_hex_short_form(r: u8, g: u8, b: u8, upper: bool)
    requires
        r < 16,
        g < 16,
        b < 16,
    ensures
        spec_parse_hex_color(
            if upper {
                seq![hex_char_upper(r), hex_char_upper(g), hex_char_upper(b)]
            } else {
                seq![hex_char(r), hex_char(g), hex_char(b)]
            },
        ) == Ok::<Color, HexColorError>(Color { r: (r * 16) as u8, g: (g * 16) as u8, b: (b * 16) as u8 }),
{
    let t = if upper {
        seq![hex_char_upper(r), hex_char_upper(g), hex_char_upper(b)]
    } else {
        seq![hex_char(r), hex_char(g), hex_char(b)]
    };
    assert(t[0] != 35);
    assert(strip_hashes(t) == t);
}

/// A two-byte channel may be a `+` sign and one digit of either case, read
/// as that digit (as std's `u8::from_str_radix` reads it); a lone `+` as a
/// one-byte channel is no number.
pub proof fn lemma_hex_plus_sign(d: u8, upper: bool)
    requires
        d < 16,
    ensures
        spec_parse_hex_color(
            seq![43u8, if upper { hex_char_upper(d) } else { hex_char(d) }, 48u8, 48u8, 48u8, 48u8],
        ) == Ok::<Color, HexColorError>(Color { r: d, g: 0, b: 0 }),
        spec_parse_hex_color(seq![43u8, 48u8, 48u8]) == Err::<Color, HexColorError>(
            HexColorError::InvalidRed,
        ),
{
    let t = seq![43u8, if upper { hex_char_upper(d) } else { hex_char(d) }, 48u8, 48u8, 48u8, 48u8];
    assert(strip_hashes(t) == t);
    let u = seq![43u8, 48u8, 48u8];
    assert(strip_hashes(u) == u);
}

/// A byte that is no hexadecimal digit (nor `+`, nor the `#` that is
/// stripped) makes the first channel fail, in either form.
pub proof fn lemma_non_digit_refused(x: u8)
    requires
        !(48 <= x <= 57 || 97 <= x <= 102 || 65 <= x <= 70),
        x != 43,
        x != 35,
    ensures
        spec_parse_hex_color(seq![x, 48u8, 48u8, 48u8, 48u8, 48u8]) == Err::<Color, HexColorError>(
            HexColorError::InvalidRed,
        ),
        spec_parse_hex_color(seq![48u8, x, 48u8, 48u8, 48u8, 48u8]) == Err::<Color, HexColorError>(
            HexColorError::InvalidRed,
        ),
        spec_parse_hex_color(seq![x, 48u8, 48u8]) == Err::<Color, HexColorError>(
            HexColorError::InvalidRed,
        ),
{
    let t1 = seq![x, 48u8, 48u8, 48u8, 48u8, 48u8];
    assert(strip_hashes(t1) == t1);
    let t2 = seq![48u8, x, 48u8, 48u8, 48u8, 48u8];
    assert(strip_hashes(t2) == t2);
    let t3 = seq![x, 48u8, 48u8];
    assert(strip_hashes(t3) == t3);
}

} // verus!
