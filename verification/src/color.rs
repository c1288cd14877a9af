//! Colors: the RGB(A) value carried by block decorations, its two wire
//! encodings (one per renderer dialect) and its three textual parsers.

use vstd::prelude::*;

use crate::text::{push_char, str_to_chars};

verus! {

/// An RGB color with an optional alpha channel.
#[derive(Clone, Copy, Debug, PartialEq, Eq, Structural)]
pub struct Color {
    pub r: u8,
    pub g: u8,
    pub b: u8,
    pub a: Option<u8>,
}

// ---------------------------------------------------------------------------
// hex digits
// ---------------------------------------------------------------------------

/// Whether `c` is a hexadecimal digit (either case).
pub open spec fn is_hex_digit(c: char) -> bool {
    ('0' <= c && c <= '9') || ('a' <= c && c <= 'f') || ('A' <= c && c <= 'F')
}

/// The numeric value of a hexadecimal digit.
pub open spec fn hex_value(c: char) -> nat
    recommends
        is_hex_digit(c),
{
    if '0' <= c && c <= '9' {
        (c as nat - '0' as nat) as nat
    } else if 'a' <= c && c <= 'f' {
        (c as nat - 'a' as nat + 10) as nat
    } else {
        (c as nat - 'A' as nat + 10) as nat
    }
}

/// The upper-case hexadecimal digit for a value below 16.
pub open spec fn hex_digit(n: nat) -> char
    recommends
        n < 16,
{
    if n < 10 {
        (('0' as nat + n) as u8) as char
    } else if n < 16 {
        (('A' as nat + n - 10) as u8) as char
    } else {
        '0'
    }
}

/// The two upper-case hexadecimal digits of a byte, high nibble first.
pub open spec fn hex_byte(b: u8) -> Seq<char> {
    seq![hex_digit(b as nat / 16), hex_digit(b as nat % 16)]
}

fn hex_digit_char(n: u8) -> (c: char)
    requires
        n < 16,
    ensures
        c == hex_digit(n as nat),
{
    if n < 10 {
        (('0' as u8) + n) as char
    } else {
        (('A' as u8) + (n - 10)) as char
    }
}

fn push_hex_byte(s: &mut String, b: u8)
    ensures
        final(s)@ == old(s)@ + hex_byte(b),
{
    push_char(s, hex_digit_char(b / 16));
    push_char(s, hex_digit_char(b % 16));
    assert(final(s)@ =~= old(s)@ + hex_byte(b));
}

/// The numeric value of a hexadecimal digit character, or `None`.
pub fn hex_digit_value(c: char) -> (r: Option<u8>)
    ensures
        r is Some <==> is_hex_digit(c),
        r is Some ==> r->0 == hex_value(c) && r->0 < 16,
{
    let n = c as u32;
    if n >= '0' as u32 && n <= '9' as u32 {
        Some((n - '0' as u32) as u8)
    } else if n >= 'a' as u32 && n <= 'f' as u32 {
        Some((n - 'a' as u32 + 10) as u8)
    } else if n >= 'A' as u32 && n <= 'F' as u32 {
        Some((n - 'A' as u32 + 10) as u8)
    } else {
        None
    }
}

// ---------------------------------------------------------------------------
// encoding
// ---------------------------------------------------------------------------

/// The lemonbar dialect encoding of a color: `#RRGGBB`, or `#AARRGGBB`
/// when an alpha channel is present.
pub open spec fn lemonbar_code(c: Color) -> Seq<char> {
    match c.a {
        Option::Some(a) => seq!['#'] + hex_byte(a) + hex_byte(c.r) + hex_byte(c.g) + hex_byte(c.b),
        Option::None => seq!['#'] + hex_byte(c.r) + hex_byte(c.g) + hex_byte(c.b),
    }
}

/// The zelbar dialect encoding of a color: `0xRRGGBB`, or `0xRRGGBBAA`
/// when an alpha channel is present.
pub open spec fn zelbar_code(c: Color) -> Seq<char> {
    match c.a {
        Option::Some(a) => seq!['0', 'x'] + hex_byte(c.r) + hex_byte(c.g) + hex_byte(c.b) + hex_byte(
            a,
        ),
        Option::None => seq!['0', 'x'] + hex_byte(c.r) + hex_byte(c.g) + hex_byte(c.b),
    }
}

impl Color {
    /// The default palette's black.
    pub fn black() -> (r: Color)
        ensures
            r == (Color { r: 0x18, g: 0x18, b: 0x18, a: None }),
    {
        Color { r: 0x18, g: 0x18, b: 0x18, a: None }
    }

    /// The default palette's red.
    pub fn red() -> (r: Color)
        ensures
            r == (Color { r: 0xf0, g: 0x71, b: 0x78, a: None }),
    {
        Color { r: 0xf0, g: 0x71, b: 0x78, a: None }
    }

    /// The default palette's green.
    pub fn green() -> (r: Color)
        ensures
            r == (Color { r: 0xa1, g: 0xb5, b: 0x6c, a: None }),
    {
        Color { r: 0xa1, g: 0xb5, b: 0x6c, a: None }
    }

    /// The default palette's yellow.
    pub fn yellow() -> (r: Color)
        ensures
            r == (Color { r: 0xe3, g: 0xb9, b: 0x7d, a: None }),
    {
        Color { r: 0xe3, g: 0xb9, b: 0x7d, a: None }
    }

    /// The default palette's blue.
    pub fn blue() -> (r: Color)
        ensures
            r == (Color { r: 0x7c, g: 0xaf, b: 0xc2, a: None }),
    {
        Color { r: 0x7c, g: 0xaf, b: 0xc2, a: None }
    }

    /// The default palette's magenta.
    pub fn magenta() -> (r: Color)
        ensures
            r == (Color { r: 0xba, g: 0x8b, b: 0xaf, a: None }),
    {
        Color { r: 0xba, g: 0x8b, b: 0xaf, a: None }
    }

    /// The default palette's cyan.
    pub fn cyan() -> (r: Color)
        ensures
            r == (Color { r: 0x86, g: 0xc1, b: 0xb9, a: None }),
    {
        Color { r: 0x86, g: 0xc1, b: 0xb9, a: None }
    }

    /// The default palette's white.
    pub fn white() -> (r: Color)
        ensures
            r == (Color { r: 0xd8, g: 0xd8, b: 0xd8, a: None }),
    {
        Color { r: 0xd8, g: 0xd8, b: 0xd8, a: None }
    }

    /// Whether the color carries an alpha channel.
    pub fn has_transparency(&self) -> (r: bool)
        ensures
            r == (self.a is Some),
    {
        self.a.is_some()
    }

    /// The lemonbar encoding of this color.
    pub fn to_code(&self) -> (r: String)
        ensures
            r@ == lemonbar_code(*self),
    {
        let mut s = String::new();
        push_char(&mut s, '#');
        match self.a {
            Option::Some(a) => push_hex_byte(&mut s, a),
            Option::None => (),
        }
        push_hex_byte(&mut s, self.r);
        push_hex_byte(&mut s, self.g);
        push_hex_byte(&mut s, self.b);
        assert(s@ =~= lemonbar_code(*self));
        s
    }

    /// The zelbar encoding of this color.
    pub fn to_hex(&self) -> (r: String)
        ensures
            r@ == zelbar_code(*self),
    {
        let mut s = String::new();
        push_char(&mut s, '0');
        push_char(&mut s, 'x');
        push_hex_byte(&mut s, self.r);
        push_hex_byte(&mut s, self.g);
        push_hex_byte(&mut s, self.b);
        match self.a {
            Option::Some(a) => push_hex_byte(&mut s, a),
            Option::None => (),
        }
        assert(s@ =~= zelbar_code(*self));
        s
    }
}

// ---------------------------------------------------------------------------
// parsing
// ---------------------------------------------------------------------------

/// The byte denoted by two hex digits at `i`, or `None`.
pub open spec fn hex_pair_at(s: Seq<char>, i: int) -> Option<u8> {
    if 0 <= i && i + 2 <= s.len() && is_hex_digit(s[i]) && is_hex_digit(s[i + 1]) {
        Some((hex_value(s[i]) * 16 + hex_value(s[i + 1])) as u8)
    } else {
        None
    }
}

/// Three hex byte pairs and an optional fourth, read from the front:
/// the channel values and how many characters they take (6 or 8).
pub open spec fn spec_parse_rgba(s: Seq<char>) -> Option<(u8, u8, u8, Option<u8>, int)> {
    match (hex_pair_at(s, 0), hex_pair_at(s, 2), hex_pair_at(s, 4)) {
        (Some(h0), Some(h1), Some(h2)) => match hex_pair_at(s, 6) {
            Some(h3) => Some((h0, h1, h2, Some(h3), 8)),
            None => Some((h0, h1, h2, None, 6)),
        },
        _ => None,
    }
}

/// A color literal at the front of `s`, in either dialect: `#` with the
/// alpha pair first, or `0x` with the alpha pair last. The result pairs
/// the color with how many characters it took.
pub open spec fn spec_parse_color(s: Seq<char>) -> Option<(Color, int)> {
    if s.len() >= 1 && s[0] == '#' {
        match spec_parse_rgba(s.skip(1)) {
            Some((h0, h1, h2, Some(h3), n)) => Some(
                (Color { r: h1, g: h2, b: h3, a: Some(h0) }, 1 + n),
            ),
            Some((h0, h1, h2, None, n)) => Some((Color { r: h0, g: h1, b: h2, a: None }, 1 + n)),
            None => None,
        }
    } else if s.len() >= 2 && s[0] == '0' && s[1] == 'x' {
        match spec_parse_rgba(s.skip(2)) {
            Some((h0, h1, h2, a, n)) => Some((Color { r: h0, g: h1, b: h2, a }, 2 + n)),
            None => None,
        }
    } else {
        None
    }
}

/// The byte denoted by the two hex digits at `i`, or `None`.
fn parse_hex_pair(chars: &Vec<char>, i: usize) -> (r: Option<u8>)
    ensures
        r == hex_pair_at(chars@, i as int),
{
    if i < chars.len() && chars.len() - i >= 2 {
        match (hex_digit_value(chars[i]), hex_digit_value(chars[i + 1])) {
            (Option::Some(a), Option::Some(b)) => Some(a * 16 + b),
            _ => None,
        }
    } else {
        None
    }
}

/// The color literal at position `pos` of `chars`, with how many
/// characters it takes.
#[verifier::rlimit(50)]
pub(crate) fn color_at(chars: &Vec<char>, pos: usize) -> (r: Option<(Color, usize)>)
    requires
        pos <= chars@.len(),
    ensures
        r is Some <==> spec_parse_color(chars@.skip(pos as int)) is Some,
        r matches Some(p) ==> spec_parse_color(chars@.skip(pos as int)) == Some(
            (p.0, p.1 as int),
        ) && pos + p.1 <= chars@.len() && p.1 >= 1,
{
    let n = chars.len();
    let ghost rest = chars@.skip(pos as int);
    proof {
        assert(forall|j: int| 0 <= j < rest.len() ==> rest[j] == chars@[pos + j]);
    }
    let (start, alpha_first) = if n - pos >= 1 && chars[pos] == '#' {
        (pos + 1, true)
    } else if n - pos >= 2 && chars[pos] == '0' && chars[pos + 1] == 'x' {
        (pos + 2, false)
    } else {
        return None;
    };
    let ghost tail = chars@.skip(start as int);
    proof {
        assert(tail =~= rest.skip(start - pos));
        assert(forall|j: int| 0 <= j < tail.len() ==> tail[j] == chars@[start + j]);
        assert(hex_pair_at(tail, 0) == hex_pair_at(chars@, start as int));
        assert(hex_pair_at(tail, 2) == hex_pair_at(chars@, start + 2));
        assert(hex_pair_at(tail, 4) == hex_pair_at(chars@, start + 4));
        assert(hex_pair_at(tail, 6) == hex_pair_at(chars@, start + 6));
    }
    if n - start < 6 {
        proof {
            assert(hex_pair_at(tail, 4) is None);
        }
        return None;
    }
    let h0 = parse_hex_pair(chars, start);
    let h1 = parse_hex_pair(chars, start + 2);
    let h2 = parse_hex_pair(chars, start + 4);
    match (h0, h1, h2) {
        (Option::Some(h0), Option::Some(h1), Option::Some(h2)) => {
            let h3 = parse_hex_pair(chars, start + 6);
            let consumed: usize = match h3 {
                Option::Some(_) => start + 8 - pos,
                Option::None => start + 6 - pos,
            };
            let color = if alpha_first {
                match h3 {
                    Option::Some(h3) => Color { r: h1, g: h2, b: h3, a: Some(h0) },
                    Option::None => Color { r: h0, g: h1, b: h2, a: None },
                }
            } else {
                Color { r: h0, g: h1, b: h2, a: h3 }
            };
            Some((color, consumed))
        },
        _ => None,
    }
}

impl Color {
    /// Reads a color literal from the front of `s` in either renderer
    /// dialect, returning the color and the rest of the string.
    pub fn parse<'a>(s: &'a str) -> (r: Option<(Color, &'a str)>)
        ensures
            r is Some <==> spec_parse_color(s@) is Some,
            r matches Some(p) ==> spec_parse_color(s@) matches Some(q) && p.0 == q.0 && p.1@
                == s@.skip(q.1),
    {
        let chars = str_to_chars(s);
        proof {
            assert(chars@.skip(0) =~= s@);
        }
        match color_at(&chars, 0) {
            Option::Some((c, consumed)) => {
                let rest = s.substring_char(consumed, s.unicode_len());
                Some((c, rest))
            },
            Option::None => None,
        }
    }
}

/// Why a configuration color failed to parse.
#[derive(Debug, Clone, Copy, PartialEq, Eq, Structural)]
pub enum ColorError {
    /// The value does not start with `#`.
    MissingHash,
    /// A channel holds a character that is not a hex digit.
    InvalidDigit,
    /// The part after `#` is not 3, 4, 6 or 8 characters long.
    InvalidLength,
}

/// One hex digit at `i` read as a whole channel: the digit scaled to
/// the high nibble, as short color forms denote it.
pub open spec fn hex_single_at(s: Seq<char>, i: int) -> Option<u8> {
    if 0 <= i < s.len() && is_hex_digit(s[i]) {
        Some((hex_value(s[i]) * 16) as u8)
    } else {
        None
    }
}

/// A configuration color: `#` followed by 3, 4, 6 or 8 hex digits —
/// rgb, rgba, rrggbb or rrggbbaa, single digits scaled to the high
/// nibble.
pub open spec fn spec_parse_config_color(s: Seq<char>) -> Result<Color, ColorError> {
    if s.len() == 0 || s[0] != '#' {
        Err(ColorError::MissingHash)
    } else {
        let t = s.skip(1);
        if t.len() == 3 {
            match (hex_single_at(t, 0), hex_single_at(t, 1), hex_single_at(t, 2)) {
                (Some(r), Some(g), Some(b)) => Ok(Color { r, g, b, a: None }),
                _ => Err(ColorError::InvalidDigit),
            }
        } else if t.len() == 4 {
            match (
                hex_single_at(t, 0),
                hex_single_at(t, 1),
                hex_single_at(t, 2),
                hex_single_at(t, 3),
            ) {
                (Some(r), Some(g), Some(b), Some(a)) => Ok(Color { r, g, b, a: Some(a) }),
                _ => Err(ColorError::InvalidDigit),
            }
        } else if t.len() == 6 {
            match (hex_pair_at(t, 0), hex_pair_at(t, 2), hex_pair_at(t, 4)) {
                (Some(r), Some(g), Some(b)) => Ok(Color { r, g, b, a: None }),
                _ => Err(ColorError::InvalidDigit),
            }
        } else if t.len() == 8 {
            match (hex_pair_at(t, 0), hex_pair_at(t, 2), hex_pair_at(t, 4), hex_pair_at(t, 6)) {
                (Some(r), Some(g), Some(b), Some(a)) => Ok(Color { r, g, b, a: Some(a) }),
                _ => Err(ColorError::InvalidDigit),
            }
        } else {
            Err(ColorError::InvalidLength)
        }
    }
}

/// One hex digit at `i` read as a whole channel.
fn parse_hex_single(chars: &Vec<char>, i: usize) -> (r: Option<u8>)
    ensures
        r == hex_single_at(chars@, i as int),
{
    if i < chars.len() {
        match hex_digit_value(chars[i]) {
            Option::Some(v) => Some(v * 16),
            Option::None => None,
        }
    } else {
        None
    }
}

impl Color {
    /// Reads a configuration color value.
    pub fn parse_config(s: &str) -> (r: Result<Color, ColorError>)
        ensures
            r == spec_parse_config_color(s@),
    {
        let chars = str_to_chars(s);
        let n = chars.len();
        if n == 0 || chars[0] != '#' {
            return Err(ColorError::MissingHash);
        }
        let ghost t = s@.skip(1);
        proof {
            assert(forall|j: int| 0 <= j < t.len() ==> t[j] == s@[1 + j]);
            assert(hex_single_at(t, 0) == hex_single_at(s@, 1));
            assert(hex_single_at(t, 1) == hex_single_at(s@, 2));
            assert(hex_single_at(t, 2) == hex_single_at(s@, 3));
            assert(hex_single_at(t, 3) == hex_single_at(s@, 4));
            assert(hex_pair_at(t, 0) == hex_pair_at(s@, 1));
            assert(hex_pair_at(t, 2) == hex_pair_at(s@, 3));
            assert(hex_pair_at(t, 4) == hex_pair_at(s@, 5));
            assert(hex_pair_at(t, 6) == hex_pair_at(s@, 7));
        }
        if n == 4 {
            match (
                parse_hex_single(&chars, 1),
                parse_hex_single(&chars, 2),
                parse_hex_single(&chars, 3),
            ) {
                (Option::Some(r), Option::Some(g), Option::Some(b)) => Ok(
                    Color { r, g, b, a: None },
                ),
                _ => Err(ColorError::InvalidDigit),
            }
        } else if n == 5 {
            match (
                parse_hex_single(&chars, 1),
                parse_hex_single(&chars, 2),
                parse_hex_single(&chars, 3),
                parse_hex_single(&chars, 4),
            ) {
                (Option::Some(r), Option::Some(g), Option::Some(b), Option::Some(a)) => Ok(
                    Color { r, g, b, a: Some(a) },
                ),
                _ => Err(ColorError::InvalidDigit),
            }
        } else if n == 7 {
            match (
                parse_hex_pair(&chars, 1),
                parse_hex_pair(&chars, 3),
                parse_hex_pair(&chars, 5),
            ) {
                (Option::Some(r), Option::Some(g), Option::Some(b)) => Ok(
                    Color { r, g, b, a: None },
                ),
                _ => Err(ColorError::InvalidDigit),
            }
        } else if n == 9 {
            match (
                parse_hex_pair(&chars, 1),
                parse_hex_pair(&chars, 3),
                parse_hex_pair(&chars, 5),
                parse_hex_pair(&chars, 7),
            ) {
                (Option::Some(r), Option::Some(g), Option::Some(b), Option::Some(a)) => Ok(
                    Color { r, g, b, a: Some(a) },
                ),
                _ => Err(ColorError::InvalidDigit),
            }
        } else {
            Err(ColorError::InvalidLength)
        }
    }
}

} // verus!
