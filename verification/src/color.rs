//! Hex color syntax shared by the renderers: two-digit hex channels as
//! `u8::from_str_radix(.., 16)` reads them (an optional leading `+`, then hex
//! digits), and `#rrggbb` rendering of channel bytes.

use vstd::prelude::*;

verus! {

pub open spec fn is_hex_byte(c: u8) -> bool {
    (0x30 <= c && c <= 0x39) || (0x61 <= c && c <= 0x66) || (0x41 <= c && c <= 0x46)
}

pub open spec fn hex_byte_val(c: u8) -> int {
    if 0x30 <= c && c <= 0x39 {
        c - 0x30
    } else if 0x61 <= c && c <= 0x66 {
        c - 0x61 + 10
    } else {
        c - 0x41 + 10
    }
}

/// A UTF-8 continuation byte: slicing a `str` there panics.
pub open spec fn is_continuation(c: u8) -> bool {
    0x80 <= c && c < 0xC0
}

/// `u8::from_str_radix(t, 16)` for a one- or two-byte slice.
pub open spec fn parse_hex_u8(t: Seq<u8>) -> Option<u8> {
    if t.len() == 1 {
        if is_hex_byte(t[0]) {
            Some(hex_byte_val(t[0]) as u8)
        } else {
            None
        }
    } else if t.len() == 2 {
        if t[0] == 0x2b {
            if is_hex_byte(t[1]) {
                Some(hex_byte_val(t[1]) as u8)
            } else {
                None
            }
        } else if is_hex_byte(t[0]) && is_hex_byte(t[1]) {
            Some((hex_byte_val(t[0]) * 16 + hex_byte_val(t[1])) as u8)
        } else {
            None
        }
    } else {
        None
    }
}

fn hex_byte_exec(c: u8) -> (r: Option<u8>)
    ensures
        r is Some <==> is_hex_byte(c),
        r matches Some(v) ==> v == hex_byte_val(c) && v < 16,
{
    if 0x30 <= c && c <= 0x39 {
        Some(c - 0x30)
    } else if 0x61 <= c && c <= 0x66 {
        Some(c - 0x61 + 10)
    } else if 0x41 <= c && c <= 0x46 {
        Some(c - 0x41 + 10)
    } else {
        None
    }
}

/// Parse the one- or two-byte slice `b[a..e]` as a hex `u8`.
pub fn hex_u8_at(b: &[u8], a: usize, e: usize) -> (r: Option<u8>)
    requires
        a <= e <= b.len(),
    ensures
        r == parse_hex_u8(b@.subrange(a as int, e as int)),
        e - a == 1 ==> (r matches Some(v) ==> v < 16),
{
    let ghost t = b@.subrange(a as int, e as int);
    if e - a == 1 {
        assert(t[0] == b@[a as int]);
        hex_byte_exec(b[a])
    } else if e - a == 2 {
        assert(t[0] == b@[a as int]);
        assert(t[1] == b@[a + 1]);
        if b[a] == 0x2b {
            hex_byte_exec(b[a + 1])
        } else {
            match (hex_byte_exec(b[a]), hex_byte_exec(b[a + 1])) {
                (Some(x), Some(y)) => Some(x * 16 + y),
                _ => None,
            }
        }
    } else {
        None
    }
}

/// Parse the doubled byte `b[a]b[a]` (a short-form `#rgb` digit) as hex.
pub fn hex_u8_doubled(b: &[u8], a: usize) -> (r: Option<u8>)
    requires
        a < b.len(),
    ensures
        r == parse_hex_u8(seq![b@[a as int], b@[a as int]]),
{
    let ghost t = seq![b@[a as int], b@[a as int]];
    assert(t[0] == b@[a as int] && t[1] == b@[a as int]);
    if b[a] == 0x2b {
        assert(!is_hex_byte(b@[a as int]));
        None
    } else {
        match hex_byte_exec(b[a]) {
            Some(x) => Some(x * 16 + x),
            None => None,
        }
    }
}

/// Upper-case hex digit character.
pub open spec fn hex_digit_upper(d: int) -> char {
    if d < 10 {
        ((d + 48) as u32) as char
    } else {
        ((d + 55) as u32) as char
    }
}

/// Lower-case hex digit character.
pub open spec fn hex_digit_lower(d: int) -> char {
    if d < 10 {
        ((d + 48) as u32) as char
    } else {
        ((d + 87) as u32) as char
    }
}

/// `{:02X}` / `{:02x}` of a byte.
pub open spec fn hex2(v: u8, upper: bool) -> Seq<char> {
    if upper {
        seq![hex_digit_upper((v / 16) as int), hex_digit_upper((v % 16) as int)]
    } else {
        seq![hex_digit_lower((v / 16) as int), hex_digit_lower((v % 16) as int)]
    }
}

/// `#rrggbb` with two hex digits per channel.
pub open spec fn hex_color(r: u8, g: u8, b: u8, upper: bool) -> Seq<char> {
    seq!['#'] + hex2(r, upper) + hex2(g, upper) + hex2(b, upper)
}

fn digit(d: u8, upper: bool) -> (r: char)
    requires
        d < 16,
    ensures
        r == if upper {
            hex_digit_upper(d as int)
        } else {
            hex_digit_lower(d as int)
        },
{
    if d < 10 {
        (d + 48) as char
    } else if upper {
        (d + 55) as char
    } else {
        (d + 87) as char
    }
}

/// Render channel bytes as `#rrggbb` (upper- or lower-case digits).
pub fn format_hex_color(r: u8, g: u8, b: u8, upper: bool) -> (s: String)
    ensures
        s@ == hex_color(r, g, b, upper),
{
    let mut out: Vec<char> = Vec::new();
    out.push('#');
    out.push(digit(r / 16, upper));
    out.push(digit(r % 16, upper));
    out.push(digit(g / 16, upper));
    out.push(digit(g % 16, upper));
    out.push(digit(b / 16, upper));
    out.push(digit(b % 16, upper));
    assert(out@ =~= hex_color(r, g, b, upper));
    crate::text::string_of(out.as_slice())
}

} // verus!
