//! Colors and their resolution from names and hex codes.
//!
//! A color expression is either a hex form (`#RRGGBB` or `RRGGBB`,
//! case-insensitive) or one of a fixed table of palette names.  Hex is
//! tried first; an expression matching neither fails.

use vstd::prelude::*;

verus! {

/// An RGB color with three 8-bit channels.  Value type, no identity.
#[derive(Debug, Clone, Copy, PartialEq, Eq, Structural)]
pub struct Color {
    pub r: u8,
    pub g: u8,
    pub b: u8,
}

impl Color {
    /// Pack three channels into a color.
    pub fn new(r: u8, g: u8, b: u8) -> (c: Color)
        ensures
            c == (Color { r, g, b }),
    {
        Color { r, g, b }
    }
}

/// The value of one hex digit, or `None` for any other byte.
pub open spec fn hex_digit(b: u8) -> Option<u8> {
    if 48 <= b && b <= 57 {
        Some((b - 48) as u8)
    } else if 97 <= b && b <= 102 {
        Some((b - 97 + 10) as u8)
    } else if 65 <= b && b <= 70 {
        Some((b - 65 + 10) as u8)
    } else {
        None
    }
}

/// The value of a two-digit hex pair, or `None` if either digit is bad.
pub open spec fn hex_pair(hi: u8, lo: u8) -> Option<u8> {
    match (hex_digit(hi), hex_digit(lo)) {
        (Some(h), Some(l)) => Some((h * 16 + l) as u8),
        _ => None,
    }
}

/// Hex color resolution: an optional `#`, then exactly six hex digits.
pub open spec fn parse_hex_spec(s: Seq<u8>) -> Option<Color> {
    let t = if s.len() > 0 && s[0] == 35 {
        s.skip(1)
    } else {
        s
    };
    if t.len() != 6 {
        None
    } else {
        match (hex_pair(t[0], t[1]), hex_pair(t[2], t[3]), hex_pair(t[4], t[5])) {
            (Some(r), Some(g), Some(b)) => Some(Color { r, g, b }),
            _ => None,
        }
    }
}

/// ASCII lower-casing of one byte.
pub open spec fn lower(b: u8) -> u8 {
    if 65 <= b && b <= 90 {
        (b + 32) as u8
    } else {
        b
    }
}

/// Case-insensitive equality of two byte strings (ASCII folding).
pub open spec fn ieq(a: Seq<u8>, b: Seq<u8>) -> bool {
    a.len() == b.len() && forall|k: int| 0 <= k < a.len() ==> lower(a[k]) == lower(b[k])
}

/// The named palette: each name with its RGB triple, or `None`.
pub open spec fn name_color_spec(s: Seq<u8>) -> Option<Color> {
    if ieq(s, seq![98u8, 108u8, 97u8, 99u8, 107u8]) {
        Some(Color { r: 0, g: 0, b: 0 })
    } else if ieq(s, seq![119u8, 104u8, 105u8, 116u8, 101u8]) {
        Some(Color { r: 255, g: 255, b: 255 })
    } else if ieq(s, seq![114u8, 101u8, 100u8]) {
        Some(Color { r: 255, g: 85, b: 85 })
    } else if ieq(s, seq![103u8, 114u8, 101u8, 101u8, 110u8]) {
        Some(Color { r: 85, g: 255, b: 85 })
    } else if ieq(s, seq![98u8, 108u8, 117u8, 101u8]) {
        Some(Color { r: 85, g: 85, b: 255 })
    } else if ieq(s, seq![99u8, 121u8, 97u8, 110u8]) {
        Some(Color { r: 85, g: 255, b: 255 })
    } else if ieq(s, seq![109u8, 97u8, 103u8, 101u8, 110u8, 116u8, 97u8]) {
        Some(Color { r: 255, g: 85, b: 255 })
    } else if ieq(s, seq![103u8, 111u8, 108u8, 100u8]) {
        Some(Color { r: 255, g: 170, b: 0 })
    } else if ieq(s, seq![121u8, 101u8, 108u8, 108u8, 111u8, 119u8]) {
        Some(Color { r: 255, g: 255, b: 85 })
    } else if ieq(s, seq![103u8, 114u8, 97u8, 121u8]) {
        Some(Color { r: 170, g: 170, b: 170 })
    } else if ieq(s, seq![100u8, 97u8, 114u8, 107u8, 95u8, 103u8, 114u8, 97u8, 121u8]) {
        Some(Color { r: 85, g: 85, b: 85 })
    } else {
        None
    }
}

/// Unified resolution: hex first, then the name table.
pub open spec fn resolve_spec(s: Seq<u8>) -> Option<Color> {
    match parse_hex_spec(s) {
        Some(c) => Some(c),
        None => name_color_spec(s),
    }
}

/// The value of one hex digit byte.
pub fn parse_u8_hex_digit(b: u8) -> (r: Option<u8>)
    ensures
        r == hex_digit(b),
{
    if 48 <= b && b <= 57 {
        Some(b - 48)
    } else if 97 <= b && b <= 102 {
        Some(b - 97 + 10)
    } else if 65 <= b && b <= 70 {
        Some(b - 65 + 10)
    } else {
        None
    }
}

/// Parse a two-digit hex pair into one byte value.
pub fn parse_u8_hex(hi: u8, lo: u8) -> (r: Option<u8>)
    ensures
        r == hex_pair(hi, lo),
{
    match (parse_u8_hex_digit(hi), parse_u8_hex_digit(lo)) {
        (Some(h), Some(l)) => Some(h * 16 + l),
        _ => None,
    }
}

/// Parse `#RRGGBB` or `RRGGBB` into a color.
pub fn parse_hex_color(s: &[u8]) -> (r: Option<Color>)
    ensures
        r == parse_hex_spec(s@),
{
    let skip: usize = if s.len() > 0 && s[0] == 35 {
        1
    } else {
        0
    };
    if s.len() - skip != 6 {
        proof {
            if skip == 1 {
                assert(s@.skip(1).len() != 6);
            }
        }
        return None;
    }
    proof {
        if skip == 1 {
            assert forall|k: int| 0 <= k < 6 implies s@.skip(1)[k] == s@[k + 1] by {}
        }
    }
    let r = parse_u8_hex(s[skip], s[skip + 1]);
    let g = parse_u8_hex(s[skip + 2], s[skip + 3]);
    let b = parse_u8_hex(s[skip + 4], s[skip + 5]);
    match (r, g, b) {
        (Some(r), Some(g), Some(b)) => Some(Color { r, g, b }),
        _ => None,
    }
}

/// Case-insensitive byte-string comparison (ASCII folding).
pub fn eq_ignore_case(a: &[u8], b: &[u8]) -> (r: bool)
    ensures
        r == ieq(a@, b@),
{
    if a.len() != b.len() {
        return false;
    }
    let mut i: usize = 0;
    while i < a.len()
        invariant
            i <= a@.len(),
            a@.len() == b@.len(),
            forall|k: int| 0 <= k < i ==> lower(a@[k]) == lower(b@[k]),
        decreases a@.len() - i,
    {
        let mut c1 = a[i];
        let mut c2 = b[i];
        if c1 >= 65 && c1 <= 90 {
            c1 = c1 + 32;
        }
        if c2 >= 65 && c2 <= 90 {
            c2 = c2 + 32;
        }
        if c1 != c2 {
            return false;
        }
        i = i + 1;
    }
    true
}

/// Look a name up in the palette table.
pub fn color_from_name(name: &[u8]) -> (r: Option<Color>)
    ensures
        r == name_color_spec(name@),
{
    if eq_ignore_case(name, [98, 108, 97, 99, 107].as_slice()) {
        Some(Color { r: 0, g: 0, b: 0 })
    } else if eq_ignore_case(name, [119, 104, 105, 116, 101].as_slice()) {
        Some(Color { r: 255, g: 255, b: 255 })
    } else if eq_ignore_case(name, [114, 101, 100].as_slice()) {
        Some(Color { r: 255, g: 85, b: 85 })
    } else if eq_ignore_case(name, [103, 114, 101, 101, 110].as_slice()) {
        Some(Color { r: 85, g: 255, b: 85 })
    } else if eq_ignore_case(name, [98, 108, 117, 101].as_slice()) {
        Some(Color { r: 85, g: 85, b: 255 })
    } else if eq_ignore_case(name, [99, 121, 97, 110].as_slice()) {
        Some(Color { r: 85, g: 255, b: 255 })
    } else if eq_ignore_case(name, [109, 97, 103, 101, 110, 116, 97].as_slice()) {
        Some(Color { r: 255, g: 85, b: 255 })
    } else if eq_ignore_case(name, [103, 111, 108, 100].as_slice()) {
        Some(Color { r: 255, g: 170, b: 0 })
    } else if eq_ignore_case(name, [121, 101, 108, 108, 111, 119].as_slice()) {
        Some(Color { r: 255, g: 255, b: 85 })
    } else if eq_ignore_case(name, [103, 114, 97, 121].as_slice()) {
        Some(Color { r: 170, g: 170, b: 170 })
    } else if eq_ignore_case(name, [100, 97, 114, 107, 95, 103, 114, 97, 121].as_slice()) {
        Some(Color { r: 85, g: 85, b: 85 })
    } else {
        None
    }
}

/// Resolve a color expression: hex first, then the name table.
pub fn resolve_color(s: &[u8]) -> (r: Option<Color>)
    ensures
        r == resolve_spec(s@),
{
    match parse_hex_color(s) {
        Some(c) => Some(c),
        None => color_from_name(s),
    }
}

} // verus!
