//! The GSM 03.38 default alphabet and its extension table.
use vstd::prelude::*;

verus! {

/// The default alphabet, apart from ASCII letters and digits: the code of a character.
pub open spec fn spec_base_code(c: char) -> Option<u8> {
    match c {
        '@' => Some(0x00),
        '\u{00A3}' => Some(0x01),
        '$' => Some(0x02),
        '\u{00A5}' => Some(0x03),
        '\u{00E8}' => Some(0x04),
        '\u{00E9}' => Some(0x05),
        '\u{00F9}' => Some(0x06),
        '\u{00EC}' => Some(0x07),
        '\u{00F2}' => Some(0x08),
        '\u{00C7}' => Some(0x09),
        '\n' => Some(0x0A),
        '\u{00D8}' => Some(0x0B),
        '\u{00F8}' => Some(0x0C),
        '\r' => Some(0x0D),
        '\u{00C5}' => Some(0x0E),
        '\u{00E5}' => Some(0x0F),
        '\u{0394}' => Some(0x10),
        '_' => Some(0x11),
        '\u{03A6}' => Some(0x12),
        '\u{0393}' => Some(0x13),
        '\u{039B}' => Some(0x14),
        '\u{03A9}' => Some(0x15),
        '\u{03A0}' => Some(0x16),
        '\u{03A8}' => Some(0x17),
        '\u{03A3}' => Some(0x18),
        '\u{0398}' => Some(0x19),
        '\u{039E}' => Some(0x1A),
        '\u{00C6}' => Some(0x1C),
        '\u{00E6}' => Some(0x1D),
        '\u{00DF}' => Some(0x1E),
        '\u{00C9}' => Some(0x1F),
        ' ' => Some(0x20),
        '!' => Some(0x21),
        '"' => Some(0x22),
        '#' => Some(0x23),
        '\u{00A4}' => Some(0x24),
        '%' => Some(0x25),
        '&' => Some(0x26),
        '\'' => Some(0x27),
        '(' => Some(0x28),
        ')' => Some(0x29),
        '*' => Some(0x2A),
        '+' => Some(0x2B),
        ',' => Some(0x2C),
        '-' => Some(0x2D),
        '.' => Some(0x2E),
        '/' => Some(0x2F),
        ':' => Some(0x3A),
        ';' => Some(0x3B),
        '<' => Some(0x3C),
        '=' => Some(0x3D),
        '>' => Some(0x3E),
        '?' => Some(0x3F),
        '\u{00A1}' => Some(0x40),
        '\u{00C4}' => Some(0x5B),
        '\u{00D6}' => Some(0x5C),
        '\u{00D1}' => Some(0x5D),
        '\u{00DC}' => Some(0x5E),
        '\u{00A7}' => Some(0x5F),
        '\u{00BF}' => Some(0x60),
        '\u{00E4}' => Some(0x7B),
        '\u{00F6}' => Some(0x7C),
        '\u{00F1}' => Some(0x7D),
        '\u{00FC}' => Some(0x7E),
        '\u{00E0}' => Some(0x7F),
        _ => None,
    }
}

pub fn base_code(c: char) -> (r: Option<u8>)
    ensures
        r == spec_base_code(c),
{
    match c {
        '@' => Some(0x00),
        '\u{00A3}' => Some(0x01),
        '$' => Some(0x02),
        '\u{00A5}' => Some(0x03),
        '\u{00E8}' => Some(0x04),
        '\u{00E9}' => Some(0x05),
        '\u{00F9}' => Some(0x06),
        '\u{00EC}' => Some(0x07),
        '\u{00F2}' => Some(0x08),
        '\u{00C7}' => Some(0x09),
        '\n' => Some(0x0A),
        '\u{00D8}' => Some(0x0B),
        '\u{00F8}' => Some(0x0C),
        '\r' => Some(0x0D),
        '\u{00C5}' => Some(0x0E),
        '\u{00E5}' => Some(0x0F),
        '\u{0394}' => Some(0x10),
        '_' => Some(0x11),
        '\u{03A6}' => Some(0x12),
        '\u{0393}' => Some(0x13),
        '\u{039B}' => Some(0x14),
        '\u{03A9}' => Some(0x15),
        '\u{03A0}' => Some(0x16),
        '\u{03A8}' => Some(0x17),
        '\u{03A3}' => Some(0x18),
        '\u{0398}' => Some(0x19),
        '\u{039E}' => Some(0x1A),
        '\u{00C6}' => Some(0x1C),
        '\u{00E6}' => Some(0x1D),
        '\u{00DF}' => Some(0x1E),
        '\u{00C9}' => Some(0x1F),
        ' ' => Some(0x20),
        '!' => Some(0x21),
        '"' => Some(0x22),
        '#' => Some(0x23),
        '\u{00A4}' => Some(0x24),
        '%' => Some(0x25),
        '&' => Some(0x26),
        '\'' => Some(0x27),
        '(' => Some(0x28),
        ')' => Some(0x29),
        '*' => Some(0x2A),
        '+' => Some(0x2B),
        ',' => Some(0x2C),
        '-' => Some(0x2D),
        '.' => Some(0x2E),
        '/' => Some(0x2F),
        ':' => Some(0x3A),
        ';' => Some(0x3B),
        '<' => Some(0x3C),
        '=' => Some(0x3D),
        '>' => Some(0x3E),
        '?' => Some(0x3F),
        '\u{00A1}' => Some(0x40),
        '\u{00C4}' => Some(0x5B),
        '\u{00D6}' => Some(0x5C),
        '\u{00D1}' => Some(0x5D),
        '\u{00DC}' => Some(0x5E),
        '\u{00A7}' => Some(0x5F),
        '\u{00BF}' => Some(0x60),
        '\u{00E4}' => Some(0x7B),
        '\u{00F6}' => Some(0x7C),
        '\u{00F1}' => Some(0x7D),
        '\u{00FC}' => Some(0x7E),
        '\u{00E0}' => Some(0x7F),
        _ => None,
    }
}

/// The default alphabet, apart from ASCII letters and digits: the character of a code.
pub open spec fn spec_base_char(b: u8) -> Option<char> {
    match b {
        0x00 => Some('@'),
        0x01 => Some('\u{00A3}'),
        0x02 => Some('$'),
        0x03 => Some('\u{00A5}'),
        0x04 => Some('\u{00E8}'),
        0x05 => Some('\u{00E9}'),
        0x06 => Some('\u{00F9}'),
        0x07 => Some('\u{00EC}'),
        0x08 => Some('\u{00F2}'),
        0x09 => Some('\u{00C7}'),
        0x0A => Some('\n'),
        0x0B => Some('\u{00D8}'),
        0x0C => Some('\u{00F8}'),
        0x0D => Some('\r'),
        0x0E => Some('\u{00C5}'),
        0x0F => Some('\u{00E5}'),
        0x10 => Some('\u{0394}'),
        0x11 => Some('_'),
        0x12 => Some('\u{03A6}'),
        0x13 => Some('\u{0393}'),
        0x14 => Some('\u{039B}'),
        0x15 => Some('\u{03A9}'),
        0x16 => Some('\u{03A0}'),
        0x17 => Some('\u{03A8}'),
        0x18 => Some('\u{03A3}'),
        0x19 => Some('\u{0398}'),
        0x1A => Some('\u{039E}'),
        0x1C => Some('\u{00C6}'),
        0x1D => Some('\u{00E6}'),
        0x1E => Some('\u{00DF}'),
        0x1F => Some('\u{00C9}'),
        0x20 => Some(' '),
        0x21 => Some('!'),
        0x22 => Some('"'),
        0x23 => Some('#'),
        0x24 => Some('\u{00A4}'),
        0x25 => Some('%'),
        0x26 => Some('&'),
        0x27 => Some('\''),
        0x28 => Some('('),
        0x29 => Some(')'),
        0x2A => Some('*'),
        0x2B => Some('+'),
        0x2C => Some(','),
        0x2D => Some('-'),
        0x2E => Some('.'),
        0x2F => Some('/'),
        0x3A => Some(':'),
        0x3B => Some(';'),
        0x3C => Some('<'),
        0x3D => Some('='),
        0x3E => Some('>'),
        0x3F => Some('?'),
        0x40 => Some('\u{00A1}'),
        0x5B => Some('\u{00C4}'),
        0x5C => Some('\u{00D6}'),
        0x5D => Some('\u{00D1}'),
        0x5E => Some('\u{00DC}'),
        0x5F => Some('\u{00A7}'),
        0x60 => Some('\u{00BF}'),
        0x7B => Some('\u{00E4}'),
        0x7C => Some('\u{00F6}'),
        0x7D => Some('\u{00F1}'),
        0x7E => Some('\u{00FC}'),
        0x7F => Some('\u{00E0}'),
        _ => None,
    }
}

pub fn base_char(b: u8) -> (r: Option<char>)
    ensures
        r == spec_base_char(b),
{
    match b {
        0x00 => Some('@'),
        0x01 => Some('\u{00A3}'),
        0x02 => Some('$'),
        0x03 => Some('\u{00A5}'),
        0x04 => Some('\u{00E8}'),
        0x05 => Some('\u{00E9}'),
        0x06 => Some('\u{00F9}'),
        0x07 => Some('\u{00EC}'),
        0x08 => Some('\u{00F2}'),
        0x09 => Some('\u{00C7}'),
        0x0A => Some('\n'),
        0x0B => Some('\u{00D8}'),
        0x0C => Some('\u{00F8}'),
        0x0D => Some('\r'),
        0x0E => Some('\u{00C5}'),
        0x0F => Some('\u{00E5}'),
        0x10 => Some('\u{0394}'),
        0x11 => Some('_'),
        0x12 => Some('\u{03A6}'),
        0x13 => Some('\u{0393}'),
        0x14 => Some('\u{039B}'),
        0x15 => Some('\u{03A9}'),
        0x16 => Some('\u{03A0}'),
        0x17 => Some('\u{03A8}'),
        0x18 => Some('\u{03A3}'),
        0x19 => Some('\u{0398}'),
        0x1A => Some('\u{039E}'),
        0x1C => Some('\u{00C6}'),
        0x1D => Some('\u{00E6}'),
        0x1E => Some('\u{00DF}'),
        0x1F => Some('\u{00C9}'),
        0x20 => Some(' '),
        0x21 => Some('!'),
        0x22 => Some('"'),
        0x23 => Some('#'),
        0x24 => Some('\u{00A4}'),
        0x25 => Some('%'),
        0x26 => Some('&'),
        0x27 => Some('\''),
        0x28 => Some('('),
        0x29 => Some(')'),
        0x2A => Some('*'),
        0x2B => Some('+'),
        0x2C => Some(','),
        0x2D => Some('-'),
        0x2E => Some('.'),
        0x2F => Some('/'),
        0x3A => Some(':'),
        0x3B => Some(';'),
        0x3C => Some('<'),
        0x3D => Some('='),
        0x3E => Some('>'),
        0x3F => Some('?'),
        0x40 => Some('\u{00A1}'),
        0x5B => Some('\u{00C4}'),
        0x5C => Some('\u{00D6}'),
        0x5D => Some('\u{00D1}'),
        0x5E => Some('\u{00DC}'),
        0x5F => Some('\u{00A7}'),
        0x60 => Some('\u{00BF}'),
        0x7B => Some('\u{00E4}'),
        0x7C => Some('\u{00F6}'),
        0x7D => Some('\u{00F1}'),
        0x7E => Some('\u{00FC}'),
        0x7F => Some('\u{00E0}'),
        _ => None,
    }
}

/// The extension table, reached through the escape code 0x1B: the code of a character.
pub open spec fn spec_ext_code(c: char) -> Option<u8> {
    match c {
        '^' => Some(0x14),
        '{' => Some(0x28),
        '}' => Some(0x29),
        '\\' => Some(0x2F),
        '[' => Some(0x3C),
        '~' => Some(0x3D),
        ']' => Some(0x3E),
        '|' => Some(0x40),
        '\u{20AC}' => Some(0x65),
        _ => None,
    }
}

pub fn ext_code(c: char) -> (r: Option<u8>)
    ensures
        r == spec_ext_code(c),
{
    match c {
        '^' => Some(0x14),
        '{' => Some(0x28),
        '}' => Some(0x29),
        '\\' => Some(0x2F),
        '[' => Some(0x3C),
        '~' => Some(0x3D),
        ']' => Some(0x3E),
        '|' => Some(0x40),
        '\u{20AC}' => Some(0x65),
        _ => None,
    }
}

/// The extension table, reached through the escape code 0x1B: the character of a code.
pub open spec fn spec_ext_char(b: u8) -> Option<char> {
    match b {
        0x14 => Some('^'),
        0x28 => Some('{'),
        0x29 => Some('}'),
        0x2F => Some('\\'),
        0x3C => Some('['),
        0x3D => Some('~'),
        0x3E => Some(']'),
        0x40 => Some('|'),
        0x65 => Some('\u{20AC}'),
        _ => None,
    }
}

pub fn ext_char(b: u8) -> (r: Option<char>)
    ensures
        r == spec_ext_char(b),
{
    match b {
        0x14 => Some('^'),
        0x28 => Some('{'),
        0x29 => Some('}'),
        0x2F => Some('\\'),
        0x3C => Some('['),
        0x3D => Some('~'),
        0x3E => Some(']'),
        0x40 => Some('|'),
        0x65 => Some('\u{20AC}'),
        _ => None,
    }
}

} // verus!
