//! The engine's 5x7 bitmap font: one glyph per printable ASCII character from space to `_`
//! (so digits, upper-case letters and common punctuation). Each glyph is seven rows, top row
//! first; bit 4 of a row is its leftmost column and bit 0 its rightmost.
use vstd::prelude::*;

verus! {

/// Width of a glyph cell, in font pixels.
pub const GLYPH_W: i32 = 5;
/// Height of a glyph cell, in font pixels.
pub const GLYPH_H: i32 = 7;

/// The glyphs for `' '` (code 32) through `'_'` (code 95), in code order.
pub const GLYPHS: [[u8; 7]; 64] = [
    [0x00, 0x00, 0x00, 0x00, 0x00, 0x00, 0x00], // ' '
    [0x04, 0x04, 0x04, 0x04, 0x04, 0x00, 0x04], // '!'
    [0x0a, 0x0a, 0x00, 0x00, 0x00, 0x00, 0x00], // '"'
    [0x0a, 0x1f, 0x0a, 0x0a, 0x0a, 0x1f, 0x0a], // '#'
    [0x04, 0x0f, 0x14, 0x0e, 0x05, 0x1e, 0x04], // '$'
    [0x18, 0x19, 0x02, 0x04, 0x08, 0x13, 0x03], // '%'
    [0x0c, 0x12, 0x14, 0x08, 0x15, 0x12, 0x0d], // '&'
    [0x04, 0x04, 0x00, 0x00, 0x00, 0x00, 0x00], // "'"
    [0x02, 0x04, 0x08, 0x08, 0x08, 0x04, 0x02], // '('
    [0x08, 0x04, 0x02, 0x02, 0x02, 0x04, 0x08], // ')'
    [0x00, 0x04, 0x15, 0x0e, 0x15, 0x04, 0x00], // '*'
    [0x00, 0x04, 0x04, 0x1f, 0x04, 0x04, 0x00], // '+'
    [0x00, 0x00, 0x00, 0x00, 0x06, 0x04, 0x08], // ','
    [0x00, 0x00, 0x00, 0x1f, 0x00, 0x00, 0x00], // '-'
    [0x00, 0x00, 0x00, 0x00, 0x00, 0x0c, 0x0c], // '.'
    [0x00, 0x01, 0x02, 0x04, 0x08, 0x10, 0x00], // '/'
    [0x0e, 0x11, 0x13, 0x15, 0x19, 0x11, 0x0e], // '0'
    [0x04, 0x0c, 0x04, 0x04, 0x04, 0x04, 0x0e], // '1'
    [0x0e, 0x11, 0x01, 0x02, 0x04, 0x08, 0x1f], // '2'
    [0x1f, 0x02, 0x04, 0x02, 0x01, 0x11, 0x0e], // '3'
    [0x02, 0x06, 0x0a, 0x12, 0x1f, 0x02, 0x02], // '4'
    [0x1f, 0x10, 0x1e, 0x01, 0x01, 0x11, 0x0e], // '5'
    [0x06, 0x08, 0x10, 0x1e, 0x11, 0x11, 0x0e], // '6'
    [0x1f, 0x01, 0x02, 0x04, 0x08, 0x08, 0x08], // '7'
    [0x0e, 0x11, 0x11, 0x0e, 0x11, 0x11, 0x0e], // '8'
    [0x0e, 0x11, 0x11, 0x0f, 0x01, 0x02, 0x0c], // '9'
    [0x00, 0x0c, 0x0c, 0x00, 0x0c, 0x0c, 0x00], // ':'
    [0x00, 0x0c, 0x0c, 0x00, 0x0c, 0x04, 0x08], // ';'
    [0x02, 0x04, 0x08, 0x10, 0x08, 0x04, 0x02], // '<'
    [0x00, 0x00, 0x1f, 0x00, 0x1f, 0x00, 0x00], // '='
    [0x08, 0x04, 0x02, 0x01, 0x02, 0x04, 0x08], // '>'
    [0x0e, 0x11, 0x01, 0x02, 0x04, 0x00, 0x04], // '?'
    [0x0e, 0x11, 0x01, 0x0d, 0x15, 0x15, 0x0e], // '@'
    [0x0e, 0x11, 0x11, 0x1f, 0x11, 0x11, 0x11], // 'A'
    [0x1e, 0x11, 0x11, 0x1e, 0x11, 0x11, 0x1e], // 'B'
    [0x0e, 0x11, 0x10, 0x10, 0x10, 0x11, 0x0e], // 'C'
    [0x1c, 0x12, 0x11, 0x11, 0x11, 0x12, 0x1c], // 'D'
    [0x1f, 0x10, 0x10, 0x1e, 0x10, 0x10, 0x1f], // 'E'
    [0x1f, 0x10, 0x10, 0x1e, 0x10, 0x10, 0x10], // 'F'
    [0x0e, 0x11, 0x10, 0x17, 0x11, 0x11, 0x0f], // 'G'
    [0x11, 0x11, 0x11, 0x1f, 0x11, 0x11, 0x11], // 'H'
    [0x0e, 0x04, 0x04, 0x04, 0x04, 0x04, 0x0e], // 'I'
    [0x07, 0x02, 0x02, 0x02, 0x02, 0x12, 0x0c], // 'J'
    [0x11, 0x12, 0x14, 0x18, 0x14, 0x12, 0x11], // 'K'
    [0x10, 0x10, 0x10, 0x10, 0x10, 0x10, 0x1f], // 'L'
    [0x11, 0x1b, 0x15, 0x15, 0x11, 0x11, 0x11], // 'M'
    [0x11, 0x11, 0x19, 0x15, 0x13, 0x11, 0x11], // 'N'
    [0x0e, 0x11, 0x11, 0x11, 0x11, 0x11, 0x0e], // 'O'
    [0x1e, 0x11, 0x11, 0x1e, 0x10, 0x10, 0x10], // 'P'
    [0x0e, 0x11, 0x11, 0x11, 0x15, 0x12, 0x0d], // 'Q'
    [0x1e, 0x11, 0x11, 0x1e, 0x14, 0x12, 0x11], // 'R'
    [0x0f, 0x10, 0x10, 0x0e, 0x01, 0x01, 0x1e], // 'S'
    [0x1f, 0x04, 0x04, 0x04, 0x04, 0x04, 0x04], // 'T'
    [0x11, 0x11, 0x11, 0x11, 0x11, 0x11, 0x0e], // 'U'
    [0x11, 0x11, 0x11, 0x11, 0x11, 0x0a, 0x04], // 'V'
    [0x11, 0x11, 0x11, 0x15, 0x15, 0x15, 0x0a], // 'W'
    [0x11, 0x11, 0x0a, 0x04, 0x0a, 0x11, 0x11], // 'X'
    [0x11, 0x11, 0x0a, 0x04, 0x04, 0x04, 0x04], // 'Y'
    [0x1f, 0x01, 0x02, 0x04, 0x08, 0x10, 0x1f], // 'Z'
    [0x0e, 0x08, 0x08, 0x08, 0x08, 0x08, 0x0e], // '['
    [0x00, 0x10, 0x08, 0x04, 0x02, 0x01, 0x00], // '\\'
    [0x0e, 0x02, 0x02, 0x02, 0x02, 0x02, 0x0e], // ']'
    [0x04, 0x0a, 0x11, 0x00, 0x00, 0x00, 0x00], // '^'
    [0x00, 0x00, 0x00, 0x00, 0x00, 0x00, 0x1f], // '_'
];

/// The rows of `ch`'s glyph, if the font has one.
pub open spec fn glyph_spec(ch: char) -> Option<Seq<u8>> {
    if 32 <= (ch as int) && (ch as int) <= 95 {
        Some(GLYPHS@[(ch as int) - 32]@)
    } else {
        None
    }
}

/// Whether column `col` (0 = leftmost) of a glyph row is inked.
pub open spec fn row_bit(row: u8, col: int) -> bool {
    ((row as int) / column_weight(col)) % 2 == 1
}

/// The value of column `col`'s bit in a glyph row.
pub open spec fn column_weight(col: int) -> int {
    if col == 0 { 16 } else if col == 1 { 8 } else if col == 2 { 4 } else if col == 3 { 2 } else { 1 }
}

/// The rows of `ch`'s glyph, or `None` for a character the font does not draw.
pub fn glyph(ch: char) -> (r: Option<[u8; 7]>)
    ensures
        match r {
            Some(rows) => glyph_spec(ch) == Some(rows@),
            None => glyph_spec(ch) is None,
        },
{
    if ' ' <= ch && ch <= '_' {
        let code = ch as u32;
        Some(GLYPHS[(code - 32) as usize])
    } else {
        None
    }
}

/// Whether column `col` of a glyph row is inked.
pub fn row_has_ink(row: u8, col: usize) -> (r: bool)
    requires
        col < 5,
    ensures
        r == row_bit(row, col as int),
{
    let weight: u8 = if col == 0 { 16 } else if col == 1 { 8 } else if col == 2 { 4 } else if col == 3 { 2 } else { 1 };
    (row / weight) % 2 == 1
}

} // verus!
