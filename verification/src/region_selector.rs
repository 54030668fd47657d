//! The region selector: a dimmed full-screen layer on which the user drags a
//! rectangle. The library keeps the selector's state, decides what each mouse
//! and key event does, and paints the layer's pixels (with a small bitmap font
//! for the labels); creating the window and showing the pixels is done around
//! the library.

use vstd::prelude::*;
use crate::text::chars_of;

verus! {

/// Opacity of the dimmed area around the selection (0-255).
pub const OVERLAY_ALPHA: u8 = 120;

/// Blue component of the selection border.
pub const BORDER_COLOR_B: u8 = 0xFF;

/// Green component of the selection border.
pub const BORDER_COLOR_G: u8 = 0x66;

/// Red component of the selection border.
pub const BORDER_COLOR_R: u8 = 0x00;

/// Thickness of the selection border, in pixels.
pub const BORDER_WIDTH: i32 = 3;

/// Width of one character cell of the bitmap font (5 pixels and 3 of space).
pub const CHAR_CELL_WIDTH: i32 = 8;

/// Coordinates of the selected region.
#[derive(Debug, Clone, Copy, PartialEq, Eq, Structural)]
pub struct SelectedRegion {
    pub x: u32,
    pub y: u32,
    pub width: u32,
    pub height: u32,
}

// ---------------------------------------------------------------------------
// Bitmap font
// ---------------------------------------------------------------------------

/// The 5x7 glyph of a character: seven rows of five bits, the most significant
/// of the five on the left. Lowercase ASCII letters share the glyph of their
/// uppercase form; a few accented Portuguese letters have their own; any other
/// character is a filled block.
pub open spec fn glyph_rows(c: char) -> Seq<u8> {
    match c {
        '0' => seq![0b01110u8, 0b10011u8, 0b10101u8, 0b10101u8, 0b10101u8, 0b11001u8, 0b01110u8],
        '1' => seq![0b00100u8, 0b01100u8, 0b00100u8, 0b00100u8, 0b00100u8, 0b00100u8, 0b01110u8],
        '2' => seq![0b01110u8, 0b10001u8, 0b00001u8, 0b00110u8, 0b01000u8, 0b10000u8, 0b11111u8],
        '3' => seq![0b01110u8, 0b10001u8, 0b00001u8, 0b00110u8, 0b00001u8, 0b10001u8, 0b01110u8],
        '4' => seq![0b00010u8, 0b00110u8, 0b01010u8, 0b10010u8, 0b11111u8, 0b00010u8, 0b00010u8],
        '5' => seq![0b11111u8, 0b10000u8, 0b11110u8, 0b00001u8, 0b00001u8, 0b10001u8, 0b01110u8],
        '6' => seq![0b01110u8, 0b10000u8, 0b10000u8, 0b11110u8, 0b10001u8, 0b10001u8, 0b01110u8],
        '7' => seq![0b11111u8, 0b00001u8, 0b00010u8, 0b00100u8, 0b01000u8, 0b01000u8, 0b01000u8],
        '8' => seq![0b01110u8, 0b10001u8, 0b10001u8, 0b01110u8, 0b10001u8, 0b10001u8, 0b01110u8],
        '9' => seq![0b01110u8, 0b10001u8, 0b10001u8, 0b01111u8, 0b00001u8, 0b00001u8, 0b01110u8],
        'A' | 'a' => seq![0b01110u8, 0b10001u8, 0b10001u8, 0b11111u8, 0b10001u8, 0b10001u8, 0b10001u8],
        'B' | 'b' => seq![0b11110u8, 0b10001u8, 0b10001u8, 0b11110u8, 0b10001u8, 0b10001u8, 0b11110u8],
        'C' | 'c' => seq![0b01110u8, 0b10001u8, 0b10000u8, 0b10000u8, 0b10000u8, 0b10001u8, 0b01110u8],
        'D' | 'd' => seq![0b11110u8, 0b10001u8, 0b10001u8, 0b10001u8, 0b10001u8, 0b10001u8, 0b11110u8],
        'E' | 'e' => seq![0b11111u8, 0b10000u8, 0b10000u8, 0b11110u8, 0b10000u8, 0b10000u8, 0b11111u8],
        'F' | 'f' => seq![0b11111u8, 0b10000u8, 0b10000u8, 0b11110u8, 0b10000u8, 0b10000u8, 0b10000u8],
        'G' | 'g' => seq![0b01110u8, 0b10001u8, 0b10000u8, 0b10111u8, 0b10001u8, 0b10001u8, 0b01110u8],
        'H' | 'h' => seq![0b10001u8, 0b10001u8, 0b10001u8, 0b11111u8, 0b10001u8, 0b10001u8, 0b10001u8],
        'I' | 'i' => seq![0b01110u8, 0b00100u8, 0b00100u8, 0b00100u8, 0b00100u8, 0b00100u8, 0b01110u8],
        'J' | 'j' => seq![0b00111u8, 0b00010u8, 0b00010u8, 0b00010u8, 0b00010u8, 0b10010u8, 0b01100u8],
        'K' | 'k' => seq![0b10001u8, 0b10010u8, 0b10100u8, 0b11000u8, 0b10100u8, 0b10010u8, 0b10001u8],
        'L' | 'l' => seq![0b10000u8, 0b10000u8, 0b10000u8, 0b10000u8, 0b10000u8, 0b10000u8, 0b11111u8],
        'M' | 'm' => seq![0b10001u8, 0b11011u8, 0b10101u8, 0b10101u8, 0b10001u8, 0b10001u8, 0b10001u8],
        'N' | 'n' => seq![0b10001u8, 0b11001u8, 0b10101u8, 0b10101u8, 0b10011u8, 0b10011u8, 0b10001u8],
        'O' | 'o' => seq![0b01110u8, 0b10001u8, 0b10001u8, 0b10001u8, 0b10001u8, 0b10001u8, 0b01110u8],
        'P' | 'p' => seq![0b11110u8, 0b10001u8, 0b10001u8, 0b11110u8, 0b10000u8, 0b10000u8, 0b10000u8],
        'Q' | 'q' => seq![0b01110u8, 0b10001u8, 0b10001u8, 0b10001u8, 0b10101u8, 0b10010u8, 0b01101u8],
        'R' | 'r' => seq![0b11110u8, 0b10001u8, 0b10001u8, 0b11110u8, 0b10100u8, 0b10010u8, 0b10001u8],
        'S' | 's' => seq![0b01110u8, 0b10001u8, 0b10000u8, 0b01110u8, 0b00001u8, 0b10001u8, 0b01110u8],
        'T' | 't' => seq![0b11111u8, 0b00100u8, 0b00100u8, 0b00100u8, 0b00100u8, 0b00100u8, 0b00100u8],
        'U' | 'u' => seq![0b10001u8, 0b10001u8, 0b10001u8, 0b10001u8, 0b10001u8, 0b10001u8, 0b01110u8],
        'V' | 'v' => seq![0b10001u8, 0b10001u8, 0b10001u8, 0b10001u8, 0b10001u8, 0b01010u8, 0b00100u8],
        'W' | 'w' => seq![0b10001u8, 0b10001u8, 0b10001u8, 0b10101u8, 0b10101u8, 0b11011u8, 0b10001u8],
        'X' | 'x' => seq![0b10001u8, 0b10001u8, 0b01010u8, 0b00100u8, 0b01010u8, 0b10001u8, 0b10001u8],
        'Y' | 'y' => seq![0b10001u8, 0b10001u8, 0b01010u8, 0b00100u8, 0b00100u8, 0b00100u8, 0b00100u8],
        'Z' | 'z' => seq![0b11111u8, 0b00001u8, 0b00010u8, 0b00100u8, 0b01000u8, 0b10000u8, 0b11111u8],
        ' ' => seq![0b00000u8, 0b00000u8, 0b00000u8, 0b00000u8, 0b00000u8, 0b00000u8, 0b00000u8],
        '\u{c3}' | '\u{e3}' => seq![0b01010u8, 0b00000u8, 0b01110u8, 0b10001u8, 0b11111u8, 0b10001u8, 0b10001u8],
        '\u{c1}' | '\u{e1}' => seq![0b00010u8, 0b00100u8, 0b01110u8, 0b10001u8, 0b11111u8, 0b10001u8, 0b10001u8],
        '\u{c9}' | '\u{e9}' => seq![0b00010u8, 0b00100u8, 0b11111u8, 0b10000u8, 0b11110u8, 0b10000u8, 0b11111u8],
        '\u{c7}' | '\u{e7}' => seq![0b01110u8, 0b10001u8, 0b10000u8, 0b10000u8, 0b10001u8, 0b01110u8, 0b00100u8],
        '\u{d3}' | '\u{f3}' => seq![0b00010u8, 0b00100u8, 0b01110u8, 0b10001u8, 0b10001u8, 0b10001u8, 0b01110u8],
        '\u{da}' | '\u{fa}' => seq![0b00010u8, 0b00100u8, 0b10001u8, 0b10001u8, 0b10001u8, 0b10001u8, 0b01110u8],
        _ => seq![0b11111u8, 0b11111u8, 0b11111u8, 0b11111u8, 0b11111u8, 0b11111u8, 0b11111u8],
    }
}

/// Returns the glyph of a character (see `glyph_rows`).
pub fn get_glyph(ch: char) -> (r: [u8; 7])
    ensures
        r@ == glyph_rows(ch),
{
    let g: [u8; 7] = match ch {
        '0' => [0b01110u8, 0b10011u8, 0b10101u8, 0b10101u8, 0b10101u8, 0b11001u8, 0b01110u8],
        '1' => [0b00100u8, 0b01100u8, 0b00100u8, 0b00100u8, 0b00100u8, 0b00100u8, 0b01110u8],
        '2' => [0b01110u8, 0b10001u8, 0b00001u8, 0b00110u8, 0b01000u8, 0b10000u8, 0b11111u8],
        '3' => [0b01110u8, 0b10001u8, 0b00001u8, 0b00110u8, 0b00001u8, 0b10001u8, 0b01110u8],
        '4' => [0b00010u8, 0b00110u8, 0b01010u8, 0b10010u8, 0b11111u8, 0b00010u8, 0b00010u8],
        '5' => [0b11111u8, 0b10000u8, 0b11110u8, 0b00001u8, 0b00001u8, 0b10001u8, 0b01110u8],
        '6' => [0b01110u8, 0b10000u8, 0b10000u8, 0b11110u8, 0b10001u8, 0b10001u8, 0b01110u8],
        '7' => [0b11111u8, 0b00001u8, 0b00010u8, 0b00100u8, 0b01000u8, 0b01000u8, 0b01000u8],
        '8' => [0b01110u8, 0b10001u8, 0b10001u8, 0b01110u8, 0b10001u8, 0b10001u8, 0b01110u8],
        '9' => [0b01110u8, 0b10001u8, 0b10001u8, 0b01111u8, 0b00001u8, 0b00001u8, 0b01110u8],
        'A' | 'a' => [0b01110u8, 0b10001u8, 0b10001u8, 0b11111u8, 0b10001u8, 0b10001u8, 0b10001u8],
        'B' | 'b' => [0b11110u8, 0b10001u8, 0b10001u8, 0b11110u8, 0b10001u8, 0b10001u8, 0b11110u8],
        'C' | 'c' => [0b01110u8, 0b10001u8, 0b10000u8, 0b10000u8, 0b10000u8, 0b10001u8, 0b01110u8],
        'D' | 'd' => [0b11110u8, 0b10001u8, 0b10001u8, 0b10001u8, 0b10001u8, 0b10001u8, 0b11110u8],
        'E' | 'e' => [0b11111u8, 0b10000u8, 0b10000u8, 0b11110u8, 0b10000u8, 0b10000u8, 0b11111u8],
        'F' | 'f' => [0b11111u8, 0b10000u8, 0b10000u8, 0b11110u8, 0b10000u8, 0b10000u8, 0b10000u8],
        'G' | 'g' => [0b01110u8, 0b10001u8, 0b10000u8, 0b10111u8, 0b10001u8, 0b10001u8, 0b01110u8],
        'H' | 'h' => [0b10001u8, 0b10001u8, 0b10001u8, 0b11111u8, 0b10001u8, 0b10001u8, 0b10001u8],
        'I' | 'i' => [0b01110u8, 0b00100u8, 0b00100u8, 0b00100u8, 0b00100u8, 0b00100u8, 0b01110u8],
        'J' | 'j' => [0b00111u8, 0b00010u8, 0b00010u8, 0b00010u8, 0b00010u8, 0b10010u8, 0b01100u8],
        'K' | 'k' => [0b10001u8, 0b10010u8, 0b10100u8, 0b11000u8, 0b10100u8, 0b10010u8, 0b10001u8],
        'L' | 'l' => [0b10000u8, 0b10000u8, 0b10000u8, 0b10000u8, 0b10000u8, 0b10000u8, 0b11111u8],
        'M' | 'm' => [0b10001u8, 0b11011u8, 0b10101u8, 0b10101u8, 0b10001u8, 0b10001u8, 0b10001u8],
        'N' | 'n' => [0b10001u8, 0b11001u8, 0b10101u8, 0b10101u8, 0b10011u8, 0b10011u8, 0b10001u8],
        'O' | 'o' => [0b01110u8, 0b10001u8, 0b10001u8, 0b10001u8, 0b10001u8, 0b10001u8, 0b01110u8],
        'P' | 'p' => [0b11110u8, 0b10001u8, 0b10001u8, 0b11110u8, 0b10000u8, 0b10000u8, 0b10000u8],
        'Q' | 'q' => [0b01110u8, 0b10001u8, 0b10001u8, 0b10001u8, 0b10101u8, 0b10010u8, 0b01101u8],
        'R' | 'r' => [0b11110u8, 0b10001u8, 0b10001u8, 0b11110u8, 0b10100u8, 0b10010u8, 0b10001u8],
        'S' | 's' => [0b01110u8, 0b10001u8, 0b10000u8, 0b01110u8, 0b00001u8, 0b10001u8, 0b01110u8],
        'T' | 't' => [0b11111u8, 0b00100u8, 0b00100u8, 0b00100u8, 0b00100u8, 0b00100u8, 0b00100u8],
        'U' | 'u' => [0b10001u8, 0b10001u8, 0b10001u8, 0b10001u8, 0b10001u8, 0b10001u8, 0b01110u8],
        'V' | 'v' => [0b10001u8, 0b10001u8, 0b10001u8, 0b10001u8, 0b10001u8, 0b01010u8, 0b00100u8],
        'W' | 'w' => [0b10001u8, 0b10001u8, 0b10001u8, 0b10101u8, 0b10101u8, 0b11011u8, 0b10001u8],
        'X' | 'x' => [0b10001u8, 0b10001u8, 0b01010u8, 0b00100u8, 0b01010u8, 0b10001u8, 0b10001u8],
        'Y' | 'y' => [0b10001u8, 0b10001u8, 0b01010u8, 0b00100u8, 0b00100u8, 0b00100u8, 0b00100u8],
        'Z' | 'z' => [0b11111u8, 0b00001u8, 0b00010u8, 0b00100u8, 0b01000u8, 0b10000u8, 0b11111u8],
        ' ' => [0b00000u8, 0b00000u8, 0b00000u8, 0b00000u8, 0b00000u8, 0b00000u8, 0b00000u8],
        '\u{c3}' | '\u{e3}' => [0b01010u8, 0b00000u8, 0b01110u8, 0b10001u8, 0b11111u8, 0b10001u8, 0b10001u8],
        '\u{c1}' | '\u{e1}' => [0b00010u8, 0b00100u8, 0b01110u8, 0b10001u8, 0b11111u8, 0b10001u8, 0b10001u8],
        '\u{c9}' | '\u{e9}' => [0b00010u8, 0b00100u8, 0b11111u8, 0b10000u8, 0b11110u8, 0b10000u8, 0b11111u8],
        '\u{c7}' | '\u{e7}' => [0b01110u8, 0b10001u8, 0b10000u8, 0b10000u8, 0b10001u8, 0b01110u8, 0b00100u8],
        '\u{d3}' | '\u{f3}' => [0b00010u8, 0b00100u8, 0b01110u8, 0b10001u8, 0b10001u8, 0b10001u8, 0b01110u8],
        '\u{da}' | '\u{fa}' => [0b00010u8, 0b00100u8, 0b10001u8, 0b10001u8, 0b10001u8, 0b10001u8, 0b01110u8],
        _ => [0b11111u8, 0b11111u8, 0b11111u8, 0b11111u8, 0b11111u8, 0b11111u8, 0b11111u8],
    };
    assert(g@ =~= glyph_rows(ch));
    g
}

/// Whether bit `col` of a glyph row is set, counting from the left (0 to 4).
pub open spec fn row_bit(bits: u8, col: int) -> bool {
    (bits >> ((4 - col) as u8)) & 1u8 == 1u8
}

/// Whether the glyph of `c` lights its pixel at `row` (0 to 6), `col` (0 to 4).
pub open spec fn glyph_on(c: char, row: int, col: int) -> bool {
    0 <= row < 7 && 0 <= col < 5 && row_bit(glyph_rows(c)[row], col)
}

/// Left edge of a label drawn at `tx`: `tx` itself, or, when centred, `tx`
/// less half the label's width, one cell per character.
pub open spec fn label_start_x(text: Seq<char>, tx: int, centered: bool) -> int {
    if centered {
        tx - (CHAR_CELL_WIDTH * text.len()) / 2
    } else {
        tx
    }
}

/// Whether a label whose first cell starts at `sx` and whose top row is `ty`
/// lights the pixel (`px`, `py`): the pixel falls in the cell of one of its
/// characters, inside the 5x7 glyph, on a set bit.
pub open spec fn label_on(text: Seq<char>, sx: int, ty: int, px: int, py: int) -> bool {
    let d = px - sx;
    &&& d >= 0
    &&& d / 8 < text.len()
    &&& glyph_on(text[d / 8], py - ty, d % 8)
}

/// Column of the pixel that byte `i` of a BGRA bitmap `bw` pixels wide belongs to.
pub open spec fn byte_px(i: int, bw: int) -> int {
    (i / 4) % bw
}

/// Row of the pixel that byte `i` of a BGRA bitmap `bw` pixels wide belongs to.
pub open spec fn byte_py(i: int, bw: int) -> int {
    (i / 4) / bw
}

/// Byte `i` of a `bw` x `bh` BGRA bitmap after drawing a label on it: 255 in
/// every channel of a pixel that the label lights, unchanged elsewhere.
pub open spec fn drawn_byte(
    old: Seq<u8>,
    bw: int,
    bh: int,
    text: Seq<char>,
    sx: int,
    ty: int,
    i: int,
) -> u8 {
    if bw > 0 && bh > 0 && i < 4 * bw * bh && label_on(text, sx, ty, byte_px(i, bw), byte_py(i, bw)) {
        255
    } else {
        old[i]
    }
}

/// Whether the cell position (`d` pixels from the label's start, row `rr`)
/// comes before character `k`, row `r`, column `c` in drawing order.
pub open spec fn cell_before(d: int, rr: int, k: int, r: int, c: int) -> bool {
    let kk = d / 8;
    let cc = d % 8;
    kk < k || (kk == k && (rr < r || (rr == r && cc < c)))
}

/// Byte `i` while drawing, once every glyph position before (`k`, `r`, `c`)
/// has been drawn.
pub open spec fn drawn_upto(
    old: Seq<u8>,
    bw: int,
    bh: int,
    text: Seq<char>,
    sx: int,
    ty: int,
    i: int,
    k: int,
    r: int,
    c: int,
) -> u8 {
    if bw > 0 && bh > 0 && i < 4 * bw * bh && label_on(text, sx, ty, byte_px(i, bw), byte_py(i, bw))
        && cell_before(byte_px(i, bw) - sx, byte_py(i, bw) - ty, k, r, c) {
        255
    } else {
        old[i]
    }
}

/// The pixel of a byte of a `bw` x `bh` bitmap lies in the bitmap, and the
/// byte is one of the four of that pixel.
proof fn lemma_byte_pixel(i: int, bw: int, bh: int)
    requires
        bw > 0,
        bh > 0,
        0 <= i < 4 * bw * bh,
    ensures
        0 <= byte_px(i, bw) < bw,
        0 <= byte_py(i, bw) < bh,
        i / 4 == byte_py(i, bw) * bw + byte_px(i, bw),
        4 * (i / 4) <= i < 4 * (i / 4) + 4,
{
    let p = i / 4;
    vstd::arithmetic::div_mod::lemma_fundamental_div_mod(i, 4);
    vstd::arithmetic::div_mod::lemma_fundamental_div_mod(p, bw);
    assert(p < bw * bh) by (nonlinear_arith)
        requires
            0 <= i < 4 * bw * bh,
            p == i / 4,
    ;
    assert(0 <= p % bw < bw) by (nonlinear_arith)
        requires
            bw > 0,
    ;
    assert(0 <= p / bw < bh) by (nonlinear_arith)
        requires
            bw > 0,
            0 <= p < bw * bh,
            p == bw * (p / bw) + p % bw,
            0 <= p % bw < bw,
    ;
    vstd::arithmetic::mul::lemma_mul_is_commutative(bw, p / bw);
}

/// The pixel (`px`, `py`) of a bitmap `bw` pixels wide is made of the four
/// bytes from `4 * (py * bw + px)` on.
proof fn lemma_pixel_bytes(i: int, bw: int, px: int, py: int)
    requires
        bw > 0,
        0 <= px < bw,
        0 <= py,
        4 * (py * bw + px) <= i < 4 * (py * bw + px) + 4,
    ensures
        byte_px(i, bw) == px,
        byte_py(i, bw) == py,
{
    vstd::arithmetic::div_mod::lemma_fundamental_div_mod_converse(
        i,
        4,
        py * bw + px,
        i - 4 * (py * bw + px),
    );
    vstd::arithmetic::div_mod::lemma_fundamental_div_mod_converse(py * bw + px, bw, py, px);
}

/// Draws a label in white on a `bw` x `bh` BGRA bitmap with the 5x7 font,
/// one 8-pixel cell per character, its top row at `ty` and its left edge at
/// `tx` (or centred on `tx`, see `label_start_x`). Pixels outside the bitmap
/// are skipped. Positions are computed exactly, without overflow.
pub fn draw_text_on_bitmap(
    pixels: &mut [u8],
    bw: i32,
    bh: i32,
    text: &str,
    tx: i32,
    ty: i32,
    centered: bool,
)
    requires
        bw <= 0 || bh <= 0 || 4 * bw * bh <= old(pixels)@.len(),
    ensures
        final(pixels)@.len() == old(pixels)@.len(),
        forall|i: int|
            0 <= i < old(pixels)@.len() ==> final(pixels)@[i] == drawn_byte(
                old(pixels)@,
                bw as int,
                bh as int,
                text@,
                label_start_x(text@, tx as int, centered),
                ty as int,
                i,
            ),
{
    let ghost old_px = pixels@;
    let chars = chars_of(text);
    let nchars = chars.len();
    let width: i128 = (nchars as i128) * (CHAR_CELL_WIDTH as i128);
    let start_x: i128 = if centered {
        tx as i128 - width / 2
    } else {
        tx as i128
    };
    let ghost sx = start_x as int;
    assert(sx == label_start_x(text@, tx as int, centered));
    let ghost n = chars@.len();
    let mut k: usize = 0;
    while k < chars.len()
        invariant
            k <= chars@.len(),
            chars@ == text@,
            n == chars@.len(),
            n <= usize::MAX,
            sx == start_x,
            -0x1_0000_0000_0000_0000_0000 <= start_x <= 0x1_0000_0000,
            bw <= 0 || bh <= 0 || 4 * bw * bh <= old_px.len(),
            pixels@.len() == old_px.len(),
            forall|i: int|
                0 <= i < old_px.len() ==> pixels@[i] == drawn_upto(
                    old_px,
                    bw as int,
                    bh as int,
                    text@,
                    sx,
                    ty as int,
                    i,
                    k as int,
                    0,
                    0,
                ),
        decreases chars@.len() - k,
    {
        let glyph = get_glyph(chars[k]);
        let cx: i128 = start_x + (k as i128) * (CHAR_CELL_WIDTH as i128);
        let mut row: usize = 0;
        while row < 7
            invariant
                row <= 7,
                k < chars@.len(),
                chars@ == text@,
                n == chars@.len(),
                sx == start_x,
                cx == sx + 8 * k,
                -0x1_0000_0000_0000_0000_0000 <= start_x <= 0x1_0000_0000,
                k <= usize::MAX,
                glyph@ == glyph_rows(text@[k as int]),
                bw <= 0 || bh <= 0 || 4 * bw * bh <= old_px.len(),
                pixels@.len() == old_px.len(),
                forall|i: int|
                    0 <= i < old_px.len() ==> pixels@[i] == drawn_upto(
                        old_px,
                        bw as int,
                        bh as int,
                        text@,
                        sx,
                        ty as int,
                        i,
                        k as int,
                        row as int,
                        0,
                    ),
            decreases 7 - row,
        {
            let mut col: u8 = 0;
            while col < 5
                invariant
                    col <= 5,
                    row < 7,
                    k < chars@.len(),
                    chars@ == text@,
                    sx == start_x,
                    cx == sx + 8 * k,
                    -0x1_0000_0000_0000_0000_0000 <= start_x <= 0x1_0000_0000,
                    k <= usize::MAX,
                    glyph@ == glyph_rows(text@[k as int]),
                    bw <= 0 || bh <= 0 || 4 * bw * bh <= old_px.len(),
                    pixels@.len() == old_px.len(),
                    forall|i: int|
                        0 <= i < old_px.len() ==> pixels@[i] == drawn_upto(
                            old_px,
                            bw as int,
                            bh as int,
                            text@,
                            sx,
                            ty as int,
                            i,
                            k as int,
                            row as int,
                            col as int,
                        ),
                decreases 5 - col,
            {
                let ghost before = pixels@;
                let on = (glyph[row] >> (4 - col)) & 1 == 1;
                assert(on == glyph_on(text@[k as int], row as int, col as int));
                let px: i128 = cx + col as i128;
                let py: i128 = ty as i128 + row as i128;
                let inside = on && px >= 0 && px < bw as i128 && py >= 0 && py < bh as i128;
                if inside {
                    proof {
                        assert(py * bw + px < bw * bh) by (nonlinear_arith)
                            requires
                                0 <= px < bw,
                                0 <= py < bh,
                        ;
                        assert(bw * bh <= 0x4000_0000_0000_0000) by (nonlinear_arith)
                            requires
                                0 < bw <= 0x8000_0000,
                                0 < bh <= 0x8000_0000,
                        ;
                        assert(4 * bw * bh <= old_px.len());
                        assert((py * bw + px) * 4 + 4 <= 4 * bw * bh) by (nonlinear_arith)
                            requires
                                py * bw + px < bw * bh,
                        ;
                        assert(0 <= py * bw + px) by (nonlinear_arith)
                            requires
                                0 <= px < bw,
                                0 <= py,
                        ;
                    }
                    let idx: usize = ((py * (bw as i128) + px) * 4) as usize;
                    pixels[idx] = 255;
                    pixels[idx + 1] = 255;
                    pixels[idx + 2] = 255;
                    pixels[idx + 3] = 255;
                }
                col = col + 1;
                proof {
                    lemma_draw_step(
                        old_px,
                        before,
                        pixels@,
                        bw as int,
                        bh as int,
                        text@,
                        sx,
                        ty as int,
                        k as int,
                        row as int,
                        (col - 1) as int,
                        inside,
                    );
                }
            }
            proof {
                assert forall|i: int| 0 <= i < old_px.len() implies pixels@[i] == drawn_upto(
                    old_px,
                    bw as int,
                    bh as int,
                    text@,
                    sx,
                    ty as int,
                    i,
                    k as int,
                    row + 1,
                    0,
                ) by {
                    assert(pixels@[i] == drawn_upto(old_px, bw as int, bh as int, text@, sx, ty as int, i, k as int, row as int, 5));
                }
            }
            row = row + 1;
        }
        proof {
            assert forall|i: int| 0 <= i < old_px.len() implies pixels@[i] == drawn_upto(
                old_px,
                bw as int,
                bh as int,
                text@,
                sx,
                ty as int,
                i,
                k + 1,
                0,
                0,
            ) by {
                assert(pixels@[i] == drawn_upto(old_px, bw as int, bh as int, text@, sx, ty as int, i, k as int, 7, 0));
            }
        }
        k = k + 1;
    }
    proof {
        assert forall|i: int| 0 <= i < old_px.len() implies pixels@[i] == drawn_byte(
            old_px,
            bw as int,
            bh as int,
            text@,
            sx,
            ty as int,
            i,
        ) by {
            assert(pixels@[i] == drawn_upto(old_px, bw as int, bh as int, text@, sx, ty as int, i, n as int, 0, 0));
        }
    }
}

/// One step of drawing: the glyph position (`k`, `r`, `c`) is drawn, which
/// changes exactly the four bytes of its pixel when it is lit and inside.
proof fn lemma_draw_step(
    old: Seq<u8>,
    before: Seq<u8>,
    after: Seq<u8>,
    bw: int,
    bh: int,
    text: Seq<char>,
    sx: int,
    ty: int,
    k: int,
    r: int,
    c: int,
    inside: bool,
)
    requires
        0 <= k < text.len(),
        0 <= r < 7,
        0 <= c < 5,
        before.len() == old.len(),
        after.len() == old.len(),
        bw <= 0 || bh <= 0 || 4 * bw * bh <= old.len(),
        forall|i: int|
            0 <= i < old.len() ==> before[i] == drawn_upto(old, bw, bh, text, sx, ty, i, k, r, c),
        inside == (glyph_on(text[k], r, c) && 0 <= sx + 8 * k + c < bw && 0 <= ty + r < bh),
        inside ==> {
            let base = 4 * ((ty + r) * bw + sx + 8 * k + c);
            forall|i: int|
                0 <= i < old.len() ==> after[i] == if base <= i < base + 4 {
                    255u8
                } else {
                    before[i]
                }
        },
        !inside ==> after == before,
    ensures
        forall|i: int|
            0 <= i < old.len() ==> after[i] == drawn_upto(old, bw, bh, text, sx, ty, i, k, r, c + 1),
{
    let px0 = sx + 8 * k + c;
    let py0 = ty + r;
    assert forall|i: int| 0 <= i < old.len() implies after[i] == drawn_upto(
        old,
        bw,
        bh,
        text,
        sx,
        ty,
        i,
        k,
        r,
        c + 1,
    ) by {
        if bw > 0 && bh > 0 && i < 4 * bw * bh {
            lemma_byte_pixel(i, bw, bh);
            let px = byte_px(i, bw);
            let py = byte_py(i, bw);
            let d = px - sx;
            // the cell of the byte's pixel is (k, r, c) exactly when the pixel is (px0, py0)
            vstd::arithmetic::div_mod::lemma_fundamental_div_mod(d, 8);
            if px == px0 && py == py0 {
                vstd::arithmetic::div_mod::lemma_fundamental_div_mod_converse(d, 8, k, c);
                if inside {
                    assert(4 * (py0 * bw + px0) <= i < 4 * (py0 * bw + px0) + 4);
                }
            } else {
                if d / 8 == k && d % 8 == c && py - ty == r {
                    assert(d == 8 * k + c);
                }
                if inside {
                    let base = 4 * (py0 * bw + px0);
                    if base <= i < base + 4 {
                        lemma_pixel_bytes(i, bw, px0, py0);
                    }
                }
            }
        } else if inside {
            assert(4 * (py0 * bw + px0) + 4 <= 4 * bw * bh) by (nonlinear_arith)
                requires
                    0 <= px0 < bw,
                    0 <= py0 < bh,
            ;
        }
    }
}

// ---------------------------------------------------------------------------
// Window title as UTF-16
// ---------------------------------------------------------------------------

/// The UTF-16 code units of one character.
pub open spec fn utf16_units(c: char) -> Seq<u16> {
    let u = c as u32;
    if u < 0x10000 {
        seq![u as u16]
    } else {
        seq![(0xD800 + (u - 0x10000) / 0x400) as u16, (0xDC00 + (u - 0x10000) % 0x400) as u16]
    }
}

/// The UTF-16 encoding of a string.
pub open spec fn utf16_of(s: Seq<char>) -> Seq<u16>
    decreases s.len(),
{
    if s.len() == 0 {
        Seq::empty()
    } else {
        utf16_of(s.drop_last()) + utf16_units(s.last())
    }
}

/// A string as the Windows API takes it: its UTF-16 code units and a final 0.
pub fn wide_string(s: &str) -> (r: Vec<u16>)
    ensures
        r@ == utf16_of(s@).push(0u16),
{
    let chars = chars_of(s);
    let mut r: Vec<u16> = Vec::new();
    let mut i: usize = 0;
    while i < chars.len()
        invariant
            i <= chars@.len(),
            chars@ == s@,
            r@ == utf16_of(chars@.take(i as int)),
        decreases chars@.len() - i,
    {
        let c = chars[i];
        let u = c as u32;
        proof {
            assert(chars@.take(i + 1).drop_last() =~= chars@.take(i as int));
            assert(chars@.take(i + 1).last() == c);
        }
        if u < 0x10000 {
            r.push(u as u16);
            assert(utf16_units(c) =~= seq![u as u16]);
        } else {
            proof {
                vstd::utf8::char_is_scalar(c);
            }
            let v = u - 0x10000;
            let hi = (0xD800 + v / 0x400) as u16;
            let lo = (0xDC00 + v % 0x400) as u16;
            r.push(hi);
            r.push(lo);
            assert(utf16_units(c) =~= seq![hi, lo]);
        }
        i = i + 1;
    }
    assert(chars@.take(i as int) =~= chars@);
    r.push(0);
    r
}

// ---------------------------------------------------------------------------
// Labels
// ---------------------------------------------------------------------------

/// The decimal digits of a natural number, without leading zeros ("0" for 0).
pub open spec fn decimal_digits(n: nat) -> Seq<char>
    decreases n,
{
    if n < 10 {
        seq![digit_char(n)]
    } else {
        decimal_digits(n / 10).push(digit_char(n % 10))
    }
}

/// The character of a decimal digit.
pub open spec fn digit_char(d: nat) -> char {
    if d == 0 { '0' }
    else if d == 1 { '1' }
    else if d == 2 { '2' }
    else if d == 3 { '3' }
    else if d == 4 { '4' }
    else if d == 5 { '5' }
    else if d == 6 { '6' }
    else if d == 7 { '7' }
    else if d == 8 { '8' }
    else { '9' }
}

/// An integer written in decimal, with a leading '-' when negative.
pub open spec fn decimal(n: int) -> Seq<char> {
    if n < 0 {
        seq!['-'] + decimal_digits((-n) as nat)
    } else {
        decimal_digits(n as nat)
    }
}

/// The label shown above the selection: its width and height, as in "640x480".
pub open spec fn size_label(width: int, height: int) -> Seq<char> {
    decimal(width) + seq!['x'] + decimal(height)
}

fn digit_of(d: u64) -> (c: char)
    requires
        d < 10,
    ensures
        c == digit_char(d as nat),
{
    if d == 0 { '0' }
    else if d == 1 { '1' }
    else if d == 2 { '2' }
    else if d == 3 { '3' }
    else if d == 4 { '4' }
    else if d == 5 { '5' }
    else if d == 6 { '6' }
    else if d == 7 { '7' }
    else if d == 8 { '8' }
    else { '9' }
}

/// Appends the decimal form of `n` to `s`.
fn push_decimal(s: &mut String, n: i64)
    ensures
        final(s)@ == old(s)@ + decimal(n as int),
{
    if n < 0 {
        crate::text::push_char(s, '-');
    }
    assert(s@ == old(s)@ + (if n < 0 { seq!['-'] } else { Seq::<char>::empty() }));
    let m: u64 = if n < 0 {
        ((-(n as i128)) as u64)
    } else {
        n as u64
    };
    assert(m as int == if n < 0 { -n } else { n as int });
    let mut digits: Vec<char> = Vec::new();
    let mut q: u64 = m;
    // the digits come out last first
    while q >= 10
        invariant
            decimal_digits(m as nat) == decimal_digits(q as nat) + digits@.reverse(),
        decreases q,
    {
        let c = digit_of(q % 10);
        let ghost old_digits = digits@;
        let ghost old_q = q;
        digits.push(c);
        q = q / 10;
        assert(digits@.reverse() =~= seq![c] + old_digits.reverse());
        assert(decimal_digits(old_q as nat) == decimal_digits(q as nat).push(c));
        assert(decimal_digits(q as nat).push(c) + old_digits.reverse() =~= decimal_digits(q as nat)
            + digits@.reverse());
    }
    let c = digit_of(q);
    let ghost old_digits = digits@;
    digits.push(c);
    assert(digits@.reverse() =~= seq![c] + old_digits.reverse());
    assert(decimal_digits(m as nat) =~= digits@.reverse());
    let mut k: usize = digits.len();
    while k > 0
        invariant
            k <= digits@.len(),
            s@ == old(s)@ + (if n < 0 { seq!['-'] } else { Seq::<char>::empty() })
                + digits@.reverse().take((digits@.len() - k) as int),
        decreases k,
    {
        k = k - 1;
        crate::text::push_char(s, digits[k]);
        assert(digits@.reverse().take((digits@.len() - k) as int) =~= digits@.reverse().take(
            (digits@.len() - k - 1) as int,
        ).push(digits@[k as int]));
    }
    assert(digits@.reverse().take(digits@.len() as int) =~= digits@.reverse());
}

/// The size label of a selection (see `size_label`).
pub fn selection_label(width: i32, height: i32) -> (r: String)
    ensures
        r@ == size_label(width as int, height as int),
{
    let mut r = String::new();
    push_decimal(&mut r, width as i64);
    crate::text::push_char(&mut r, 'x');
    push_decimal(&mut r, height as i64);
    r
}

// ---------------------------------------------------------------------------
// Selector state
// ---------------------------------------------------------------------------

/// Virtual-key code of the Escape key.
pub const VK_ESCAPE: u32 = 0x1B;

/// Smallest width and height (exclusive) that a dragged rectangle needs to be
/// taken as a selection.
pub const MIN_SELECTION_SIZE: i64 = 5;

/// Input that reaches the selector window.
#[derive(Debug, Clone, Copy, PartialEq, Eq, Structural)]
pub enum SelectorEvent {
    /// The left button went down at a point.
    MouseDown(i32, i32),
    /// The mouse moved to a point.
    MouseMove(i32, i32),
    /// The left button went up at a point.
    MouseUp(i32, i32),
    /// A key went down, with its virtual-key code.
    KeyDown(u32),
}

/// What the window does after an event.
#[derive(Debug, Clone, Copy, PartialEq, Eq, Structural)]
pub enum SelectorAction {
    /// Nothing to do.
    Nothing,
    /// Paint the layer again.
    Redraw,
    /// Close the selector with its outcome: a region, or none when cancelled
    /// or too small.
    Close(Option<SelectedRegion>),
}

/// The selector's state while the window is open.
#[derive(Debug, Clone, Copy)]
pub struct SelectorState {
    /// Where the drag began.
    pub start_point: Option<(i32, i32)>,
    /// The latest mouse position seen while dragging.
    pub current_point: (i32, i32),
    /// Whether the left button is held.
    pub is_dragging: bool,
    /// The selection, once made.
    pub result: Option<SelectedRegion>,
    /// Whether Escape was pressed.
    pub cancelled: bool,
    /// Screen width in pixels.
    pub screen_width: i32,
    /// Screen height in pixels.
    pub screen_height: i32,
}

/// The smaller of two integers.
pub open spec fn min_i(a: int, b: int) -> int {
    if a <= b { a } else { b }
}

/// The larger of two integers.
pub open spec fn max_i(a: int, b: int) -> int {
    if a >= b { a } else { b }
}

/// The region spanned by a drag from `start` to `end`, when both sides exceed
/// `MIN_SELECTION_SIZE` pixels; the corner and size are converted to `u32` as
/// the window reports them.
pub open spec fn drag_region(start: (i32, i32), end: (i32, i32)) -> Option<SelectedRegion> {
    let x1 = min_i(start.0 as int, end.0 as int);
    let y1 = min_i(start.1 as int, end.1 as int);
    let w = max_i(start.0 as int, end.0 as int) - x1;
    let h = max_i(start.1 as int, end.1 as int) - y1;
    if w > MIN_SELECTION_SIZE && h > MIN_SELECTION_SIZE {
        Some(SelectedRegion { x: x1 as u32, y: y1 as u32, width: w as u32, height: h as u32 })
    } else {
        None
    }
}

/// The selector after an event, and what the window does.
pub open spec fn selector_step(s: SelectorState, ev: SelectorEvent) -> (SelectorState, SelectorAction) {
    match ev {
        SelectorEvent::MouseDown(x, y) => (
            SelectorState { start_point: Some((x, y)), current_point: (x, y), is_dragging: true, ..s },
            SelectorAction::Redraw,
        ),
        SelectorEvent::MouseMove(x, y) => if s.is_dragging {
            (SelectorState { current_point: (x, y), ..s }, SelectorAction::Redraw)
        } else {
            (s, SelectorAction::Nothing)
        },
        SelectorEvent::MouseUp(x, y) => if s.is_dragging {
            let region = match s.start_point {
                Some(start) => drag_region(start, (x, y)),
                None => None,
            };
            (
                SelectorState {
                    current_point: (x, y),
                    is_dragging: false,
                    result: if region is Some { region } else { s.result },
                    ..s
                },
                SelectorAction::Close(region),
            )
        } else {
            (s, SelectorAction::Nothing)
        },
        SelectorEvent::KeyDown(vk) => if vk == VK_ESCAPE {
            (SelectorState { cancelled: true, ..s }, SelectorAction::Close(None))
        } else {
            (s, SelectorAction::Nothing)
        },
    }
}

/// The rectangle being dragged, as (left, top, right, bottom).
pub open spec fn selection_spec(s: SelectorState) -> Option<(i32, i32, i32, i32)> {
    if s.is_dragging {
        match s.start_point {
            Some(start) => Some(
                (
                    min_i(start.0 as int, s.current_point.0 as int) as i32,
                    min_i(start.1 as int, s.current_point.1 as int) as i32,
                    max_i(start.0 as int, s.current_point.0 as int) as i32,
                    max_i(start.1 as int, s.current_point.1 as int) as i32,
                ),
            ),
            None => None,
        }
    } else {
        None
    }
}

/// The point packed in the `lparam` of a mouse message: the low 16 bits are
/// x and the next 16 bits are y, each a signed 16-bit number.
pub open spec fn lparam_point(lparam: isize) -> (i32, i32) {
    (((lparam & 0xFFFF) as i16) as i32, (((lparam >> 16) & 0xFFFF) as i16) as i32)
}

/// Reads the point of a mouse message (see `lparam_point`).
pub fn point_from_lparam(lparam: isize) -> (r: (i32, i32))
    ensures
        r == lparam_point(lparam),
{
    (((lparam & 0xFFFF) as i16) as i32, (((lparam >> 16) & 0xFFFF) as i16) as i32)
}

/// The region spanned by a drag (see `drag_region`).
pub fn region_from_drag(start: (i32, i32), end: (i32, i32)) -> (r: Option<SelectedRegion>)
    ensures
        r == drag_region(start, end),
{
    let x1: i64 = if start.0 <= end.0 { start.0 as i64 } else { end.0 as i64 };
    let y1: i64 = if start.1 <= end.1 { start.1 as i64 } else { end.1 as i64 };
    let x2: i64 = if start.0 >= end.0 { start.0 as i64 } else { end.0 as i64 };
    let y2: i64 = if start.1 >= end.1 { start.1 as i64 } else { end.1 as i64 };
    let w: i64 = x2 - x1;
    let h: i64 = y2 - y1;
    if w > MIN_SELECTION_SIZE && h > MIN_SELECTION_SIZE {
        Some(SelectedRegion { x: x1 as u32, y: y1 as u32, width: w as u32, height: h as u32 })
    } else {
        None
    }
}

impl SelectorState {
    /// A selector for a screen of the given size, before any input.
    pub fn new(screen_width: i32, screen_height: i32) -> (s: Self)
        ensures
            s.start_point is None,
            s.current_point == (0i32, 0i32),
            !s.is_dragging,
            s.result is None,
            !s.cancelled,
            s.screen_width == screen_width,
            s.screen_height == screen_height,
    {
        SelectorState {
            start_point: None,
            current_point: (0, 0),
            is_dragging: false,
            result: None,
            cancelled: false,
            screen_width,
            screen_height,
        }
    }

    /// Applies an event (see `selector_step`) and returns what the window does.
    pub fn handle_event(&mut self, ev: SelectorEvent) -> (a: SelectorAction)
        ensures
            (*final(self), a) == selector_step(*old(self), ev),
    {
        match ev {
            SelectorEvent::MouseDown(x, y) => {
                self.start_point = Some((x, y));
                self.current_point = (x, y);
                self.is_dragging = true;
                SelectorAction::Redraw
            },
            SelectorEvent::MouseMove(x, y) => {
                if self.is_dragging {
                    self.current_point = (x, y);
                    SelectorAction::Redraw
                } else {
                    SelectorAction::Nothing
                }
            },
            SelectorEvent::MouseUp(x, y) => {
                if self.is_dragging {
                    self.current_point = (x, y);
                    self.is_dragging = false;
                    let region = match self.start_point {
                        Some(start) => region_from_drag(start, (x, y)),
                        None => None,
                    };
                    if region.is_some() {
                        self.result = region;
                    }
                    SelectorAction::Close(region)
                } else {
                    SelectorAction::Nothing
                }
            },
            SelectorEvent::KeyDown(vk) => {
                if vk == VK_ESCAPE {
                    self.cancelled = true;
                    SelectorAction::Close(None)
                } else {
                    SelectorAction::Nothing
                }
            },
        }
    }

    /// The rectangle being dragged (see `selection_spec`).
    pub fn selection_rect(&self) -> (r: Option<(i32, i32, i32, i32)>)
        ensures
            r == selection_spec(*self),
    {
        if self.is_dragging {
            match self.start_point {
                Some(start) => {
                    let c = self.current_point;
                    let x1 = if start.0 <= c.0 { start.0 } else { c.0 };
                    let y1 = if start.1 <= c.1 { start.1 } else { c.1 };
                    let x2 = if start.0 >= c.0 { start.0 } else { c.0 };
                    let y2 = if start.1 >= c.1 { start.1 } else { c.1 };
                    Some((x1, y1, x2, y2))
                },
                None => None,
            }
        } else {
            None
        }
    }
}

/// Releasing the button after a drag of more than `MIN_SELECTION_SIZE` pixels
/// each way closes the selector with the dragged region; pressing Escape
/// closes it with none.
pub proof fn law_drag_selects(s: SelectorState, x0: i32, y0: i32, x1: i32, y1: i32)
    ensures
        ({
            let (s1, _) = selector_step(s, SelectorEvent::MouseDown(x0, y0));
            let (_, a) = selector_step(s1, SelectorEvent::MouseUp(x1, y1));
            a == SelectorAction::Close(drag_region((x0, y0), (x1, y1)))
        }),
        selector_step(s, SelectorEvent::KeyDown(VK_ESCAPE)).1 == SelectorAction::Close(None),
{
}

/// The region a drag selects does not depend on the direction of the drag:
/// its corner is at the smaller coordinates of the two points and its size is
/// their distance on each axis; it is selected exactly when both distances
/// exceed `MIN_SELECTION_SIZE`.
pub proof fn law_drag_direction_free(a: (i32, i32), b: (i32, i32))
    ensures
        drag_region(a, b) == drag_region(b, a),
        ({
            let dx: int = if a.0 <= b.0 { b.0 - a.0 } else { a.0 - b.0 };
            let dy: int = if a.1 <= b.1 { b.1 - a.1 } else { a.1 - b.1 };
            &&& drag_region(a, b) is Some <==> (dx > 5 && dy > 5)
            &&& drag_region(a, b) matches Some(r) ==> {
                &&& r.x == (if a.0 <= b.0 { a.0 } else { b.0 }) as u32
                &&& r.y == (if a.1 <= b.1 { a.1 } else { b.1 }) as u32
                &&& r.width == dx as u32
                &&& r.height == dy as u32
            }
        }),
{
}

// ---------------------------------------------------------------------------
// Painting the layer
// ---------------------------------------------------------------------------

/// The colour of a pixel of the selector layer, as [B, G, R, A] with
/// premultiplied alpha: the border around the selection (`BORDER_WIDTH` pixels
/// outside it) is opaque blue, the selection itself fully transparent, and
/// everything else black at `OVERLAY_ALPHA`.
pub open spec fn layer_pixel(x: int, y: int, selection: Option<(i32, i32, i32, i32)>) -> Seq<u8> {
    let dark = seq![0u8, 0u8, 0u8, OVERLAY_ALPHA];
    match selection {
        Some((x1, y1, x2, y2)) => {
            let inside = x1 <= x < x2 && y1 <= y < y2;
            let border = x1 - BORDER_WIDTH <= x < x2 + BORDER_WIDTH && y1 - BORDER_WIDTH <= y < y2
                + BORDER_WIDTH && !inside;
            if border {
                seq![BORDER_COLOR_B, BORDER_COLOR_G, BORDER_COLOR_R, 255u8]
            } else if inside {
                seq![0u8, 0u8, 0u8, 0u8]
            } else {
                dark
            }
        },
        None => dark,
    }
}

/// Byte `i` of a `w` x `h` bitmap after painting the layer.
pub open spec fn layer_byte(
    old: Seq<u8>,
    w: int,
    h: int,
    selection: Option<(i32, i32, i32, i32)>,
    i: int,
) -> u8 {
    if w > 0 && h > 0 && i < 4 * w * h {
        layer_pixel(byte_px(i, w), byte_py(i, w), selection)[i % 4]
    } else {
        old[i]
    }
}

/// Paints the dimmed layer, the transparent selection and its border on a
/// `w` x `h` BGRA bitmap (see `layer_pixel`).
pub fn paint_selector_layer(
    pixels: &mut [u8],
    w: i32,
    h: i32,
    selection: Option<(i32, i32, i32, i32)>,
)
    requires
        w <= 0 || h <= 0 || 4 * w * h <= old(pixels)@.len(),
    ensures
        final(pixels)@.len() == old(pixels)@.len(),
        forall|i: int|
            0 <= i < old(pixels)@.len() ==> final(pixels)@[i] == layer_byte(
                old(pixels)@,
                w as int,
                h as int,
                selection,
                i,
            ),
{
    let ghost old_px = pixels@;
    if w <= 0 || h <= 0 {
        return;
    }
    proof {
        assert(w * h <= 0x4000_0000_0000_0000) by (nonlinear_arith)
            requires
                0 < w <= 0x8000_0000,
                0 < h <= 0x8000_0000,
        ;
        assert(4 * w * h == 4 * (w * h)) by (nonlinear_arith);
    }
    let mut y: i32 = 0;
    while y < h
        invariant
            0 <= y <= h,
            w > 0,
            h > 0,
            4 * w * h <= old_px.len(),
            4 * w * h == 4 * (w * h),
            w * h <= 0x4000_0000_0000_0000,
            pixels@.len() == old_px.len(),
            forall|i: int|
                0 <= i < old_px.len() ==> pixels@[i] == if i < 4 * (y * w) {
                    layer_byte(old_px, w as int, h as int, selection, i)
                } else {
                    old_px[i]
                },
        decreases h - y,
    {
        let mut x: i32 = 0;
        while x < w
            invariant
                0 <= y < h,
                0 <= x <= w,
                w > 0,
                h > 0,
                4 * w * h <= old_px.len(),
                4 * w * h == 4 * (w * h),
                w * h <= 0x4000_0000_0000_0000,
                pixels@.len() == old_px.len(),
                forall|i: int|
                    0 <= i < old_px.len() ==> pixels@[i] == if i < 4 * (y * w + x) {
                        layer_byte(old_px, w as int, h as int, selection, i)
                    } else {
                        old_px[i]
                    },
            decreases w - x,
        {
            let xi = x as i64;
            let yi = y as i64;
            let (in_selection, in_border) = match selection {
                Some((x1, y1, x2, y2)) => {
                    let bw = BORDER_WIDTH as i64;
                    let ins = xi >= x1 as i64 && xi < x2 as i64 && yi >= y1 as i64 && yi < y2 as i64;
                    let bord = xi >= x1 as i64 - bw && xi < x2 as i64 + bw && yi >= y1 as i64 - bw
                        && yi < y2 as i64 + bw && !ins;
                    (ins, bord)
                },
                None => (false, false),
            };
            let (b, g, r, a): (u8, u8, u8, u8) = if in_border {
                (BORDER_COLOR_B, BORDER_COLOR_G, BORDER_COLOR_R, 255)
            } else if in_selection {
                (0, 0, 0, 0)
            } else {
                (0, 0, 0, OVERLAY_ALPHA)
            };
            let ghost colour = layer_pixel(x as int, y as int, selection);
            assert(colour == seq![b, g, r, a]);
            proof {
                assert(y * w + x < w * h) by (nonlinear_arith)
                    requires
                        0 <= x < w,
                        0 <= y < h,
                ;
                assert(0 <= y * w + x) by (nonlinear_arith)
                    requires
                        0 <= x < w,
                        0 <= y,
                ;
            }
            let plen = pixels.len();
            assert(4 * (y * w + x) < plen);
            let idx: usize = (((y as i128) * (w as i128) + (x as i128)) * 4) as usize;
            assert(idx == 4 * (y * w + x));
            let ghost before = pixels@;
            pixels[idx] = b;
            pixels[idx + 1] = g;
            pixels[idx + 2] = r;
            pixels[idx + 3] = a;
            proof {
                assert forall|i: int| 0 <= i < old_px.len() implies pixels@[i] == if i < 4 * (y
                    * w + x + 1) {
                    layer_byte(old_px, w as int, h as int, selection, i)
                } else {
                    old_px[i]
                } by {
                    if idx <= i < idx + 4 {
                        lemma_pixel_bytes(i, w as int, x as int, y as int);
                        vstd::arithmetic::div_mod::lemma_fundamental_div_mod_converse(
                            i,
                            4,
                            y * w + x,
                            i - idx,
                        );
                        assert(i < 4 * w * h);
                    }
                }
            }
            x = x + 1;
        }
        proof {
            assert(y * w + w == (y + 1) * w) by (nonlinear_arith);
        }
        y = y + 1;
    }
    proof {
        assert(h * w == w * h) by (nonlinear_arith);
        assert forall|i: int| 0 <= i < old_px.len() implies pixels@[i] == layer_byte(
            old_px,
            w as int,
            h as int,
            selection,
            i,
        ) by {}
    }
}

/// The selector layer for a state: the painted layer, then the title centred
/// near the top, then the size of the selection above its corner.
pub open spec fn selector_frame(
    old: Seq<u8>,
    s: SelectorState,
    title: Option<Seq<char>>,
) -> Seq<u8> {
    let w = s.screen_width as int;
    let h = s.screen_height as int;
    let sel = selection_spec(s);
    let p1 = Seq::new(old.len(), |i: int| layer_byte(old, w, h, sel, i));
    let p2 = match title {
        Some(t) => Seq::new(
            old.len(),
            |i: int| drawn_byte(p1, w, h, t, label_start_x(t, w / 2, true), TITLE_TOP as int, i),
        ),
        None => p1,
    };
    match sel {
        Some((x1, y1, x2, y2)) => Seq::new(
            old.len(),
            |i: int|
                drawn_byte(
                    p2,
                    w,
                    h,
                    size_label(x2 - x1, y2 - y1),
                    x1 as int,
                    y1 - SIZE_LABEL_RISE,
                    i,
                ),
        ),
        None => p2,
    }
}

/// Row of the top of the title.
pub const TITLE_TOP: i32 = 50;

/// How far above the selection the size label's top row sits.
pub const SIZE_LABEL_RISE: i32 = 18;

/// Paints a frame of the selector on a bitmap of the screen's size (see
/// `selector_frame`).
pub fn render_selector_frame(pixels: &mut [u8], state: &SelectorState, title: Option<&str>)
    requires
        state.screen_width <= 0 || state.screen_height <= 0 || 4 * state.screen_width
            * state.screen_height <= old(pixels)@.len(),
        selection_spec(*state) matches Some((x1, y1, x2, y2)) ==> {
            &&& x2 - x1 <= i32::MAX
            &&& y2 - y1 <= i32::MAX
            &&& y1 - SIZE_LABEL_RISE >= i32::MIN
        },
    ensures
        final(pixels)@ == selector_frame(
            old(pixels)@,
            *state,
            match title {
                Some(t) => Some(t@),
                None => None,
            },
        ),
{
    let ghost old_px = pixels@;
    let w = state.screen_width;
    let h = state.screen_height;
    let selection = state.selection_rect();
    paint_selector_layer(pixels, w, h, selection);
    let ghost p1 = pixels@;
    assert(p1 =~= Seq::new(old_px.len(), |i: int| layer_byte(old_px, w as int, h as int, selection, i)));
    match title {
        Some(t) => {
            draw_text_on_bitmap(pixels, w, h, t, w / 2, TITLE_TOP, true);
            assert(pixels@ =~= Seq::new(
                old_px.len(),
                |i: int| drawn_byte(p1, w as int, h as int, t@, label_start_x(t@, (w / 2) as int, true), TITLE_TOP as int, i),
            ));
        },
        None => {},
    }
    let ghost p2 = pixels@;
    match selection {
        Some((x1, y1, x2, y2)) => {
            let label = selection_label(x2 - x1, y2 - y1);
            draw_text_on_bitmap(pixels, w, h, label.as_str(), x1, y1 - SIZE_LABEL_RISE, false);
            assert(pixels@ =~= Seq::new(
                old_px.len(),
                |i: int| drawn_byte(p2, w as int, h as int, size_label(x2 - x1, y2 - y1), x1 as int, y1 - SIZE_LABEL_RISE, i),
            ));
        },
        None => {},
    }
}

} // verus!
