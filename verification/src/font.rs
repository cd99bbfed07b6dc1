//! A font of five by seven pixels, and text drawn with it.
//!
//! The font has the capital letters, the digits, colon, plus, minus and the
//! space; small letters are drawn as capitals. A character without a glyph
//! takes its place in a text but draws nothing.

use crate::raster::{block, fill_block, lemma_block, HEIGHT, WIDTH};
use vstd::prelude::*;

verus! {

/// Columns of a glyph.
pub const GLYPH_WIDTH: u32 = 5;

/// Rows of a glyph.
pub const GLYPH_HEIGHT: u32 = 7;

/// The rows of the letter A, top first; the highest of the five bits is the
/// leftmost pixel.
pub const GLYPH_A: [u8; 7] = [0b01110, 0b10001, 0b10001, 0b11111, 0b10001, 0b10001, 0b10001];

/// The rows of the letter B, top first; the highest of the five bits is the
/// leftmost pixel.
pub const GLYPH_B: [u8; 7] = [0b11110, 0b10001, 0b11110, 0b10001, 0b10001, 0b10001, 0b11110];

/// The rows of the letter C, top first; the highest of the five bits is the
/// leftmost pixel.
pub const GLYPH_C: [u8; 7] = [0b01110, 0b10001, 0b10000, 0b10000, 0b10000, 0b10001, 0b01110];

/// The rows of the letter D, top first; the highest of the five bits is the
/// leftmost pixel.
pub const GLYPH_D: [u8; 7] = [0b11100, 0b10010, 0b10001, 0b10001, 0b10001, 0b10010, 0b11100];

/// The rows of the letter E, top first; the highest of the five bits is the
/// leftmost pixel.
pub const GLYPH_E: [u8; 7] = [0b11111, 0b10000, 0b11110, 0b10000, 0b10000, 0b10000, 0b11111];

/// The rows of the letter F, top first; the highest of the five bits is the
/// leftmost pixel.
pub const GLYPH_F: [u8; 7] = [0b11111, 0b10000, 0b11110, 0b10000, 0b10000, 0b10000, 0b10000];

/// The rows of the letter G, top first; the highest of the five bits is the
/// leftmost pixel.
pub const GLYPH_G: [u8; 7] = [0b01110, 0b10001, 0b10000, 0b10111, 0b10001, 0b10001, 0b01110];

/// The rows of the letter H, top first; the highest of the five bits is the
/// leftmost pixel.
pub const GLYPH_H: [u8; 7] = [0b10001, 0b10001, 0b11111, 0b10001, 0b10001, 0b10001, 0b10001];

/// The rows of the letter I, top first; the highest of the five bits is the
/// leftmost pixel.
pub const GLYPH_I: [u8; 7] = [0b11111, 0b00100, 0b00100, 0b00100, 0b00100, 0b00100, 0b11111];

/// The rows of the letter J, top first; the highest of the five bits is the
/// leftmost pixel.
pub const GLYPH_J: [u8; 7] = [0b00111, 0b00010, 0b00010, 0b00010, 0b10010, 0b10010, 0b01100];

/// The rows of the letter K, top first; the highest of the five bits is the
/// leftmost pixel.
pub const GLYPH_K: [u8; 7] = [0b10001, 0b10010, 0b10100, 0b11000, 0b10100, 0b10010, 0b10001];

/// The rows of the letter L, top first; the highest of the five bits is the
/// leftmost pixel.
pub const GLYPH_L: [u8; 7] = [0b10000, 0b10000, 0b10000, 0b10000, 0b10000, 0b10000, 0b11111];

/// The rows of the letter M, top first; the highest of the five bits is the
/// leftmost pixel.
pub const GLYPH_M: [u8; 7] = [0b10001, 0b11011, 0b10101, 0b10101, 0b10001, 0b10001, 0b10001];

/// The rows of the letter N, top first; the highest of the five bits is the
/// leftmost pixel.
pub const GLYPH_N: [u8; 7] = [0b10001, 0b11001, 0b10101, 0b10011, 0b10001, 0b10001, 0b10001];

/// The rows of the letter O, top first; the highest of the five bits is the
/// leftmost pixel.
pub const GLYPH_O: [u8; 7] = [0b01110, 0b10001, 0b10001, 0b10001, 0b10001, 0b10001, 0b01110];

/// The rows of the letter P, top first; the highest of the five bits is the
/// leftmost pixel.
pub const GLYPH_P: [u8; 7] = [0b11110, 0b10001, 0b10001, 0b11110, 0b10000, 0b10000, 0b10000];

/// The rows of the letter Q, top first; the highest of the five bits is the
/// leftmost pixel.
pub const GLYPH_Q: [u8; 7] = [0b01110, 0b10001, 0b10001, 0b10001, 0b10101, 0b10010, 0b01101];

/// The rows of the letter R, top first; the highest of the five bits is the
/// leftmost pixel.
pub const GLYPH_R: [u8; 7] = [0b11110, 0b10001, 0b10001, 0b11110, 0b10100, 0b10010, 0b10001];

/// The rows of the letter S, top first; the highest of the five bits is the
/// leftmost pixel.
pub const GLYPH_S: [u8; 7] = [0b01111, 0b10000, 0b10000, 0b01110, 0b00001, 0b00001, 0b11110];

/// The rows of the letter T, top first; the highest of the five bits is the
/// leftmost pixel.
pub const GLYPH_T: [u8; 7] = [0b11111, 0b00100, 0b00100, 0b00100, 0b00100, 0b00100, 0b00100];

/// The rows of the letter U, top first; the highest of the five bits is the
/// leftmost pixel.
pub const GLYPH_U: [u8; 7] = [0b10001, 0b10001, 0b10001, 0b10001, 0b10001, 0b10001, 0b01110];

/// The rows of the letter V, top first; the highest of the five bits is the
/// leftmost pixel.
pub const GLYPH_V: [u8; 7] = [0b10001, 0b10001, 0b10001, 0b10001, 0b10001, 0b01010, 0b00100];

/// The rows of the letter W, top first; the highest of the five bits is the
/// leftmost pixel.
pub const GLYPH_W: [u8; 7] = [0b10001, 0b10001, 0b10001, 0b10101, 0b10101, 0b11011, 0b10001];

/// The rows of the letter X, top first; the highest of the five bits is the
/// leftmost pixel.
pub const GLYPH_X: [u8; 7] = [0b10001, 0b10001, 0b01010, 0b00100, 0b01010, 0b10001, 0b10001];

/// The rows of the letter Y, top first; the highest of the five bits is the
/// leftmost pixel.
pub const GLYPH_Y: [u8; 7] = [0b10001, 0b10001, 0b01010, 0b00100, 0b00100, 0b00100, 0b00100];

/// The rows of the letter Z, top first; the highest of the five bits is the
/// leftmost pixel.
pub const GLYPH_Z: [u8; 7] = [0b11111, 0b00001, 0b00010, 0b00100, 0b01000, 0b10000, 0b11111];

/// The rows of the digit 0, top first; the highest of the five bits is the
/// leftmost pixel.
pub const GLYPH_DIGIT_0: [u8; 7] = [0b01110, 0b10001, 0b10011, 0b10101, 0b11001, 0b10001, 0b01110];

/// The rows of the digit 1, top first; the highest of the five bits is the
/// leftmost pixel.
pub const GLYPH_DIGIT_1: [u8; 7] = [0b00100, 0b01100, 0b00100, 0b00100, 0b00100, 0b00100, 0b01110];

/// The rows of the digit 2, top first; the highest of the five bits is the
/// leftmost pixel.
pub const GLYPH_DIGIT_2: [u8; 7] = [0b01110, 0b10001, 0b00001, 0b00010, 0b00100, 0b01000, 0b11111];

/// The rows of the digit 3, top first; the highest of the five bits is the
/// leftmost pixel.
pub const GLYPH_DIGIT_3: [u8; 7] = [0b11110, 0b00001, 0b00001, 0b01110, 0b00001, 0b00001, 0b11110];

/// The rows of the digit 4, top first; the highest of the five bits is the
/// leftmost pixel.
pub const GLYPH_DIGIT_4: [u8; 7] = [0b00010, 0b00110, 0b01010, 0b10010, 0b11111, 0b00010, 0b00010];

/// The rows of the digit 5, top first; the highest of the five bits is the
/// leftmost pixel.
pub const GLYPH_DIGIT_5: [u8; 7] = [0b11111, 0b10000, 0b11110, 0b00001, 0b00001, 0b10001, 0b01110];

/// The rows of the digit 6, top first; the highest of the five bits is the
/// leftmost pixel.
pub const GLYPH_DIGIT_6: [u8; 7] = [0b00110, 0b01000, 0b10000, 0b11110, 0b10001, 0b10001, 0b01110];

/// The rows of the digit 7, top first; the highest of the five bits is the
/// leftmost pixel.
pub const GLYPH_DIGIT_7: [u8; 7] = [0b11111, 0b00001, 0b00010, 0b00100, 0b01000, 0b01000, 0b01000];

/// The rows of the digit 8, top first; the highest of the five bits is the
/// leftmost pixel.
pub const GLYPH_DIGIT_8: [u8; 7] = [0b01110, 0b10001, 0b10001, 0b01110, 0b10001, 0b10001, 0b01110];

/// The rows of the digit 9, top first; the highest of the five bits is the
/// leftmost pixel.
pub const GLYPH_DIGIT_9: [u8; 7] = [0b01110, 0b10001, 0b10001, 0b01111, 0b00001, 0b00010, 0b01100];

/// The rows of the colon, top first; the highest of the five bits is the
/// leftmost pixel.
pub const GLYPH_COLON: [u8; 7] = [0b00000, 0b00100, 0b00000, 0b00000, 0b00100, 0b00000, 0b00000];

/// The rows of the plus sign, top first; the highest of the five bits is the
/// leftmost pixel.
pub const GLYPH_PLUS: [u8; 7] = [0b00000, 0b00100, 0b00100, 0b11111, 0b00100, 0b00100, 0b00000];

/// The rows of the minus sign, top first; the highest of the five bits is the
/// leftmost pixel.
pub const GLYPH_MINUS: [u8; 7] = [0b00000, 0b00000, 0b00000, 0b11111, 0b00000, 0b00000, 0b00000];

/// The rows of the space, top first; the highest of the five bits is the
/// leftmost pixel.
pub const GLYPH_SPACE: [u8; 7] = [0b00000, 0b00000, 0b00000, 0b00000, 0b00000, 0b00000, 0b00000];

/// The glyph of a character, if the font has one. Small letters have the
/// glyphs of the capitals.
pub open spec fn glyph_rows(ch: char) -> Option<[u8; 7]> {
    if ch == 'A' || ch == 'a' {
        Some(GLYPH_A)
    }     else if ch == 'B' || ch == 'b' {
        Some(GLYPH_B)
    }     else if ch == 'C' || ch == 'c' {
        Some(GLYPH_C)
    }     else if ch == 'D' || ch == 'd' {
        Some(GLYPH_D)
    }     else if ch == 'E' || ch == 'e' {
        Some(GLYPH_E)
    }     else if ch == 'F' || ch == 'f' {
        Some(GLYPH_F)
    }     else if ch == 'G' || ch == 'g' {
        Some(GLYPH_G)
    }     else if ch == 'H' || ch == 'h' {
        Some(GLYPH_H)
    }     else if ch == 'I' || ch == 'i' {
        Some(GLYPH_I)
    }     else if ch == 'J' || ch == 'j' {
        Some(GLYPH_J)
    }     else if ch == 'K' || ch == 'k' {
        Some(GLYPH_K)
    }     else if ch == 'L' || ch == 'l' {
        Some(GLYPH_L)
    }     else if ch == 'M' || ch == 'm' {
        Some(GLYPH_M)
    }     else if ch == 'N' || ch == 'n' {
        Some(GLYPH_N)
    }     else if ch == 'O' || ch == 'o' {
        Some(GLYPH_O)
    }     else if ch == 'P' || ch == 'p' {
        Some(GLYPH_P)
    }     else if ch == 'Q' || ch == 'q' {
        Some(GLYPH_Q)
    }     else if ch == 'R' || ch == 'r' {
        Some(GLYPH_R)
    }     else if ch == 'S' || ch == 's' {
        Some(GLYPH_S)
    }     else if ch == 'T' || ch == 't' {
        Some(GLYPH_T)
    }     else if ch == 'U' || ch == 'u' {
        Some(GLYPH_U)
    }     else if ch == 'V' || ch == 'v' {
        Some(GLYPH_V)
    }     else if ch == 'W' || ch == 'w' {
        Some(GLYPH_W)
    }     else if ch == 'X' || ch == 'x' {
        Some(GLYPH_X)
    }     else if ch == 'Y' || ch == 'y' {
        Some(GLYPH_Y)
    }     else if ch == 'Z' || ch == 'z' {
        Some(GLYPH_Z)
    }     else if ch == '0' {
        Some(GLYPH_DIGIT_0)
    }     else if ch == '1' {
        Some(GLYPH_DIGIT_1)
    }     else if ch == '2' {
        Some(GLYPH_DIGIT_2)
    }     else if ch == '3' {
        Some(GLYPH_DIGIT_3)
    }     else if ch == '4' {
        Some(GLYPH_DIGIT_4)
    }     else if ch == '5' {
        Some(GLYPH_DIGIT_5)
    }     else if ch == '6' {
        Some(GLYPH_DIGIT_6)
    }     else if ch == '7' {
        Some(GLYPH_DIGIT_7)
    }     else if ch == '8' {
        Some(GLYPH_DIGIT_8)
    }     else if ch == '9' {
        Some(GLYPH_DIGIT_9)
    }     else if ch == ':' {
        Some(GLYPH_COLON)
    }     else if ch == '+' {
        Some(GLYPH_PLUS)
    }     else if ch == '-' {
        Some(GLYPH_MINUS)
    }     else if ch == ' ' {
        Some(GLYPH_SPACE)
    } else {
        None
    }
}

/// The glyph of a character, if the font has one.
pub fn glyph_5x7(ch: char) -> (g: Option<[u8; 7]>)
    ensures
        g == glyph_rows(ch),
{
    match ch {
        'A' | 'a' => Some(GLYPH_A),
        'B' | 'b' => Some(GLYPH_B),
        'C' | 'c' => Some(GLYPH_C),
        'D' | 'd' => Some(GLYPH_D),
        'E' | 'e' => Some(GLYPH_E),
        'F' | 'f' => Some(GLYPH_F),
        'G' | 'g' => Some(GLYPH_G),
        'H' | 'h' => Some(GLYPH_H),
        'I' | 'i' => Some(GLYPH_I),
        'J' | 'j' => Some(GLYPH_J),
        'K' | 'k' => Some(GLYPH_K),
        'L' | 'l' => Some(GLYPH_L),
        'M' | 'm' => Some(GLYPH_M),
        'N' | 'n' => Some(GLYPH_N),
        'O' | 'o' => Some(GLYPH_O),
        'P' | 'p' => Some(GLYPH_P),
        'Q' | 'q' => Some(GLYPH_Q),
        'R' | 'r' => Some(GLYPH_R),
        'S' | 's' => Some(GLYPH_S),
        'T' | 't' => Some(GLYPH_T),
        'U' | 'u' => Some(GLYPH_U),
        'V' | 'v' => Some(GLYPH_V),
        'W' | 'w' => Some(GLYPH_W),
        'X' | 'x' => Some(GLYPH_X),
        'Y' | 'y' => Some(GLYPH_Y),
        'Z' | 'z' => Some(GLYPH_Z),
        '0' => Some(GLYPH_DIGIT_0),
        '1' => Some(GLYPH_DIGIT_1),
        '2' => Some(GLYPH_DIGIT_2),
        '3' => Some(GLYPH_DIGIT_3),
        '4' => Some(GLYPH_DIGIT_4),
        '5' => Some(GLYPH_DIGIT_5),
        '6' => Some(GLYPH_DIGIT_6),
        '7' => Some(GLYPH_DIGIT_7),
        '8' => Some(GLYPH_DIGIT_8),
        '9' => Some(GLYPH_DIGIT_9),
        ':' => Some(GLYPH_COLON),
        '+' => Some(GLYPH_PLUS),
        '-' => Some(GLYPH_MINUS),
        ' ' => Some(GLYPH_SPACE),
        _ => None,
    }
}

/// The weight of column `col` of a glyph within a row: the leftmost
/// column is the highest bit.
pub open spec fn column_weight(col: int) -> int {
    if col == 0 {
        16
    } else if col == 1 {
        8
    } else if col == 2 {
        4
    } else if col == 3 {
        2
    } else {
        1
    }
}

/// Whether the pixel in column `col` of the row `row` of a glyph is set.
pub open spec fn glyph_bit(row: u8, col: int) -> bool {
    (row as int / column_weight(col)) % 2 == 1
}

/// The frame after the first `k` pixels of a glyph were drawn, counted row
/// by row: each set pixel is a block of `scale` by `scale` pixels of the
/// frame.
pub open spec fn glyph_drawn(
    f: Seq<u8>,
    rows: [u8; 7],
    x: int,
    y: int,
    scale: nat,
    c: (u8, u8, u8, u8),
    k: nat,
) -> Seq<u8>
    decreases k,
{
    if k == 0 {
        f
    } else {
        let cell = k - 1;
        let before = glyph_drawn(f, rows, x, y, scale, c, cell as nat);
        if glyph_bit(rows[cell / 5], cell % 5) {
            block(before, x + (cell % 5) * scale, y + (cell / 5) * scale, scale, scale, c)
        } else {
            before
        }
    }
}

/// The frame after a character was drawn with its top left corner at
/// `(x, y)`. A character without a glyph draws nothing.
pub open spec fn char_drawn(
    f: Seq<u8>,
    ch: char,
    x: int,
    y: int,
    scale: nat,
    c: (u8, u8, u8, u8),
) -> Seq<u8> {
    match glyph_rows(ch) {
        Some(rows) => glyph_drawn(f, rows, x, y, scale, c, 35),
        None => f,
    }
}

/// The width that a character takes in a text: five columns and one of
/// space, each of `scale` pixels.
pub open spec fn advance(scale: nat) -> nat {
    6 * scale
}

/// The frame after a text was drawn from `(x, y)` rightwards, character by
/// character.
pub open spec fn text_drawn(
    f: Seq<u8>,
    text: Seq<char>,
    x: int,
    y: int,
    scale: nat,
    c: (u8, u8, u8, u8),
) -> Seq<u8>
    decreases text.len(),
{
    if text.len() == 0 {
        f
    } else {
        char_drawn(
            text_drawn(f, text.drop_last(), x, y, scale, c),
            text.last(),
            x + (text.len() - 1) * advance(scale),
            y,
            scale,
            c,
        )
    }
}

/// A text drawn in two parts is the text drawn in one: the second part
/// starts where the first one ends.
pub proof fn lemma_text_in_parts(
    f: Seq<u8>,
    a: Seq<char>,
    b: Seq<char>,
    x: int,
    y: int,
    scale: nat,
    c: (u8, u8, u8, u8),
)
    ensures
        text_drawn(f, a + b, x, y, scale, c) == text_drawn(
            text_drawn(f, a, x, y, scale, c),
            b,
            x + a.len() * advance(scale),
            y,
            scale,
            c,
        ),
    decreases b.len(),
{
    if b.len() == 0 {
        assert(a + b =~= a);
    } else {
        lemma_text_in_parts(f, a, b.drop_last(), x, y, scale, c);
        assert((a + b).drop_last() =~= a + b.drop_last());
        assert((a + b).last() == b.last());
        assert(x + ((a + b).len() - 1) * advance(scale) == x + a.len() * advance(scale) + (b.len()
            - 1) * advance(scale)) by (nonlinear_arith)
            requires
                (a + b).len() == a.len() + b.len(),
        ;
    }
}

/// A glyph that starts right of the frame or below it draws nothing.
pub proof fn lemma_glyph_outside(
    f: Seq<u8>,
    rows: [u8; 7],
    x: int,
    y: int,
    scale: nat,
    c: (u8, u8, u8, u8),
    k: nat,
)
    requires
        x >= 0,
        y >= 0,
        x >= WIDTH || y >= HEIGHT,
    ensures
        glyph_drawn(f, rows, x, y, scale, c, k) == f,
    decreases k,
{
    if k > 0 {
        let cell = k - 1;
        lemma_glyph_outside(f, rows, x, y, scale, c, cell as nat);
        assert((cell % 5) * scale >= 0 && (cell / 5) * scale >= 0) by (nonlinear_arith)
            requires
                cell >= 0,
                scale >= 0,
        ;
        lemma_block(f, x + (cell % 5) * scale, y + (cell / 5) * scale, scale, scale, c);
    }
}

/// Whether the pixel in column `col` of a row of a glyph is set.
fn bit_at(row: u8, col: u32) -> (b: bool)
    requires
        col < 5,
    ensures
        b == glyph_bit(row, col as int),
{
    let weight: u8 = if col == 0 {
        16
    } else if col == 1 {
        8
    } else if col == 2 {
        4
    } else if col == 3 {
        2
    } else {
        1
    };
    (row / weight) % 2 == 1
}

/// Draws a character with its top left corner in column `x`, row `y`, each
/// pixel of the glyph `scale` pixels wide and high, and returns the width
/// that the character takes in a text. A character without a glyph draws
/// nothing and takes the same width.
pub fn draw_char(frame: &mut [u8], ch: char, x: u32, y: u32, scale: u32, col: (u8, u8, u8, u8))
    -> (width: u32)
    requires
        6 * scale <= u32::MAX,
    ensures
        final(frame)@ == char_drawn(old(frame)@, ch, x as int, y as int, scale as nat, col),
        width == advance(scale as nat),
{
    match glyph_5x7(ch) {
        Some(rows) => {
            let mut k: u32 = 0;
            while k < 35
                invariant
                    0 <= k <= 35,
                    6 * scale <= u32::MAX,
                    frame@ == glyph_drawn(
                        old(frame)@,
                        rows,
                        x as int,
                        y as int,
                        scale as nat,
                        col,
                        k as nat,
                    ),
                decreases 35 - k,
            {
                let ry = k / 5;
                let rx = k % 5;
                if bit_at(rows[ry as usize], rx) {
                    assert(rx * scale <= 4 * scale && ry * scale <= 6 * scale) by (nonlinear_arith)
                        requires
                            0 <= rx <= 4,
                            0 <= ry <= 6,
                            scale >= 0,
                    ;
                    fill_block(
                        frame,
                        x as u64 + (rx as u64) * (scale as u64),
                        y as u64 + (ry as u64) * (scale as u64),
                        scale,
                        scale,
                        col.0,
                        col.1,
                        col.2,
                        col.3,
                    );
                }
                k += 1;
            }
        },
        None => {},
    }
    5 * scale + scale
}

/// Draws a text from column `x`, row `y` rightwards.
pub fn draw_text(frame: &mut [u8], text: &str, x: u32, y: u32, scale: u32, col: (u8, u8, u8, u8))
    requires
        6 * scale <= u32::MAX,
    ensures
        final(frame)@ == text_drawn(old(frame)@, text@, x as int, y as int, scale as nat, col),
{
    let mut cx: u64 = x as u64;
    let ghost mut done: Seq<char> = Seq::empty();
    for ch in it: text.chars()
        invariant
            6 * scale <= u32::MAX,
            it.seq() == text@,
            done == text@.take(it.index() as int),
            cx == x + done.len() * advance(scale as nat) || (cx >= WIDTH && x
                + done.len() * advance(scale as nat) >= WIDTH),
            cx <= 0x2_0000_0000,
            frame@ == text_drawn(old(frame)@, done, x as int, y as int, scale as nat, col),
    {
        let ghost at = x + done.len() * advance(scale as nat);
        let ghost before = frame@;
        proof {
            assert(done.len() * advance(scale as nat) >= 0) by (nonlinear_arith)
                requires
                    done.len() >= 0,
                    advance(scale as nat) >= 0,
            ;
        }
        if cx < WIDTH as u64 {
            let width = draw_char(frame, ch, cx as u32, y, scale, col);
            cx = cx + width as u64;
        } else {
            proof {
                match glyph_rows(ch) {
                    Some(rows) => {
                        lemma_glyph_outside(before, rows, at, y as int, scale as nat, col, 35);
                    },
                    None => {},
                }
            }
        }
        proof {
            let next = text@.take(it.index() + 1);
            assert(next.drop_last() =~= done);
            assert(next.last() == ch);
            assert((done.len() + 1) * advance(scale as nat) == done.len() * advance(scale as nat)
                + advance(scale as nat)) by (nonlinear_arith);
            done = next;
        }
    }
    assert(done =~= text@);
}

/// The digits of a number, the highest first.
pub open spec fn decimal(n: nat) -> Seq<char>
    decreases n,
{
    if n < 10 {
        seq![digit_char(n)]
    } else {
        decimal(n / 10).push(digit_char(n % 10))
    }
}

/// The character of a digit.
pub open spec fn digit_char(d: nat) -> char {
    if d == 0 {
        '0'
    } else if d == 1 {
        '1'
    } else if d == 2 {
        '2'
    } else if d == 3 {
        '3'
    } else if d == 4 {
        '4'
    } else if d == 5 {
        '5'
    } else if d == 6 {
        '6'
    } else if d == 7 {
        '7'
    } else if d == 8 {
        '8'
    } else {
        '9'
    }
}

/// The character of a digit.
fn digit_of(d: u64) -> (ch: char)
    requires
        d < 10,
    ensures
        ch == digit_char(d as nat),
{
    if d == 0 {
        '0'
    } else if d == 1 {
        '1'
    } else if d == 2 {
        '2'
    } else if d == 3 {
        '3'
    } else if d == 4 {
        '4'
    } else if d == 5 {
        '5'
    } else if d == 6 {
        '6'
    } else if d == 7 {
        '7'
    } else if d == 8 {
        '8'
    } else {
        '9'
    }
}

/// The digits of a number in base ten, the highest first.
pub fn digits(n: u64) -> (text: Vec<char>)
    ensures
        text@ == decimal(n as nat),
    decreases n,
{
    if n < 10 {
        let mut text: Vec<char> = Vec::new();
        text.push(digit_of(n));
        text
    } else {
        let mut text = digits(n / 10);
        text.push(digit_of(n % 10));
        text
    }
}

/// Draws characters from column `x`, row `y` rightwards, as `draw_text`
/// draws a text.
pub fn draw_chars(
    frame: &mut [u8],
    text: &Vec<char>,
    x: u32,
    y: u32,
    scale: u32,
    col: (u8, u8, u8, u8),
)
    requires
        6 * scale <= u32::MAX,
    ensures
        final(frame)@ == text_drawn(old(frame)@, text@, x as int, y as int, scale as nat, col),
{
    let mut cx: u64 = x as u64;
    let mut i: usize = 0;
    while i < text.len()
        invariant
            6 * scale <= u32::MAX,
            0 <= i <= text@.len(),
            cx == x + i * advance(scale as nat) || (cx >= WIDTH && x + i * advance(
                scale as nat,
            ) >= WIDTH),
            cx <= 0x2_0000_0000,
            frame@ == text_drawn(
                old(frame)@,
                text@.take(i as int),
                x as int,
                y as int,
                scale as nat,
                col,
            ),
        decreases text@.len() - i,
    {
        let ch = text[i];
        let ghost at = x + i * advance(scale as nat);
        let ghost before = frame@;
        proof {
            assert(i * advance(scale as nat) >= 0) by (nonlinear_arith)
                requires
                    i >= 0,
                    advance(scale as nat) >= 0,
            ;
        }
        if cx < WIDTH as u64 {
            let width = draw_char(frame, ch, cx as u32, y, scale, col);
            cx = cx + width as u64;
        } else {
            proof {
                match glyph_rows(ch) {
                    Some(rows) => {
                        lemma_glyph_outside(before, rows, at, y as int, scale as nat, col, 35);
                    },
                    None => {},
                }
            }
        }
        proof {
            let next = text@.take(i + 1);
            assert(next.drop_last() =~= text@.take(i as int));
            assert(next.last() == ch);
            assert((i + 1) * advance(scale as nat) == i * advance(scale as nat) + advance(
                scale as nat,
            )) by (nonlinear_arith);
        }
        i += 1;
    }
    assert(text@.take(text@.len() as int) =~= text@);
}

} // verus!
