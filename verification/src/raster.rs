//! Drawing into a frame buffer.
//!
//! A frame is a row-major array of pixels of four bytes each: red, green,
//! blue and opacity. Everything is drawn by blending single pixels, and a
//! pixel outside the frame is left out, so that no shape needs to be cut to
//! the frame by its caller.

use vstd::prelude::*;

verus! {

/// Pixels in a row of the frame.
pub const WIDTH: u32 = 800;

/// Rows of the frame.
pub const HEIGHT: u32 = 600;

/// Pixels along the side of a grid cell.
pub const GRID_SIZE: u32 = 20;

/// One channel of `src` laid over `dst` with opacity `a` of 255.
pub open spec fn mix(dst: u8, src: u8, a: u8) -> u8 {
    ((src * a + dst * (255 - a)) / 255) as u8
}

/// The place of the first byte of the pixel in column `x`, row `y`.
pub open spec fn pixel_offset(x: int, y: int) -> int {
    (y * WIDTH + x) * 4
}

/// Whether the pixel in column `x`, row `y` lies in a frame of `len` bytes.
pub open spec fn on_canvas(len: int, x: int, y: int) -> bool {
    0 <= x < WIDTH && 0 <= y < HEIGHT && pixel_offset(x, y) + 3 < len
}

/// The frame after the color `c` (red, green, blue, opacity) was blended
/// into the pixel in column `x`, row `y`: the three color channels are
/// mixed, and the pixel becomes opaque. A pixel outside the frame leaves
/// the frame as it is.
pub open spec fn blended(f: Seq<u8>, x: int, y: int, c: (u8, u8, u8, u8)) -> Seq<u8> {
    if on_canvas(f.len() as int, x, y) {
        let i = pixel_offset(x, y);
        f.update(i, mix(f[i], c.0, c.3)).update(i + 1, mix(f[i + 1], c.1, c.3)).update(
            i + 2,
            mix(f[i + 2], c.2, c.3),
        ).update(i + 3, 255)
    } else {
        f
    }
}

/// The frame after `n` pixels of row `y` were blended, from column `x`
/// rightwards.
pub open spec fn hline(f: Seq<u8>, x: int, y: int, n: nat, c: (u8, u8, u8, u8)) -> Seq<u8>
    decreases n,
{
    if n == 0 {
        f
    } else {
        blended(hline(f, x, y, (n - 1) as nat, c), x + n - 1, y, c)
    }
}

/// The frame after a block of `w` by `h` pixels was blended, with its top
/// left corner in column `x`, row `y`.
pub open spec fn block(f: Seq<u8>, x: int, y: int, w: nat, h: nat, c: (u8, u8, u8, u8)) -> Seq<
    u8,
>
    decreases h,
{
    if h == 0 {
        f
    } else {
        hline(block(f, x, y, w, (h - 1) as nat, c), x, y + h - 1, w, c)
    }
}

/// The frame after every whole pixel was set to the color `c`; bytes after
/// the last whole pixel stay.
pub open spec fn cleared(f: Seq<u8>, c: (u8, u8, u8, u8)) -> Seq<u8> {
    Seq::new(
        f.len(),
        |i: int|
            if i >= f.len() - f.len() % 4 {
                f[i]
            } else if i % 4 == 0 {
                c.0
            } else if i % 4 == 1 {
                c.1
            } else if i % 4 == 2 {
                c.2
            } else {
                c.3
            },
    )
}

/// Blending keeps the frame's length.
pub proof fn lemma_blended_len(f: Seq<u8>, x: int, y: int, c: (u8, u8, u8, u8))
    ensures
        blended(f, x, y, c).len() == f.len(),
{
}

/// A run of pixels keeps the frame's length, and pixels outside the frame
/// do not count: a run that starts right of the frame or lies in no row of
/// it changes nothing, and a run that leaves the frame on the right can be
/// cut off there.
pub proof fn lemma_hline(f: Seq<u8>, x: int, y: int, n: nat, c: (u8, u8, u8, u8))
    requires
        x >= 0,
    ensures
        hline(f, x, y, n, c).len() == f.len(),
        (y < 0 || y >= HEIGHT || x >= WIDTH) ==> hline(f, x, y, n, c) == f,
        x + n > WIDTH && x <= WIDTH ==> hline(f, x, y, n, c) == hline(
            f,
            x,
            y,
            (WIDTH - x) as nat,
            c,
        ),
    decreases n,
{
    if n > 0 {
        lemma_hline(f, x, y, (n - 1) as nat, c);
    }
}

/// A block keeps the frame's length, and pixels outside the frame do not
/// count: a block right of the frame or below it changes nothing, and a
/// block that leaves the frame on the right or at the bottom can be cut off
/// there.
pub proof fn lemma_block(f: Seq<u8>, x: int, y: int, w: nat, h: nat, c: (u8, u8, u8, u8))
    requires
        x >= 0,
        y >= 0,
    ensures
        block(f, x, y, w, h, c).len() == f.len(),
        (x >= WIDTH || y >= HEIGHT) ==> block(f, x, y, w, h, c) == f,
        x + w > WIDTH && x <= WIDTH ==> block(f, x, y, w, h, c) == block(
            f,
            x,
            y,
            (WIDTH - x) as nat,
            h,
            c,
        ),
        y + h > HEIGHT && y <= HEIGHT ==> block(f, x, y, w, h, c) == block(
            f,
            x,
            y,
            w,
            (HEIGHT - y) as nat,
            c,
        ),
    decreases h,
{
    if h > 0 {
        let before = block(f, x, y, w, (h - 1) as nat, c);
        lemma_block(f, x, y, w, (h - 1) as nat, c);
        lemma_hline(before, x, y + h - 1, w, c);
        if x + w > WIDTH && x <= WIDTH {
            let cut = (WIDTH - x) as nat;
            lemma_block(f, x, y, cut, (h - 1) as nat, c);
            lemma_hline(block(f, x, y, cut, (h - 1) as nat, c), x, y + h - 1, cut, c);
        }
    }
}

/// Sets every whole pixel of the frame to one color.
pub fn clear_rgba(frame: &mut [u8], r: u8, g: u8, b: u8, a: u8)
    ensures
        final(frame)@ == cleared(old(frame)@, (r, g, b, a)),
{
    let n = frame.len();
    let whole = n - n % 4;
    let mut i: usize = 0;
    while i < whole
        invariant
            n == frame@.len(),
            n == old(frame)@.len(),
            whole == n - n % 4,
            0 <= i <= whole,
            i % 4 == 0,
            forall|j: int| 0 <= j < i ==> frame@[j] == cleared(old(frame)@, (r, g, b, a))[j],
            forall|j: int| i <= j < n ==> frame@[j] == old(frame)@[j],
        decreases whole - i,
    {
        frame[i] = r;
        frame[i + 1] = g;
        frame[i + 2] = b;
        frame[i + 3] = a;
        i += 4;
    }
    assert(frame@ =~= cleared(old(frame)@, (r, g, b, a)));
}

/// One channel blended.
fn mix_channel(dst: u8, src: u8, a: u8) -> (m: u8)
    ensures
        m == mix(dst, src, a),
{
    assert(0 <= src * a + dst * (255 - a) <= 255 * 255) by (nonlinear_arith)
        requires
            0 <= src <= 255,
            0 <= dst <= 255,
            0 <= a <= 255,
    ;
    let ar = a as u16;
    let iar = (255 - a) as u16;
    (((src as u16) * ar + (dst as u16) * iar) / 255) as u8
}

/// Blends a color into the pixel in column `x`, row `y`. The pixel becomes
/// opaque. A pixel outside the frame is left out.
pub fn blend_pixel(frame: &mut [u8], x: u32, y: u32, r: u8, g: u8, b: u8, a: u8)
    ensures
        final(frame)@ == blended(old(frame)@, x as int, y as int, (r, g, b, a)),
{
    if x >= WIDTH || y >= HEIGHT {
        return;
    }
    let idx = ((y * WIDTH + x) * 4) as usize;
    if idx + 3 >= frame.len() {
        return;
    }
    let dr = frame[idx];
    let dg = frame[idx + 1];
    let db = frame[idx + 2];
    frame[idx] = mix_channel(dr, r, a);
    frame[idx + 1] = mix_channel(dg, g, a);
    frame[idx + 2] = mix_channel(db, b, a);
    frame[idx + 3] = 255;
    assert(frame@ =~= blended(old(frame)@, x as int, y as int, (r, g, b, a)));
}

/// Blends a color into the rectangle of `w` by `h` pixels whose top left
/// corner is in column `x`, row `y`. What lies outside the frame is left
/// out.
pub fn fill_rect_rgba(frame: &mut [u8], x: u32, y: u32, w: u32, h: u32, r: u8, g: u8, b: u8, a: u8)
    ensures
        final(frame)@ == block(
            old(frame)@,
            x as int,
            y as int,
            w as nat,
            h as nat,
            (r, g, b, a),
        ),
{
    let ghost c = (r, g, b, a);
    proof {
        lemma_block(old(frame)@, x as int, y as int, w as nat, h as nat, c);
    }
    if x >= WIDTH || y >= HEIGHT {
        return;
    }
    let cw: u32 = if w > WIDTH - x {
        WIDTH - x
    } else {
        w
    };
    let ch: u32 = if h > HEIGHT - y {
        HEIGHT - y
    } else {
        h
    };
    proof {
        lemma_block(old(frame)@, x as int, y as int, cw as nat, h as nat, c);
    }
    let mut row: u32 = 0;
    while row < ch
        invariant
            0 <= row <= ch,
            x < WIDTH,
            y + ch <= HEIGHT,
            x + cw <= WIDTH,
            c == (r, g, b, a),
            frame@ == block(old(frame)@, x as int, y as int, cw as nat, row as nat, c),
        decreases ch - row,
    {
        let ghost start = frame@;
        let mut col: u32 = 0;
        while col < cw
            invariant
                0 <= col <= cw,
                row < ch,
                x + cw <= WIDTH,
                y + ch <= HEIGHT,
                c == (r, g, b, a),
                frame@ == hline(start, x as int, y + row, col as nat, c),
            decreases cw - col,
        {
            blend_pixel(frame, x + col, y + row, r, g, b, a);
            col += 1;
        }
        row += 1;
    }
}

/// Blends a color into the grid cell in column `grid_x`, row `grid_y`.
pub fn fill_cell_rgba(frame: &mut [u8], grid_x: u32, grid_y: u32, r: u8, g: u8, b: u8, a: u8)
    ensures
        final(frame)@ == block(
            old(frame)@,
            grid_x * GRID_SIZE,
            grid_y * GRID_SIZE,
            GRID_SIZE as nat,
            GRID_SIZE as nat,
            (r, g, b, a),
        ),
{
    if grid_x >= WIDTH / GRID_SIZE || grid_y >= HEIGHT / GRID_SIZE {
        proof {
            lemma_block(
                old(frame)@,
                grid_x * GRID_SIZE,
                grid_y * GRID_SIZE,
                GRID_SIZE as nat,
                GRID_SIZE as nat,
                (r, g, b, a),
            );
        }
        return;
    }
    fill_rect_rgba(frame, grid_x * GRID_SIZE, grid_y * GRID_SIZE, GRID_SIZE, GRID_SIZE, r, g, b, a);
}

/// Paints the grid cell in column `grid_x`, row `grid_y` in an opaque
/// color.
pub fn fill_cell_rgb(frame: &mut [u8], grid_x: u32, grid_y: u32, r: u8, g: u8, b: u8)
    ensures
        final(frame)@ == block(
            old(frame)@,
            grid_x * GRID_SIZE,
            grid_y * GRID_SIZE,
            GRID_SIZE as nat,
            GRID_SIZE as nat,
            (r, g, b, 255u8),
        ),
{
    fill_cell_rgba(frame, grid_x, grid_y, r, g, b, 255);
}

/// Whether the point `(px, py)` lies in the rectangle of `w` by `h` whose
/// top left corner is `(x, y)`.
pub fn point_in_rect(px: u32, py: u32, x: u32, y: u32, w: u32, h: u32) -> (inside: bool)
    ensures
        inside == (x <= px < x + w && y <= py < y + h),
{
    px >= x && py >= y && px - x < w && py - y < h
}

/// An opaque color takes the place of what was there.
pub proof fn lemma_opaque_replaces(dst: u8, src: u8)
    ensures
        mix(dst, src, 255) == src,
        mix(dst, src, 0) == dst,
{
    assert((src * 255 + dst * 0) / 255 == src) by (nonlinear_arith)
        requires
            0 <= src <= 255,
    ;
    assert((src * 0 + dst * 255) / 255 == dst) by (nonlinear_arith)
        requires
            0 <= dst <= 255,
    ;
}

/// The column and row of the pixel that byte `i` of a frame belongs to.
pub open spec fn byte_pixel(i: int) -> (int, int) {
    ((i / 4) % (WIDTH as int), (i / 4) / (WIDTH as int))
}

/// Byte `i` of a pixel after the color `c` was blended into the pixel, given
/// the byte's value `v` before.
pub open spec fn painted(v: u8, i: int, c: (u8, u8, u8, u8)) -> u8 {
    if i % 4 == 0 {
        mix(v, c.0, c.3)
    } else if i % 4 == 1 {
        mix(v, c.1, c.3)
    } else if i % 4 == 2 {
        mix(v, c.2, c.3)
    } else {
        255
    }
}

/// Whether byte `i` of a frame of `len` bytes belongs to a pixel of the
/// frame that lies in the rectangle of `w` by `h` pixels at `(x, y)`.
pub open spec fn covered(len: int, i: int, x: int, y: int, w: int, h: int) -> bool {
    &&& x <= byte_pixel(i).0 < x + w
    &&& y <= byte_pixel(i).1 < y + h
    &&& on_canvas(len, byte_pixel(i).0, byte_pixel(i).1)
}

/// A blended pixel changes its own four bytes and no others.
pub proof fn lemma_blended_byte(f: Seq<u8>, x: int, y: int, c: (u8, u8, u8, u8), i: int)
    requires
        0 <= i < f.len(),
    ensures
        blended(f, x, y, c)[i] == if covered(f.len() as int, i, x, y, 1, 1) {
            painted(f[i], i, c)
        } else {
            f[i]
        },
{
    if on_canvas(f.len() as int, x, y) {
        let o = pixel_offset(x, y);
        if o <= i <= o + 3 {
            assert(i / 4 == y * WIDTH + x);
            assert(byte_pixel(i) == (x, y));
        } else {
            assert(i / 4 != y * WIDTH + x);
            assert(byte_pixel(i) != (x, y)) by {
                let p = i / 4;
                if p % (WIDTH as int) == x && p / (WIDTH as int) == y {
                    assert(p == y * WIDTH + x);
                }
            }
        }
    } else if covered(f.len() as int, i, x, y, 1, 1) {
        assert(byte_pixel(i) == (x, y));
    }
}

/// After a run of pixels, each byte of a pixel of the run is painted once,
/// and every other byte is as before.
pub proof fn lemma_hline_byte(f: Seq<u8>, x: int, y: int, n: nat, c: (u8, u8, u8, u8), i: int)
    requires
        0 <= i < f.len(),
        x >= 0,
    ensures
        hline(f, x, y, n, c)[i] == if covered(f.len() as int, i, x, y, n as int, 1) {
            painted(f[i], i, c)
        } else {
            f[i]
        },
    decreases n,
{
    if n > 0 {
        let before = hline(f, x, y, (n - 1) as nat, c);
        lemma_hline(f, x, y, (n - 1) as nat, c);
        lemma_hline_byte(f, x, y, (n - 1) as nat, c, i);
        lemma_blended_byte(before, x + n - 1, y, c, i);
    }
}

/// After a block, each byte of a pixel of the block is painted once, with
/// the color blended over what was there, and every other byte is as
/// before.
pub proof fn lemma_block_byte(
    f: Seq<u8>,
    x: int,
    y: int,
    w: nat,
    h: nat,
    c: (u8, u8, u8, u8),
    i: int,
)
    requires
        0 <= i < f.len(),
        x >= 0,
        y >= 0,
    ensures
        block(f, x, y, w, h, c)[i] == if covered(f.len() as int, i, x, y, w as int, h as int) {
            painted(f[i], i, c)
        } else {
            f[i]
        },
    decreases h,
{
    if h > 0 {
        let before = block(f, x, y, w, (h - 1) as nat, c);
        lemma_block(f, x, y, w, (h - 1) as nat, c);
        lemma_block_byte(f, x, y, w, (h - 1) as nat, c, i);
        lemma_hline_byte(before, x, y + h - 1, w, c, i);
    }
}

/// The number of places from `a` to `b`, both counted; none if `b` lies
/// before `a`.
pub open spec fn span(a: int, b: int) -> nat {
    if b >= a {
        (b - a + 1) as nat
    } else {
        0
    }
}

/// The smaller of two numbers.
pub open spec fn least(a: int, b: int) -> int {
    if a <= b {
        a
    } else {
        b
    }
}

/// The frame after `n` columns from `x` rightwards were blended in row `y`
/// and then in row `y2`, column by column.
pub open spec fn rails(f: Seq<u8>, x: int, y: int, y2: int, n: nat, c: (u8, u8, u8, u8)) -> Seq<
    u8,
>
    decreases n,
{
    if n == 0 {
        f
    } else {
        blended(blended(rails(f, x, y, y2, (n - 1) as nat, c), x + n - 1, y, c), x + n - 1, y2, c)
    }
}

/// The frame after `n` rows from `y` downwards were blended in column `x`
/// and then in column `x2`, row by row.
pub open spec fn posts(f: Seq<u8>, x: int, x2: int, y: int, n: nat, c: (u8, u8, u8, u8)) -> Seq<
    u8,
>
    decreases n,
{
    if n == 0 {
        f
    } else {
        blended(blended(posts(f, x, x2, y, (n - 1) as nat, c), x, y + n - 1, c), x2, y + n - 1, c)
    }
}

/// The frame after the border of the rectangle of `w` by `h` pixels at
/// `(x, y)` was blended: first the top and bottom rows, then the left and
/// right columns, so that the corners are blended twice. A border that
/// would lie beyond the last column or row of the frame is drawn in that
/// column or row.
pub open spec fn stroked(f: Seq<u8>, x: int, y: int, w: int, h: int, c: (u8, u8, u8, u8)) -> Seq<
    u8,
> {
    if w == 0 || h == 0 {
        f
    } else {
        let x2 = least(x + w - 1, WIDTH - 1);
        let y2 = least(y + h - 1, HEIGHT - 1);
        posts(rails(f, x, y, y2, span(x, x2), c), x, x2, y, span(y, y2), c)
    }
}

/// Blends a block whose corner may lie anywhere, also far outside the
/// frame.
pub fn fill_block(frame: &mut [u8], x: u64, y: u64, w: u32, h: u32, r: u8, g: u8, b: u8, a: u8)
    ensures
        final(frame)@ == block(
            old(frame)@,
            x as int,
            y as int,
            w as nat,
            h as nat,
            (r, g, b, a),
        ),
{
    if x >= WIDTH as u64 || y >= HEIGHT as u64 {
        proof {
            lemma_block(old(frame)@, x as int, y as int, w as nat, h as nat, (r, g, b, a));
        }
        return;
    }
    fill_rect_rgba(frame, x as u32, y as u32, w, h, r, g, b, a);
}

/// Blends the border of the rectangle of `w` by `h` pixels whose top left
/// corner is in column `x`, row `y`.
pub fn stroke_rect_rgba(
    frame: &mut [u8],
    x: u32,
    y: u32,
    w: u32,
    h: u32,
    r: u8,
    g: u8,
    b: u8,
    a: u8,
)
    ensures
        final(frame)@ == stroked(
            old(frame)@,
            x as int,
            y as int,
            w as int,
            h as int,
            (r, g, b, a),
        ),
{
    if w == 0 || h == 0 {
        return;
    }
    let ghost c = (r, g, b, a);
    let x2: u32 = if x > WIDTH - 1 || w - 1 > WIDTH - 1 - x {
        WIDTH - 1
    } else {
        x + (w - 1)
    };
    let y2: u32 = if y > HEIGHT - 1 || h - 1 > HEIGHT - 1 - y {
        HEIGHT - 1
    } else {
        y + (h - 1)
    };
    assert(x2 == least(x + w - 1, WIDTH - 1));
    assert(y2 == least(y + h - 1, HEIGHT - 1));
    if x <= x2 {
        let mut px: u32 = x;
        while px <= x2
            invariant
                x <= px <= x2 + 1,
                x2 < WIDTH,
                c == (r, g, b, a),
                frame@ == rails(old(frame)@, x as int, y as int, y2 as int, (px - x) as nat, c),
            decreases x2 + 1 - px,
        {
            blend_pixel(frame, px, y, r, g, b, a);
            blend_pixel(frame, px, y2, r, g, b, a);
            px += 1;
        }
    }
    let ghost railed = frame@;
    if y <= y2 {
        let mut py: u32 = y;
        while py <= y2
            invariant
                y <= py <= y2 + 1,
                y2 < HEIGHT,
                c == (r, g, b, a),
                frame@ == posts(railed, x as int, x2 as int, y as int, (py - y) as nat, c),
            decreases y2 + 1 - py,
        {
            blend_pixel(frame, x, py, r, g, b, a);
            blend_pixel(frame, x2, py, r, g, b, a);
            py += 1;
        }
    }
}

} // verus!
