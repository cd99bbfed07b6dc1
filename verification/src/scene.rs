//! Pictures of the game: the board of a manual game, the faint snakes of a
//! population, buttons and the chart of best scores.

use crate::font::{decimal, digits, draw_chars, draw_text, text_drawn};
use crate::game::Game;
use crate::grid::{Dir, Pos};
use crate::raster::{
    blend_pixel, blended, block, clear_rgba, cleared, fill_block, fill_rect_rgba, stroke_rect_rgba,
    stroked, GRID_SIZE, HEIGHT, WIDTH,
};
use crate::world::World;
use vstd::prelude::*;

verus! {

/// Cells in a row of the board that the frame shows.
pub const BOARD_COLUMNS: u32 = 40;

/// Rows of the board that the frame shows.
pub const BOARD_ROWS: u32 = 30;

/// The frame after the grid cell at `pos` was blended with the color `c`.
/// A cell left of or above the frame draws nothing.
pub open spec fn cell_painted(f: Seq<u8>, pos: Pos, c: (u8, u8, u8, u8)) -> Seq<u8> {
    if pos.x < 0 || pos.y < 0 {
        f
    } else {
        block(f, pos.x * GRID_SIZE, pos.y * GRID_SIZE, GRID_SIZE as nat, GRID_SIZE as nat, c)
    }
}

/// Where the two eyes sit in the head's cell, as offsets from its corner.
pub open spec fn eye_offsets(dir: Dir) -> ((int, int), (int, int)) {
    match dir {
        Dir::Right => ((12, 5), (12, 12)),
        Dir::Left => ((5, 5), (5, 12)),
        Dir::Up => ((5, 5), (12, 5)),
        Dir::Down => ((5, 12), (12, 12)),
    }
}

/// The frame after two black eyes were drawn on the head at `pos`, on the
/// side that the snake is heading to.
pub open spec fn eyes_drawn(f: Seq<u8>, pos: Pos, dir: Dir) -> Seq<u8> {
    blended(
        blended(
            f,
            pos.x * GRID_SIZE + eye_offsets(dir).0.0,
            pos.y * GRID_SIZE + eye_offsets(dir).0.1,
            (0u8, 0u8, 0u8, 255u8),
        ),
        pos.x * GRID_SIZE + eye_offsets(dir).1.0,
        pos.y * GRID_SIZE + eye_offsets(dir).1.1,
        (0u8, 0u8, 0u8, 255u8),
    )
}

/// A channel of the head of a faint snake: three tenths brighter, as far
/// as a byte goes.
pub open spec fn brightened(v: u8) -> u8 {
    if v * 130 / 100 > 255 {
        255
    } else {
        (v * 130 / 100) as u8
    }
}

/// A channel of segment `i` of a faint snake: darker by 15 thousandths for
/// each segment from the head, down to half.
pub open spec fn faded(v: u8, i: int) -> u8 {
    (v * (1000 - (if 15 * i > 500 {
        500
    } else {
        15 * i
    })) / 1000) as u8
}

/// The color of segment `i` of a faint snake of color `color`.
pub open spec fn segment_tint(color: (u8, u8, u8), i: int, alpha: u8) -> (u8, u8, u8, u8) {
    if i == 0 {
        (brightened(color.0), brightened(color.1), brightened(color.2), alpha)
    } else {
        (faded(color.0, i), faded(color.1, i), faded(color.2, i), alpha)
    }
}

/// The frame after the first `n` segments of a faint snake were drawn.
pub open spec fn tinted_snake(
    f: Seq<u8>,
    snake: Seq<Pos>,
    alpha: u8,
    color: (u8, u8, u8),
    n: nat,
) -> Seq<u8>
    decreases n,
{
    if n == 0 {
        f
    } else {
        cell_painted(
            tinted_snake(f, snake, alpha, color, (n - 1) as nat),
            snake[n - 1],
            segment_tint(color, n - 1, alpha),
        )
    }
}

/// The frame after a game was drawn faintly in the color of its agent: the
/// apple, then the snake from the head on. A game that has ended is not
/// drawn.
pub open spec fn ghost_drawn(f: Seq<u8>, w: World, alpha: u8, color: (u8, u8, u8)) -> Seq<u8> {
    if !w.alive {
        f
    } else {
        tinted_snake(
            cell_painted(f, w.apple, (220u8, 50u8, 50u8, alpha)),
            w.snake,
            alpha,
            color,
            w.snake.len(),
        )
    }
}

/// The green of segment `i` of the snake of a manual game: darker by 10 for
/// each segment from the head, down to 100.
pub open spec fn body_green(i: int) -> u8 {
    (200 - (if 10 * i > 100 {
        100
    } else {
        10 * i
    })) as u8
}

/// The frame after the first `n` segments of the snake of a manual game
/// were drawn: the head bright green with eyes, the body in darker greens.
pub open spec fn solid_snake(f: Seq<u8>, snake: Seq<Pos>, dir: Dir, n: nat) -> Seq<u8>
    decreases n,
{
    if n == 0 {
        f
    } else if n == 1 {
        eyes_drawn(cell_painted(f, snake[0], (100u8, 255u8, 100u8, 255u8)), snake[0], dir)
    } else {
        cell_painted(
            solid_snake(f, snake, dir, (n - 1) as nat),
            snake[n - 1],
            (50u8, body_green(n - 1), 50u8, 255u8),
        )
    }
}

/// The frame after the first `k` cells of the board were drawn, row by
/// row: every other cell is a little lighter than the background.
pub open spec fn checkered(f: Seq<u8>, k: nat) -> Seq<u8>
    decreases k,
{
    if k == 0 {
        f
    } else {
        let cell = k - 1;
        let before = checkered(f, cell as nat);
        if (cell % (BOARD_COLUMNS as int) + cell / (BOARD_COLUMNS as int)) % 2 == 0 {
            block(
                before,
                (cell % (BOARD_COLUMNS as int)) * GRID_SIZE,
                (cell / (BOARD_COLUMNS as int)) * GRID_SIZE,
                GRID_SIZE as nat,
                GRID_SIZE as nat,
                (35u8, 35u8, 50u8, 255u8),
            )
        } else {
            before
        }
    }
}

/// The frame after the notices of a manual game were drawn: the end of the
/// game with the score, or the pause.
pub open spec fn notices_drawn(f: Seq<u8>, w: World) -> Seq<u8> {
    if !w.alive {
        text_drawn(
            text_drawn(
                text_drawn(
                    text_drawn(f, "GAME OVER"@, 320, 280, 2, (255u8, 100u8, 100u8, 255u8)),
                    "SCORE: "@,
                    330,
                    320,
                    2,
                    (255u8, 255u8, 255u8, 255u8),
                ),
                decimal(w.score),
                414,
                320,
                2,
                (255u8, 255u8, 255u8, 255u8),
            ),
            "PRESS R TO RESTART"@,
            270,
            360,
            2,
            (200u8, 200u8, 200u8, 255u8),
        )
    } else if w.paused {
        text_drawn(f, "PAUSED"@, 350, 300, 2, (255u8, 255u8, 100u8, 255u8))
    } else {
        f
    }
}

/// The frame that shows a manual game: the board, the apple, the snake and
/// the notices.
pub open spec fn game_drawn(f: Seq<u8>, w: World) -> Seq<u8> {
    notices_drawn(
        solid_snake(
            cell_painted(
                checkered(cleared(f, (30u8, 30u8, 40u8, 255u8)), 1200),
                w.apple,
                (220u8, 50u8, 50u8, 255u8),
            ),
            w.snake,
            w.dir,
            w.snake.len(),
        ),
        w,
    )
}

/// The frame after a button was drawn: a dark panel, a light border, and
/// the label.
pub open spec fn button_drawn(f: Seq<u8>, x: int, y: int, w: int, h: int, label: Seq<char>)
    -> Seq<u8> {
    text_drawn(
        stroked(
            block(f, x, y, w as nat, h as nat, (40u8, 40u8, 60u8, 160u8)),
            x,
            y,
            w,
            h,
            (200u8, 200u8, 220u8, 120u8),
        ),
        label,
        x + 10,
        y + (h / 2 - 6),
        2,
        (230u8, 240u8, 255u8, 255u8),
    )
}

/// The largest of the first `n` values; 0 if there is none.
pub open spec fn largest(data: Seq<usize>, n: nat) -> usize
    decreases n,
{
    if n == 0 {
        0
    } else if data[n - 1] > largest(data, (n - 1) as nat) {
        data[n - 1]
    } else {
        largest(data, (n - 1) as nat)
    }
}

/// The number of bars that a chart of width `w` shows of `len` values: one
/// for every six pixels, and no more than there are values.
pub open spec fn bar_count(len: int, w: int) -> int {
    if len <= w / 6 {
        len
    } else {
        w / 6
    }
}

/// The width that each bar of a chart takes, the gap to the next included.
pub open spec fn bar_width(len: int, w: int) -> int {
    if w / bar_count(len, w) >= 2 {
        w / bar_count(len, w)
    } else {
        2
    }
}

/// The height of the bar of value `v` in a chart of height `h` whose
/// largest value is `top`.
pub open spec fn bar_height(v: int, h: int, top: int) -> int {
    v * (h - 2) / top
}

/// The frame after the first `n` bars of a chart were drawn. The bars show
/// the latest values, the last of them rightmost, each standing on the
/// bottom of the chart.
pub open spec fn bars_drawn(f: Seq<u8>, x: int, y: int, w: int, h: int, data: Seq<usize>, n: nat)
    -> Seq<u8>
    decreases n,
{
    if n == 0 {
        f
    } else {
        let i = n - 1;
        let bars = bar_count(data.len() as int, w);
        let height = bar_height(
            data[data.len() - bars + i] as int,
            h,
            largest(data, data.len()) as int,
        );
        block(
            bars_drawn(f, x, y, w, h, data, i as nat),
            x + 1 + i * bar_width(data.len() as int, w),
            y + h - 1 - height,
            (bar_width(data.len() as int, w) - 1) as nat,
            height as nat,
            (120u8, 180u8, 255u8, 160u8),
        )
    }
}

/// The frame after a chart of the values was drawn in the rectangle of `w`
/// by `h` pixels at `(x, y)`: a border, and bars unless there is no value
/// above zero.
pub open spec fn chart_drawn(f: Seq<u8>, x: int, y: int, w: int, h: int, data: Seq<usize>) -> Seq<
    u8,
> {
    if data.len() == 0 || largest(data, data.len()) == 0 {
        stroked(f, x, y, w, h, (200u8, 200u8, 200u8, 120u8))
    } else {
        bars_drawn(
            stroked(f, x, y, w, h, (200u8, 200u8, 200u8, 120u8)),
            x,
            y,
            w,
            h,
            data,
            bar_count(data.len() as int, w) as nat,
        )
    }
}

/// Blends a color into the grid cell at `pos`.
pub fn paint_cell(frame: &mut [u8], pos: Pos, r: u8, g: u8, b: u8, a: u8)
    ensures
        final(frame)@ == cell_painted(old(frame)@, pos, (r, g, b, a)),
{
    if pos.x < 0 || pos.y < 0 {
        return;
    }
    fill_block(
        frame,
        (pos.x as u64) * (GRID_SIZE as u64),
        (pos.y as u64) * (GRID_SIZE as u64),
        GRID_SIZE,
        GRID_SIZE,
        r,
        g,
        b,
        a,
    );
}

/// Draws two black eyes on the head at `pos`, on the side that the snake is
/// heading to.
pub fn draw_eyes(frame: &mut [u8], pos: Pos, dir: Dir)
    ensures
        final(frame)@ == eyes_drawn(old(frame)@, pos, dir),
{
    let (first, second): ((i64, i64), (i64, i64)) = match dir {
        Dir::Right => ((12, 5), (12, 12)),
        Dir::Left => ((5, 5), (5, 12)),
        Dir::Up => ((5, 5), (12, 5)),
        Dir::Down => ((5, 12), (12, 12)),
    };
    let base_x = (pos.x as i64) * (GRID_SIZE as i64);
    let base_y = (pos.y as i64) * (GRID_SIZE as i64);
    draw_dot(frame, base_x + first.0, base_y + first.1);
    draw_dot(frame, base_x + second.0, base_y + second.1);
}

/// Draws a black pixel, wherever it lies.
fn draw_dot(frame: &mut [u8], x: i64, y: i64)
    ensures
        final(frame)@ == blended(old(frame)@, x as int, y as int, (0u8, 0u8, 0u8, 255u8)),
{
    if x < 0 || y < 0 || x >= WIDTH as i64 || y >= HEIGHT as i64 {
        return;
    }
    blend_pixel(frame, x as u32, y as u32, 0, 0, 0, 255);
}

/// A channel three tenths brighter.
fn brighten(v: u8) -> (r: u8)
    ensures
        r == brightened(v),
{
    let raised = (v as u16) * 130 / 100;
    if raised > 255 {
        255
    } else {
        raised as u8
    }
}

/// A channel of segment `i`, darker with the distance from the head.
fn fade(v: u8, i: usize) -> (r: u8)
    ensures
        r == faded(v, i as int),
{
    let loss: u32 = if i > 33 {
        500
    } else {
        15 * (i as u32)
    };
    assert(0 <= v * (1000 - loss) <= 255_000 && v * (1000 - loss) / 1000 <= 255) by (nonlinear_arith)
        requires
            0 <= v <= 255,
            0 <= loss <= 500,
    ;
    ((v as u32) * (1000 - loss) / 1000) as u8
}

/// Draws a game faintly, tinted with the color of its agent, so that many
/// games can be shown in one frame. A game that has ended is not drawn.
pub fn draw_game_transparent(frame: &mut [u8], game: &Game, alpha: u8, color: (u8, u8, u8))
    ensures
        final(frame)@ == ghost_drawn(old(frame)@, game@, alpha, color),
{
    if !game.is_alive() {
        return;
    }
    paint_cell(frame, game.apple(), 220, 50, 50, alpha);
    let ghost start = frame@;
    let body = game.body();
    let mut i: usize = 0;
    while i < body.len()
        invariant
            0 <= i <= body@.len(),
            body@ == game@.snake,
            frame@ == tinted_snake(start, body@, alpha, color, i as nat),
        decreases body@.len() - i,
    {
        if i == 0 {
            paint_cell(
                frame,
                body[i],
                brighten(color.0),
                brighten(color.1),
                brighten(color.2),
                alpha,
            );
        } else {
            paint_cell(frame, body[i], fade(color.0, i), fade(color.1, i), fade(color.2, i), alpha);
        }
        i += 1;
    }
}

/// Draws the board: every other cell a little lighter.
fn draw_board(frame: &mut [u8])
    ensures
        final(frame)@ == checkered(old(frame)@, 1200),
{
    let mut k: u32 = 0;
    while k < 1200
        invariant
            0 <= k <= 1200,
            frame@ == checkered(old(frame)@, k as nat),
        decreases 1200 - k,
    {
        let x = k % BOARD_COLUMNS;
        let y = k / BOARD_COLUMNS;
        if (x + y) % 2 == 0 {
            fill_rect_rgba(frame, x * GRID_SIZE, y * GRID_SIZE, GRID_SIZE, GRID_SIZE, 35, 35, 50, 255);
        }
        k += 1;
    }
}

impl Game {
    /// Draws a manual game: the board, the apple, the snake with its eyes, and
    /// a notice when the game is over or paused.
    pub fn draw(&self, frame: &mut [u8])
        ensures
            final(frame)@ == game_drawn(old(frame)@, self@),
    {
        clear_rgba(frame, 30, 30, 40, 255);
        draw_board(frame);
        paint_cell(frame, self.apple(), 220, 50, 50, 255);
        let ghost start = frame@;
        let body = self.body();
        let dir = self.dir();
        let mut i: usize = 0;
        while i < body.len()
            invariant
                0 <= i <= body@.len(),
                body@ == self@.snake,
                dir == self@.dir,
                frame@ == solid_snake(start, body@, dir, i as nat),
            decreases body@.len() - i,
        {
            if i == 0 {
                paint_cell(frame, body[i], 100, 255, 100, 255);
                draw_eyes(frame, body[i], dir);
            } else {
                let shade: u8 = if i > 10 {
                    100
                } else {
                    (200 - 10 * i) as u8
                };
                paint_cell(frame, body[i], 50, shade, 50, 255);
            }
            i += 1;
        }
        if !self.is_alive() {
            draw_text(frame, "GAME OVER", WIDTH / 2 - 80, HEIGHT / 2 - 20, 2, (255, 100, 100, 255));
            draw_text(frame, "SCORE: ", WIDTH / 2 - 70, HEIGHT / 2 + 20, 2, (255, 255, 255, 255));
            let number = digits(self.score() as u64);
            draw_chars(frame, &number, WIDTH / 2 + 14, HEIGHT / 2 + 20, 2, (255, 255, 255, 255));
            draw_text(
                frame,
                "PRESS R TO RESTART",
                WIDTH / 2 - 130,
                HEIGHT / 2 + 60,
                2,
                (200, 200, 200, 255),
            );
        } else if self.is_paused() {
            draw_text(frame, "PAUSED", WIDTH / 2 - 50, HEIGHT / 2, 2, (255, 255, 100, 255));
        }
    }
}

/// Draws a button with a label.
pub fn draw_button(frame: &mut [u8], x: u32, y: u32, w: u32, h: u32, label: &str)
    requires
        h >= 12,
        x + 10 <= u32::MAX,
        y + (h / 2 - 6) <= u32::MAX,
    ensures
        final(frame)@ == button_drawn(
            old(frame)@,
            x as int,
            y as int,
            w as int,
            h as int,
            label@,
        ),
{
    fill_rect_rgba(frame, x, y, w, h, 40, 40, 60, 160);
    stroke_rect_rgba(frame, x, y, w, h, 200, 200, 220, 120);
    draw_text(frame, label, x + 10, y + (h / 2 - 6), 2, (230, 240, 255, 255));
}

/// The largest of the values; 0 if there is none.
pub fn largest_of(data: &[usize]) -> (top: usize)
    ensures
        top == largest(data@, data@.len()),
{
    let mut top: usize = 0;
    let mut i: usize = 0;
    while i < data.len()
        invariant
            0 <= i <= data@.len(),
            top == largest(data@, i as nat),
        decreases data@.len() - i,
    {
        if data[i] > top {
            top = data[i];
        }
        i += 1;
    }
    top
}

/// The largest value bounds every value.
pub proof fn lemma_largest(data: Seq<usize>, n: nat, i: int)
    requires
        0 <= i < n <= data.len(),
    ensures
        data[i] <= largest(data, n),
    decreases n,
{
    if i < n - 1 {
        lemma_largest(data, (n - 1) as nat, i);
    }
}

/// Draws a chart of the latest values as bars in a bordered rectangle of
/// `w` by `h` pixels at `(x, y)`. The tallest value reaches to just below
/// the top.
pub fn draw_chart(frame: &mut [u8], x: u32, y: u32, w: u32, h: u32, data: &[usize])
    requires
        h >= 2,
        w >= 6,
    ensures
        final(frame)@ == chart_drawn(
            old(frame)@,
            x as int,
            y as int,
            w as int,
            h as int,
            data@,
        ),
{
    stroke_rect_rgba(frame, x, y, w, h, 200, 200, 200, 120);
    if data.len() == 0 {
        return;
    }
    let top = largest_of(data);
    if top == 0 {
        return;
    }
    let len = data.len();
    let bars: usize = if len <= (w / 6) as usize {
        len
    } else {
        (w / 6) as usize
    };
    assert(bars == bar_count(len as int, w as int));
    let bar_w: u32 = if w / (bars as u32) >= 2 {
        w / (bars as u32)
    } else {
        2
    };
    assert(bar_w == bar_width(len as int, w as int));
    let ghost start = frame@;
    let mut i: usize = 0;
    while i < bars
        invariant
            0 <= i <= bars,
            1 <= bars <= len,
            bars <= w / 6,
            len == data@.len(),
            h >= 2,
            top > 0,
            top == largest(data@, data@.len()),
            bars == bar_count(len as int, w as int),
            bar_w == bar_width(len as int, w as int),
            2 <= bar_w <= w,
            frame@ == bars_drawn(start, x as int, y as int, w as int, h as int, data@, i as nat),
        decreases bars - i,
    {
        let v = data[len - bars + i];
        proof {
            lemma_largest(data@, data@.len(), len - bars + i);
            assert(0 <= v * (h - 2) / (top as int) <= h - 2) by (nonlinear_arith)
                requires
                    0 <= v <= top,
                    top > 0,
                    h >= 2,
            ;
            assert(0 <= v * (h - 2) <= 0xFFFF_FFFF_FFFF_FFFF * 0xFFFF_FFFF) by (nonlinear_arith)
                requires
                    0 <= v <= 0xFFFF_FFFF_FFFF_FFFF,
                    0 <= h - 2 <= 0xFFFF_FFFF,
            ;
            assert(0 <= i * bar_w <= 0xFFFF_FFFF * 0xFFFF_FFFF) by (nonlinear_arith)
                requires
                    0 <= i <= 0xFFFF_FFFF,
                    0 <= bar_w <= 0xFFFF_FFFF,
            ;
        }
        let bh = ((v as u128) * ((h - 2) as u128) / (top as u128)) as u32;
        let bx: u64 = x as u64 + 1 + (i as u64) * (bar_w as u64);
        let by: u64 = y as u64 + h as u64 - 1 - bh as u64;
        fill_block(frame, bx, by, bar_w - 1, bh, 120, 180, 255, 160);
        i += 1;
    }
}

} // verus!
