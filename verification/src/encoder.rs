//! The state key: a compact code of what the snake sees.
//!
//! The key packs, from the lowest bits up: two bits for each of eight cells
//! around the head, taken relative to the heading; two bits for the side on
//! which the apple lies; two bits for how far away it is.

use crate::game::Game;
use crate::grid::{Dir, Pos};
use crate::world::{lemma_occupied, World};
use vstd::prelude::*;

verus! {

/// Code of a sampled cell that holds nothing.
pub const CELL_EMPTY: u32 = 0;

/// Code of a sampled cell that would end the game: outside the grid, or part
/// of the body.
pub const CELL_DANGER: u32 = 1;

/// Code of the sampled cell that holds the apple.
pub const CELL_APPLE: u32 = 2;

/// The `i`-th sampled cell as (sideways, forward) steps from the head, where
/// sideways counts to the right of the heading: the three cells ahead come
/// first, from left to right, then the two beside the head, then the three
/// behind.
pub open spec fn vision_offset(i: int) -> (int, int) {
    if i == 0 {
        (-1, 1)
    } else if i == 1 {
        (0, 1)
    } else if i == 2 {
        (1, 1)
    } else if i == 3 {
        (-1, 0)
    } else if i == 4 {
        (1, 0)
    } else if i == 5 {
        (-1, -1)
    } else if i == 6 {
        (0, -1)
    } else {
        (1, -1)
    }
}

/// The steps (columns, rows) on the grid that `sideways` steps to the right
/// of heading `d` and `forward` steps along it make.
pub open spec fn to_grid(d: Dir, sideways: int, forward: int) -> (int, int) {
    match d {
        Dir::Up => (sideways, -forward),
        Dir::Right => (forward, sideways),
        Dir::Down => (-sideways, forward),
        Dir::Left => (-forward, -sideways),
    }
}

/// The steps (sideways to the right, forward) relative to heading `d` that
/// `dx` columns and `dy` rows on the grid make.
pub open spec fn to_heading(d: Dir, dx: int, dy: int) -> (int, int) {
    match d {
        Dir::Up => (dx, -dy),
        Dir::Right => (dy, dx),
        Dir::Down => (-dx, dy),
        Dir::Left => (-dy, -dx),
    }
}

/// Steps relative to a heading are steps along the heading's own vector and
/// along that of the heading to its right, and the two views of a step are
/// inverse to each other.
pub proof fn lemma_heading_frame(d: Dir, sideways: int, forward: int)
    ensures
        to_grid(d, sideways, forward).0 == sideways * d.turned_right().delta().0 + forward
            * d.delta().0,
        to_grid(d, sideways, forward).1 == sideways * d.turned_right().delta().1 + forward
            * d.delta().1,
        to_heading(d, to_grid(d, sideways, forward).0, to_grid(d, sideways, forward).1) == (
            sideways,
            forward,
        ),
        to_grid(d, 0, 1) == d.delta(),
{
    lemma_unit_products(sideways, d.turned_right().delta().0);
    lemma_unit_products(sideways, d.turned_right().delta().1);
    lemma_unit_products(forward, d.delta().0);
    lemma_unit_products(forward, d.delta().1);
}

/// A product with -1, 0 or 1.
proof fn lemma_unit_products(v: int, u: int)
    requires
        -1 <= u <= 1,
    ensures
        v * u == if u == 1 {
            v
        } else if u == 0 {
            0
        } else {
            -v
        },
{
    assert(v * 1 == v && v * 0 == 0 && v * (-1) == -v) by (nonlinear_arith);
}

/// The column and row of the `i`-th sampled cell.
pub open spec fn vision_cell(w: World, i: int) -> (int, int) {
    (
        w.head().x + to_grid(w.dir, vision_offset(i).0, vision_offset(i).1).0,
        w.head().y + to_grid(w.dir, vision_offset(i).0, vision_offset(i).1).1,
    )
}

/// Whether column `x`, row `y` lies in the grid.
pub open spec fn inside(w: World, x: int, y: int) -> bool {
    0 <= x < w.width && 0 <= y < w.height
}

/// What the cell in column `x`, row `y` holds.
pub open spec fn cell_code(w: World, x: int, y: int) -> int {
    if !inside(w, x, y) || w.occupied(x, y) {
        1
    } else if w.apple.x == x && w.apple.y == y {
        2
    } else {
        0
    }
}

/// What the `i`-th sampled cell holds.
pub open spec fn vision_code(w: World, i: int) -> int {
    cell_code(w, vision_cell(w, i).0, vision_cell(w, i).1)
}

/// How far to the right of the heading the apple lies; negative to the left.
pub open spec fn apple_sideways(w: World) -> int {
    to_heading(w.dir, w.apple.x - w.head().x, w.apple.y - w.head().y).0
}

/// The side of the apple: 0 for more than one cell to the left, 2 for more
/// than one cell to the right, 1 in between.
pub open spec fn apple_bearing(w: World) -> int {
    if apple_sideways(w) < -1 {
        0
    } else if apple_sideways(w) > 1 {
        2
    } else {
        1
    }
}

pub open spec fn abs(v: int) -> int {
    if v < 0 {
        -v
    } else {
        v
    }
}

/// The number of moves between the head and the apple, walls aside.
pub open spec fn apple_distance(w: World) -> int {
    abs(w.apple.x - w.head().x) + abs(w.apple.y - w.head().y)
}

/// The distance in four ranges: up to 3, up to 8, up to 16, beyond.
pub open spec fn distance_bucket(w: World) -> int {
    if apple_distance(w) <= 3 {
        0
    } else if apple_distance(w) <= 8 {
        1
    } else if apple_distance(w) <= 16 {
        2
    } else {
        3
    }
}

/// The sixteen bits of the eight sampled cells, the first cell lowest.
pub open spec fn vision_bits(w: World) -> int {
    vision_code(w, 0) + 4 * vision_code(w, 1) + 16 * vision_code(w, 2) + 64 * vision_code(w, 3)
        + 256 * vision_code(w, 4) + 1024 * vision_code(w, 5) + 4096 * vision_code(w, 6) + 16384
        * vision_code(w, 7)
}

/// The state key of a world.
pub open spec fn spec_state_key(w: World) -> int {
    vision_bits(w) + 65536 * apple_bearing(w) + 262144 * distance_bucket(w)
}

/// The steps on the grid for steps relative to a heading.
fn grid_steps(d: Dir, sideways: i32, forward: i32) -> (r: (i32, i32))
    requires
        -1 <= sideways <= 1,
        -1 <= forward <= 1,
    ensures
        (r.0 as int, r.1 as int) == to_grid(d, sideways as int, forward as int),
        -1 <= r.0 <= 1,
        -1 <= r.1 <= 1,
{
    match d {
        Dir::Up => (sideways, -forward),
        Dir::Right => (forward, sideways),
        Dir::Down => (-sideways, forward),
        Dir::Left => (-forward, -sideways),
    }
}

/// The code of the `i`-th sampled cell of a game.
fn sample_cell(game: &Game, i: usize) -> (c: u32)
    requires
        game.wf(),
        i < 8,
    ensures
        c == vision_code(game@, i as int),
        c <= 2,
{
    let (sideways, forward): (i32, i32) = if i == 0 {
        (-1, 1)
    } else if i == 1 {
        (0, 1)
    } else if i == 2 {
        (1, 1)
    } else if i == 3 {
        (-1, 0)
    } else if i == 4 {
        (1, 0)
    } else if i == 5 {
        (-1, -1)
    } else if i == 6 {
        (0, -1)
    } else {
        (1, -1)
    };
    let head = game.head();
    assert(game@.in_grid(game@.snake[0]));
    let steps = grid_steps(game.dir(), sideways, forward);
    let x = head.x + steps.0;
    let y = head.y + steps.1;
    if x < 0 || x >= game.width() as i32 || y < 0 || y >= game.height() as i32 {
        return CELL_DANGER;
    }
    let pos = Pos::new(x, y);
    proof {
        lemma_occupied(game@, pos);
    }
    let apple = game.apple();
    if game.snake_contains(pos) {
        CELL_DANGER
    } else if pos == apple {
        CELL_APPLE
    } else {
        CELL_EMPTY
    }
}

/// The state key of a game: sixteen bits of what lies around the head, two
/// bits for the side of the apple, two bits for its distance. The key
/// depends on the game's state alone.
pub fn state_key(game: &Game) -> (k: u32)
    requires
        game.wf(),
    ensures
        k == spec_state_key(game@),
        k < 0x10_0000,
{
    let c0 = sample_cell(game, 0);
    let c1 = sample_cell(game, 1);
    let c2 = sample_cell(game, 2);
    let c3 = sample_cell(game, 3);
    let c4 = sample_cell(game, 4);
    let c5 = sample_cell(game, 5);
    let c6 = sample_cell(game, 6);
    let c7 = sample_cell(game, 7);
    let vision: u32 = c0 + 4 * c1 + 16 * c2 + 64 * c3 + 256 * c4 + 1024 * c5 + 4096 * c6 + 16384
        * c7;

    let head = game.head();
    let apple = game.apple();
    assert(game@.in_grid(game@.snake[0]));
    let apple_dx: i32 = apple.x - head.x;
    let apple_dy: i32 = apple.y - head.y;
    let sideways: i32 = match game.dir() {
        Dir::Right => apple_dy,
        Dir::Left => -apple_dy,
        Dir::Up => apple_dx,
        Dir::Down => -apple_dx,
    };
    let bearing: u32 = if sideways < -1 {
        0
    } else if sideways > 1 {
        2
    } else {
        1
    };

    let dist: i32 = (if apple_dx < 0 {
        -apple_dx
    } else {
        apple_dx
    }) + (if apple_dy < 0 {
        -apple_dy
    } else {
        apple_dy
    });
    let bucket: u32 = if dist <= 3 {
        0
    } else if dist <= 8 {
        1
    } else if dist <= 16 {
        2
    } else {
        3
    };
    vision + 65536 * bearing + 262144 * bucket
}

/// Digits below four, packed two bits each, can be read back one by one.
proof fn lemma_unpack(
    k: int,
    c0: int,
    c1: int,
    c2: int,
    c3: int,
    c4: int,
    c5: int,
    c6: int,
    c7: int,
    c8: int,
    c9: int,
)
    requires
        0 <= c0 < 4,
        0 <= c1 < 4,
        0 <= c2 < 4,
        0 <= c3 < 4,
        0 <= c4 < 4,
        0 <= c5 < 4,
        0 <= c6 < 4,
        0 <= c7 < 4,
        0 <= c8 < 4,
        0 <= c9 < 4,
        k == c0 + 4 * c1 + 16 * c2 + 64 * c3 + 256 * c4 + 1024 * c5 + 4096 * c6 + 16384 * c7
            + 65536 * c8 + 262144 * c9,
    ensures
        0 <= k < 0x10_0000,
        k % 4 == c0,
        (k / 4) % 4 == c1,
        (k / 16) % 4 == c2,
        (k / 64) % 4 == c3,
        (k / 256) % 4 == c4,
        (k / 1024) % 4 == c5,
        (k / 4096) % 4 == c6,
        (k / 16384) % 4 == c7,
        (k / 65536) % 4 == c8,
        k / 262144 == c9,
{
    let r9 = c9;
    let r8 = c8 + 4 * r9;
    let r7 = c7 + 4 * r8;
    let r6 = c6 + 4 * r7;
    let r5 = c5 + 4 * r6;
    let r4 = c4 + 4 * r5;
    let r3 = c3 + 4 * r4;
    let r2 = c2 + 4 * r3;
    let r1 = c1 + 4 * r2;
    assert(k == c0 + 4 * r1);
    assert(k / 4 == r1);
    assert(k / 16 == r2);
    assert(k / 64 == r3);
    assert(k / 256 == r4);
    assert(k / 1024 == r5);
    assert(k / 4096 == r6);
    assert(k / 16384 == r7);
    assert(k / 65536 == r8);
    assert(k / 262144 == r9);
}

/// Each part of a key can be read back from it: the key tells the eight
/// cells, the side and the distance range apart.
pub proof fn lemma_state_key_fields(w: World)
    ensures
        0 <= spec_state_key(w) < 0x10_0000,
        spec_state_key(w) % 4 == vision_code(w, 0),
        (spec_state_key(w) / 4) % 4 == vision_code(w, 1),
        (spec_state_key(w) / 16) % 4 == vision_code(w, 2),
        (spec_state_key(w) / 64) % 4 == vision_code(w, 3),
        (spec_state_key(w) / 256) % 4 == vision_code(w, 4),
        (spec_state_key(w) / 1024) % 4 == vision_code(w, 5),
        (spec_state_key(w) / 4096) % 4 == vision_code(w, 6),
        (spec_state_key(w) / 16384) % 4 == vision_code(w, 7),
        (spec_state_key(w) / 65536) % 4 == apple_bearing(w),
        spec_state_key(w) / 262144 == distance_bucket(w),
{
    lemma_unpack(
        spec_state_key(w),
        vision_code(w, 0),
        vision_code(w, 1),
        vision_code(w, 2),
        vision_code(w, 3),
        vision_code(w, 4),
        vision_code(w, 5),
        vision_code(w, 6),
        vision_code(w, 7),
        apple_bearing(w),
        distance_bucket(w),
    );
}

/// Two worlds with the same state have the same key.
pub proof fn lemma_state_key_deterministic(a: World, b: World)
    requires
        a == b,
    ensures
        spec_state_key(a) == spec_state_key(b),
{
}

/// The column and row that a quarter turn clockwise about `(cx, cy)` takes
/// `(x, y)` to.
pub open spec fn quarter_turn(cx: int, cy: int, x: int, y: int) -> (int, int) {
    (cx - (y - cy), cy + (x - cx))
}

/// World `b` is world `a` turned a quarter turn clockwise about the head:
/// the head stays, the heading turns right, and body and apple turn with it.
pub open spec fn turned_about_head(a: World, b: World) -> bool {
    &&& b.head() == a.head()
    &&& b.dir == a.dir.turned_right()
    &&& (b.apple.x as int, b.apple.y as int) == quarter_turn(
        a.head().x as int,
        a.head().y as int,
        a.apple.x as int,
        a.apple.y as int,
    )
    &&& forall|x: int, y: int|
        a.occupied(x, y) <==> #[trigger] b.occupied(
            quarter_turn(a.head().x as int, a.head().y as int, x, y).0,
            quarter_turn(a.head().x as int, a.head().y as int, x, y).1,
        )
}

/// The grids of `a` and `b` agree on which of the sampled cells lie inside.
pub open spec fn same_walls_in_view(a: World, b: World) -> bool {
    forall|i: int|
        0 <= i < 8 ==> inside(a, vision_cell(a, i).0, vision_cell(a, i).1) == inside(
            b,
            #[trigger] vision_cell(b, i).0,
            vision_cell(b, i).1,
        )
}

/// The key is taken relative to the heading: a world turned a quarter turn
/// about the head, heading included, has the same key, as long as the turn
/// moves no sampled cell across the edge of the grid.
pub proof fn lemma_state_key_rotation(a: World, b: World)
    requires
        turned_about_head(a, b),
        same_walls_in_view(a, b),
    ensures
        spec_state_key(a) == spec_state_key(b),
{
    let hx = a.head().x as int;
    let hy = a.head().y as int;
    match a.dir {
        Dir::Up => {},
        Dir::Right => {},
        Dir::Down => {},
        Dir::Left => {},
    }
    assert forall|i: int| 0 <= i < 8 implies vision_code(a, i) == vision_code(b, i) by {
        let ca = vision_cell(a, i);
        let cb = vision_cell(b, i);
        assert(cb == quarter_turn(hx, hy, ca.0, ca.1));
        assert(inside(a, ca.0, ca.1) == inside(b, vision_cell(b, i).0, cb.1));
        assert(a.occupied(ca.0, ca.1) <==> b.occupied(
            quarter_turn(hx, hy, ca.0, ca.1).0,
            quarter_turn(hx, hy, ca.0, ca.1).1,
        ));
    }
    assert(apple_sideways(a) == apple_sideways(b));
    assert(apple_distance(a) == apple_distance(b));
}

} // verus!
