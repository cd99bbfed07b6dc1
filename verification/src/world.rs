//! The mathematical model of one Snake episode.
//!
//! A `World` is a snapshot of a game as plain mathematical values. The rules
//! of the game are stated here, as relations between a snapshot and its
//! successor; the executable game proves that it follows them.

use crate::grid::{DeathCause, Dir, Pos};
use vstd::prelude::*;
use vstd::seq_lib::*;
use vstd::set_lib::*;

verus! {

/// A snapshot of one episode.
#[verifier::ext_equal]
pub struct World {
    /// Number of columns.
    pub width: int,
    /// Number of rows.
    pub height: int,
    /// The body, head first.
    pub snake: Seq<Pos>,
    pub dir: Dir,
    pub apple: Pos,
    pub alive: bool,
    pub score: nat,
    pub paused: bool,
    pub last_death: DeathCause,
    /// Whether the snake leaves one edge and enters at the other, or dies at
    /// the edge.
    pub wrap_world: bool,
    /// Whether horizontal moves take two ticks, for cells that are taller
    /// than wide.
    pub slow_horizontal: bool,
    /// Ticks already spent on the pending horizontal move.
    pub horizontal_counter: nat,
}

impl World {
    pub open spec fn in_grid(self, p: Pos) -> bool {
        0 <= p.x < self.width && 0 <= p.y < self.height
    }

    /// The number of cells of the grid.
    pub open spec fn cells(self) -> int {
        self.width * self.height
    }

    pub open spec fn head(self) -> Pos {
        self.snake[0]
    }

    /// Whether the body covers the cell in column `x`, row `y`.
    pub open spec fn occupied(self, x: int, y: int) -> bool {
        exists|i: int|
            0 <= i < self.snake.len() && (#[trigger] self.snake[i]).x == x && self.snake[i].y == y
    }

    /// The cell in the head's row and the last column.
    pub open spec fn last_in_row(self) -> Pos {
        Pos { x: (self.width - 1) as i32, y: self.head().y }
    }

    /// A cell of the grid that the snake does not cover.
    pub open spec fn free(self, p: Pos) -> bool {
        self.in_grid(p) && !self.snake.contains(p)
    }

    /// The snake covers every cell.
    pub open spec fn full(self) -> bool {
        self.snake.len() >= self.cells()
    }

    /// What holds of every world that the game produces, but for the place
    /// of the apple.
    pub open spec fn inv_but_apple(self) -> bool {
        &&& 1 <= self.width <= 0xFFFF
        &&& 1 <= self.height <= 0xFFFF
        &&& self.snake.len() >= 1
        &&& self.snake.no_duplicates()
        &&& forall|i: int| 0 <= i < self.snake.len() ==> self.in_grid(#[trigger] self.snake[i])
        &&& self.in_grid(self.apple)
        &&& self.score <= self.snake.len()
        &&& self.alive <==> self.last_death == DeathCause::Unclassified
        &&& self.horizontal_counter <= 1
        &&& !self.slow_horizontal ==> self.horizontal_counter == 0
    }

    /// What holds of every world that the game produces. The apple lies off
    /// the body unless the body covers the grid.
    pub open spec fn inv(self) -> bool {
        &&& self.inv_but_apple()
        &&& self.full() || !self.snake.contains(self.apple)
    }

    /// The world at the start of an episode on a grid of `width` by
    /// `height` cells: three cells in the middle row, heading right, the
    /// apple on some free cell.
    pub open spec fn fresh(self, width: int, height: int, wrap_world: bool, slow_horizontal: bool)
        -> bool {
        self == World {
            width,
            height,
            snake: initial_snake(width, height),
            dir: Dir::Right,
            apple: self.apple,
            alive: true,
            score: 0,
            paused: false,
            last_death: DeathCause::Unclassified,
            wrap_world,
            slow_horizontal,
            horizontal_counter: 0,
        }
    }

    /// The world that starts an episode from given parts: alive, unpaused,
    /// with no score.
    pub open spec fn assembled(
        width: int,
        height: int,
        wrap_world: bool,
        slow_horizontal: bool,
        body: Seq<Pos>,
        dir: Dir,
        apple: Pos,
    ) -> World {
        World {
            width,
            height,
            snake: body,
            dir,
            apple,
            alive: true,
            score: 0,
            paused: false,
            last_death: DeathCause::Unclassified,
            wrap_world,
            slow_horizontal,
            horizontal_counter: 0,
        }
    }

    /// Nothing moves in a world that has ended or is paused.
    pub open spec fn frozen(self) -> bool {
        !self.alive || self.paused
    }

    pub open spec fn horizontal(self) -> bool {
        self.dir == Dir::Left || self.dir == Dir::Right
    }

    /// This tick only counts towards a slowed horizontal move.
    pub open spec fn held_back(self) -> bool {
        self.slow_horizontal && self.horizontal() && self.horizontal_counter == 0
    }

    pub open spec fn counter_after_move(self) -> nat {
        if self.slow_horizontal && self.horizontal() {
            0
        } else {
            self.horizontal_counter
        }
    }

    /// The coordinates one step ahead of the head, which may lie outside the
    /// grid.
    pub open spec fn ahead(self) -> (int, int) {
        (self.head().x + self.dir.delta().0, self.head().y + self.dir.delta().1)
    }

    pub open spec fn leaves_grid(self) -> bool {
        !(0 <= self.ahead().0 < self.width && 0 <= self.ahead().1 < self.height)
    }

    /// The cell that the head moves to: the cell ahead, taken modulo the
    /// grid's dimensions.
    pub open spec fn next_head(self) -> Pos {
        Pos {
            x: (self.ahead().0 % self.width) as i32,
            y: (self.ahead().1 % self.height) as i32,
        }
    }

    pub open spec fn hits_wall(self) -> bool {
        !self.wrap_world && self.leaves_grid()
    }

    /// The head would enter a cell of the body, the tail's cell included.
    pub open spec fn hits_self(self) -> bool {
        self.snake.contains(self.next_head())
    }

    pub open spec fn eats(self) -> bool {
        self.next_head() == self.apple
    }

    /// The body after a move that eats: the new head in front, nothing
    /// dropped.
    pub open spec fn grown(self) -> Seq<Pos> {
        seq![self.next_head()] + self.snake
    }

    /// The body after a move that does not eat: the new head in front, the
    /// tail dropped.
    pub open spec fn slid(self) -> Seq<Pos> {
        seq![self.next_head()] + self.snake.drop_last()
    }

    /// This world with the episode ended for `cause`.
    pub open spec fn ended(self, cause: DeathCause) -> World {
        World {
            alive: false,
            last_death: cause,
            horizontal_counter: self.counter_after_move(),
            ..self
        }
    }

    /// `post` is this world with a new apple: on a free cell, or where it was
    /// if the snake covers the grid.
    pub open spec fn apple_placed(self, post: World) -> bool {
        &&& post == World { apple: post.apple, ..self }
        &&& if self.full() {
            post.apple == self.apple
        } else {
            self.free(post.apple)
        }
    }

    /// `post` is this world one tick later, and `ate` tells whether the apple
    /// was eaten in that tick.
    pub open spec fn stepped(self, post: World, ate: bool) -> bool {
        if self.frozen() {
            post == self && !ate
        } else if self.held_back() {
            post == World { horizontal_counter: 1, ..self } && !ate
        } else if self.hits_wall() {
            post == self.ended(DeathCause::Wall) && !ate
        } else if self.hits_self() {
            post == self.ended(DeathCause::SelfCollision) && !ate
        } else if self.eats() {
            &&& ate
            &&& World {
                snake: self.grown(),
                score: self.score + 1,
                horizontal_counter: self.counter_after_move(),
                ..self
            }.apple_placed(post)
        } else {
            &&& !ate
            &&& post == World {
                snake: self.slid(),
                horizontal_counter: self.counter_after_move(),
                ..self
            }
        }
    }

    /// This world after a request to head in `new_dir`: a reversal is
    /// ignored, any other heading is taken.
    pub open spec fn turned(self, new_dir: Dir) -> World {
        if new_dir == self.dir.reversed() {
            self
        } else {
            World { dir: new_dir, ..self }
        }
    }
}

/// The body at the start of an episode: the head in the middle of the grid,
/// two more cells to its left.
pub open spec fn initial_snake(width: int, height: int) -> Seq<Pos> {
    seq![
        Pos { x: (width / 2) as i32, y: (height / 2) as i32 },
        Pos { x: (width / 2 - 1) as i32, y: (height / 2) as i32 },
        Pos { x: (width / 2 - 2) as i32, y: (height / 2) as i32 },
    ]
}

/// The place of a cell in row-major order.
pub open spec fn cell_index(p: Pos, width: int) -> int {
    p.y * width + p.x
}

/// The row-major indices of the cells of a body.
pub open spec fn cell_indices(snake: Seq<Pos>, width: int) -> Seq<int> {
    snake.map_values(|p: Pos| cell_index(p, width))
}

/// The cell at a row-major index.
pub open spec fn cell_at(index: int, width: int) -> Pos {
    Pos { x: (index % width) as i32, y: (index / width) as i32 }
}

pub proof fn lemma_cell_index_bounds(p: Pos, width: int, height: int)
    requires
        0 <= p.x < width,
        0 <= p.y < height,
    ensures
        0 <= cell_index(p, width) < width * height,
{
    assert(0 <= p.y * width && p.y * width + width <= height * width) by (nonlinear_arith)
        requires
            0 <= p.y < height,
            0 < width,
    ;
    assert(height * width == width * height) by (nonlinear_arith);
}

pub proof fn lemma_cell_index_injective(p: Pos, q: Pos, width: int)
    requires
        0 <= p.x < width,
        0 <= q.x < width,
        cell_index(p, width) == cell_index(q, width),
    ensures
        p == q,
{
    assert(p.y == q.y && p.x == q.x) by (nonlinear_arith)
        requires
            0 <= p.x < width,
            0 <= q.x < width,
            p.y * width + p.x == q.y * width + q.x,
    ;
}

pub proof fn lemma_cell_at(index: int, width: int, height: int)
    requires
        0 < width <= 0xFFFF,
        0 < height <= 0xFFFF,
        0 <= index < width * height,
    ensures
        0 <= cell_at(index, width).x < width,
        0 <= cell_at(index, width).y < height,
        cell_index(cell_at(index, width), width) == index,
{
    let q = index / width;
    let r = index % width;
    assert(0 <= r < width && index == q * width + r && 0 <= q < height) by (nonlinear_arith)
        requires
            0 < width,
            0 <= index < width * height,
            q == index / width,
            r == index % width,
    ;
}

/// The body covers a cell exactly if it holds the cell's position.
pub proof fn lemma_occupied(w: World, p: Pos)
    ensures
        w.occupied(p.x as int, p.y as int) <==> w.snake.contains(p),
{
    if w.occupied(p.x as int, p.y as int) {
        let i = choose|i: int|
            0 <= i < w.snake.len() && (#[trigger] w.snake[i]).x == p.x && w.snake[i].y == p.y;
        assert(w.snake[i] == p);
    }
    if w.snake.contains(p) {
        let i = choose|i: int| 0 <= i < w.snake.len() && w.snake[i] == p;
        assert(w.snake[i].x == p.x);
    }
}

/// A request to reverse leaves the heading as it is; any other request is
/// taken. Nothing but the heading changes.
pub proof fn lemma_no_reverse(w: World, new_dir: Dir)
    ensures
        new_dir == w.dir.reversed() ==> w.turned(new_dir).dir == w.dir,
        new_dir != w.dir.reversed() ==> w.turned(new_dir).dir == new_dir,
        w.turned(new_dir) == (World { dir: w.turned(new_dir).dir, ..w }),
{
}

/// Where the edges wrap, a snake that moves left from column 0 arrives in
/// the last column of the same row and lives on, provided that cell is not
/// part of its body.
pub proof fn lemma_wrap_at_left_edge(w: World, post: World, ate: bool)
    requires
        w.inv(),
        !w.frozen(),
        !w.held_back(),
        w.wrap_world,
        w.dir == Dir::Left,
        w.head().x == 0,
        !w.snake.contains(w.last_in_row()),
        w.stepped(post, ate),
    ensures
        post.head() == w.last_in_row(),
        post.alive,
{
    assert(w.in_grid(w.snake[0]));
    lemma_wrap(-1, w.width);
    lemma_wrap(w.head().y as int, w.height);
}

/// Where the walls are solid, a snake that moves left from column 0 dies of
/// the wall without having moved.
pub proof fn lemma_solid_wall_at_left_edge(w: World, post: World, ate: bool)
    requires
        w.inv(),
        !w.frozen(),
        !w.held_back(),
        !w.wrap_world,
        w.dir == Dir::Left,
        w.head().x == 0,
        w.stepped(post, ate),
    ensures
        !post.alive,
        post.last_death == DeathCause::Wall,
        post.snake == w.snake,
        post.score == w.score,
        !ate,
{
}

/// A move into a cell of the body ends the game as a collision with the
/// body, whether or not the apple lies on that cell: nothing is eaten and
/// the body stays as it was.
pub proof fn lemma_self_collision(w: World, post: World, ate: bool)
    requires
        w.inv(),
        !w.frozen(),
        !w.held_back(),
        !w.hits_wall(),
        w.snake.contains(w.next_head()),
        w.stepped(post, ate),
    ensures
        !post.alive,
        post.last_death == DeathCause::SelfCollision,
        post.snake == w.snake,
        post.score == w.score,
        post.apple == w.apple,
        !ate,
{
}

/// A tick that eats raises the score by one and the length by one; any other
/// tick leaves both as they were. The body never shrinks.
pub proof fn lemma_score_and_length(w: World, post: World, ate: bool)
    requires
        w.inv(),
        w.stepped(post, ate),
    ensures
        ate ==> post.score == w.score + 1 && post.snake.len() == w.snake.len() + 1,
        !ate ==> post.score == w.score && post.snake.len() == w.snake.len(),
        ate <==> !w.frozen() && !w.held_back() && !w.hits_wall() && !w.hits_self() && w.eats(),
{
}

/// A tick that neither ends the game nor is held back puts the head on the
/// next cell; unless the apple is eaten, every other cell of the body takes
/// the place of the one before it and the apple stays.
pub proof fn lemma_plain_move(w: World, post: World, ate: bool)
    requires
        w.inv(),
        !w.frozen(),
        !w.held_back(),
        !w.hits_wall(),
        !w.hits_self(),
        w.stepped(post, ate),
    ensures
        post.alive,
        post.head() == w.next_head(),
        !w.eats() ==> post.apple == w.apple && forall|i: int|
            1 <= i < post.snake.len() ==> post.snake[i] == w.snake[i - 1],
{
}

/// A tick keeps a world in order: the body stays a chain of distinct cells
/// of the grid, the apple stays in the grid and off the body unless the
/// body covers the grid, and the score stays at or below the length.
pub proof fn lemma_step_keeps_invariant(w: World, post: World, ate: bool)
    requires
        w.inv(),
        w.stepped(post, ate),
    ensures
        post.inv(),
{
    if !w.frozen() && !w.held_back() && !w.hits_wall() && !w.hits_self() {
        let head = w.next_head();
        assert(w.in_grid(w.snake[0]));
        lemma_wrap(w.ahead().0, w.width);
        lemma_wrap(w.ahead().1, w.height);
        assert(w.in_grid(head));
        let body = if w.eats() {
            w.grown()
        } else {
            w.slid()
        };
        assert forall|i: int| 0 <= i < body.len() implies w.in_grid(#[trigger] body[i]) by {
            if i > 0 {
                assert(body[i] == w.snake[i - 1]);
            }
        }
        assert forall|i: int, j: int| 0 <= i < body.len() && 0 <= j < body.len() && i != j implies body[i]
            != body[j] by {
            if i > 0 && j > 0 {
                assert(w.snake[i - 1] != w.snake[j - 1]);
            } else if i == 0 {
                assert(body[j] == w.snake[j - 1]);
            } else {
                assert(body[i] == w.snake[i - 1]);
            }
        }
        assert(post.snake == body);
        if !w.eats() && post.snake.contains(post.apple) {
            let i = choose|i: int| 0 <= i < post.snake.len() && post.snake[i] == post.apple;
            assert(w.snake[i - 1] == w.apple);
        }
    }
}

/// A coordinate one step outside `0..n` comes back in at the other end.
pub proof fn lemma_wrap(v: int, n: int)
    requires
        n >= 1,
        -1 <= v <= n,
    ensures
        v % n == if v < 0 {
            n - 1
        } else if v >= n {
            0
        } else {
            v
        },
{
    if v < 0 {
        assert(v % n == n - 1) by (nonlinear_arith)
            requires
                v == -1,
                n >= 1,
        ;
    } else if v >= n {
        assert(v % n == 0) by (nonlinear_arith)
            requires
                v == n,
                n >= 1,
        ;
    } else {
        assert(v % n == v) by (nonlinear_arith)
            requires
                0 <= v < n,
        ;
    }
}

/// Whether some cell of the body has row-major index `k`.
pub open spec fn covers(snake: Seq<Pos>, width: int, k: int) -> bool {
    exists|i: int| 0 <= i < snake.len() && #[trigger] cell_index(snake[i], width) == k
}

/// The number of indices below `n` that `taken` does not hold.
pub open spec fn free_below(taken: Set<int>, n: int) -> int
    decreases n,
{
    if n <= 0 {
        0
    } else {
        free_below(taken, n - 1) + if taken.contains(n - 1) {
            0int
        } else {
            1int
        }
    }
}

/// The indices that the body covers, as a set.
pub open spec fn covered(snake: Seq<Pos>, width: int) -> Set<int> {
    Set::new(|k: int| covers(snake, width, k))
}

pub proof fn lemma_free_below_count(taken: Set<int>, n: int)
    requires
        n >= 0,
        taken.finite(),
    ensures
        free_below(taken, n) + taken.intersect(set_int_range(0, n)).len() == n,
        0 <= free_below(taken, n) <= n,
    decreases n,
{
    if n == 0 {
        assert(taken.intersect(set_int_range(0, 0)) =~= Set::empty());
    } else {
        lemma_free_below_count(taken, n - 1);
        let a = taken.intersect(set_int_range(0, n - 1));
        let b = taken.intersect(set_int_range(0, n));
        if taken.contains(n - 1) {
            assert(b =~= a.insert(n - 1));
        } else {
            assert(b =~= a);
        }
    }
}

/// In a body of distinct cells of the grid, a cell is found by its index.
pub proof fn lemma_covers_contains(w: World, p: Pos)
    requires
        w.inv_but_apple(),
        w.in_grid(p),
    ensures
        covers(w.snake, w.width, cell_index(p, w.width)) <==> w.snake.contains(p),
{
    if covers(w.snake, w.width, cell_index(p, w.width)) {
        let i = choose|i: int|
            0 <= i < w.snake.len() && #[trigger] cell_index(w.snake[i], w.width) == cell_index(
                p,
                w.width,
            );
        lemma_cell_index_injective(w.snake[i], p, w.width);
    }
    if w.snake.contains(p) {
        let i = choose|i: int| 0 <= i < w.snake.len() && w.snake[i] == p;
        assert(cell_index(w.snake[i], w.width) == cell_index(p, w.width));
    }
}

/// A body of distinct cells of the grid leaves as many indices free as the
/// grid has cells beyond the body's length.
pub proof fn lemma_free_cells(w: World)
    requires
        w.inv_but_apple(),
    ensures
        free_below(covered(w.snake, w.width), w.cells()) == w.cells() - w.snake.len(),
        w.snake.len() <= w.cells(),
{
    let idx = cell_indices(w.snake, w.width);
    let n = w.cells();
    assert(n >= 1) by (nonlinear_arith)
        requires
            n == w.width * w.height,
            w.width >= 1,
            w.height >= 1,
    ;
    assert forall|i: int, j: int| 0 <= i < idx.len() && 0 <= j < idx.len() && i != j implies idx[i]
        != idx[j] by {
        if idx[i] == idx[j] {
            lemma_cell_index_injective(w.snake[i], w.snake[j], w.width);
        }
    }
    idx.unique_seq_to_set();
    seq_to_set_is_finite(idx);
    assert(covered(w.snake, w.width) =~= idx.to_set()) by {
        assert forall|k: int| covers(w.snake, w.width, k) <==> idx.to_set().contains(k) by {
            if covers(w.snake, w.width, k) {
                let i = choose|i: int|
                    0 <= i < w.snake.len() && #[trigger] cell_index(w.snake[i], w.width) == k;
                assert(idx[i] == k);
            }
            if idx.to_set().contains(k) {
                let i = choose|i: int| 0 <= i < idx.len() && idx[i] == k;
                assert(cell_index(w.snake[i], w.width) == k);
            }
        }
    }
    assert(idx.to_set().intersect(set_int_range(0, n)) =~= idx.to_set()) by {
        assert forall|k: int| idx.to_set().contains(k) implies set_int_range(0, n).contains(
            k,
        ) by {
            let i = choose|i: int| 0 <= i < idx.len() && idx[i] == k;
            lemma_cell_index_bounds(w.snake[i], w.width, w.height);
        }
    }
    lemma_free_below_count(idx.to_set(), n);
}

} // verus!
