//! One episode of Snake: the grid, the body, the apple and the rules of a
//! tick.

use crate::grid::{opposite_dir, DeathCause, Dir, Pos};
use crate::random::draw_below;
use crate::world::{
    cell_at, cell_index, covered, covers, free_below, initial_snake, lemma_cell_at,
    lemma_cell_index_injective, lemma_covers_contains, lemma_free_cells, lemma_wrap, World,
};
use rand::rngs::SmallRng;
use std::collections::HashSet;
use std::collections::VecDeque;
use vstd::prelude::*;

verus! {

/// Columns of the default grid.
pub const GRID_WIDTH: u16 = 40;

/// Rows of the default grid.
pub const GRID_HEIGHT: u16 = 30;

/// Cells of the body at the start of an episode.
pub const INITIAL_LENGTH: usize = 3;

/// Random cells tried for a new apple before the free cells are counted.
pub const APPLE_TRIES: u32 = 16;

/// A game of Snake. Its state is read through `@`, which gives the `World`
/// it stands for, and through the getters.
pub struct Game {
    width: u16,
    height: u16,
    snake: VecDeque<Pos>,
    /// The row-major indices of the body's cells, for membership tests.
    snake_set: HashSet<u64>,
    dir: Dir,
    apple: Pos,
    alive: bool,
    score: usize,
    paused: bool,
    last_death: DeathCause,
    wrap_world: bool,
    slow_horizontal: bool,
    horizontal_counter: u8,
}

impl View for Game {
    type V = World;

    closed spec fn view(&self) -> World {
        World {
            width: self.width as int,
            height: self.height as int,
            snake: self.snake@,
            dir: self.dir,
            apple: self.apple,
            alive: self.alive,
            score: self.score as nat,
            paused: self.paused,
            last_death: self.last_death,
            wrap_world: self.wrap_world,
            slow_horizontal: self.slow_horizontal,
            horizontal_counter: self.horizontal_counter as nat,
        }
    }
}

/// The row-major index of a cell.
fn cell_key(p: Pos, width: u16) -> (k: u64)
    requires
        0 <= p.x < width,
        0 <= p.y <= 0xFFFF,
    ensures
        k == cell_index(p, width as int),
{
    assert(0 <= p.y * width <= 0xFFFF * 0xFFFF) by (nonlinear_arith)
        requires
            0 <= p.y <= 0xFFFF,
            0 <= width <= 0xFFFF,
    ;
    (p.y as u64) * (width as u64) + (p.x as u64)
}

impl Game {
    /// The set of indices mirrors the body.
    pub closed spec fn mirrored(&self) -> bool {
        forall|k: u64| #[trigger]
            self.snake_set@.contains(k) <==> covers(self.snake@, self.width as int, k as int)
    }

    /// The game is in a state that the rules can be applied to.
    pub open spec fn wf(&self) -> bool {
        self@.inv() && self.mirrored()
    }

    /// As `wf`, but for the place of the apple.
    pub open spec fn wf_but_apple(&self) -> bool {
        self@.inv_but_apple() && self.mirrored()
    }

    /// A new game on a grid of `width` by `height` cells whose edges wrap
    /// around.
    pub fn new(width: u16, height: u16, rng: &mut SmallRng) -> (g: Game)
        requires
            width >= 4,
            height >= 1,
        ensures
            g.wf(),
            g@.fresh(width as int, height as int, true, false),
    {
        Game::with_config(width, height, true, false, rng)
    }

    /// A new game on the default grid, whose edges wrap around or are solid
    /// walls.
    pub fn new_with_wrap(wrap_world: bool, rng: &mut SmallRng) -> (g: Game)
        ensures
            g.wf(),
            g@.fresh(GRID_WIDTH as int, GRID_HEIGHT as int, wrap_world, false),
    {
        Game::with_config(GRID_WIDTH, GRID_HEIGHT, wrap_world, false, rng)
    }

    /// A new game: a snake of three cells in the middle row, heading right,
    /// and an apple on a free cell. The grid must be at least four cells
    /// wide, for the snake to fit.
    pub fn with_config(
        width: u16,
        height: u16,
        wrap_world: bool,
        slow_horizontal: bool,
        rng: &mut SmallRng,
    ) -> (g: Game)
        requires
            width >= 4,
            height >= 1,
        ensures
            g.wf(),
            g@.fresh(width as int, height as int, wrap_world, slow_horizontal),
    {
        let start_x = (width / 2) as i32;
        let start_y = (height / 2) as i32;
        let head = Pos::new(start_x, start_y);
        let neck = Pos::new(start_x - 1, start_y);
        let tail = Pos::new(start_x - 2, start_y);
        let mut snake: VecDeque<Pos> = VecDeque::new();
        let mut snake_set: HashSet<u64> = HashSet::new();
        snake.push_back(head);
        snake_set.insert(cell_key(head, width));
        snake.push_back(neck);
        snake_set.insert(cell_key(neck, width));
        snake.push_back(tail);
        snake_set.insert(cell_key(tail, width));
        let mut game = Game {
            width,
            height,
            snake,
            snake_set,
            dir: Dir::Right,
            apple: Pos::new(0, 0),
            alive: true,
            score: 0,
            paused: false,
            last_death: DeathCause::Unclassified,
            wrap_world,
            slow_horizontal,
            horizontal_counter: 0,
        };
        proof {
            assert(game.snake@ =~= initial_snake(width as int, height as int));
            assert(game.mirrored()) by {
                assert forall|k: u64| #[trigger]
                    game.snake_set@.contains(k) <==> covers(
                        game.snake@,
                        width as int,
                        k as int,
                    ) by {
                    assert(cell_index(game.snake@[0], width as int) == cell_index(
                        head,
                        width as int,
                    ));
                    assert(cell_index(game.snake@[1], width as int) == cell_index(
                        neck,
                        width as int,
                    ));
                    assert(cell_index(game.snake@[2], width as int) == cell_index(
                        tail,
                        width as int,
                    ));
                }
            }
            assert(4 <= width as int * height as int) by (nonlinear_arith)
                requires
                    width >= 4,
                    height >= 1,
            ;
        }
        game.place_apple(rng);
        game
    }

    /// A game assembled from given parts, to start an episode in a chosen
    /// position. The parts are accepted when the grid has at least one cell,
    /// the body is not empty, its cells are distinct and lie in the grid, and
    /// the apple lies in the grid and off the body (where the body covers
    /// the whole grid, anywhere in the grid).
    pub fn from_parts(
        width: u16,
        height: u16,
        wrap_world: bool,
        slow_horizontal: bool,
        body: &Vec<Pos>,
        dir: Dir,
        apple: Pos,
    ) -> (r: Option<Game>)
        ensures
            r is Some <==> World::assembled(
                width as int,
                height as int,
                wrap_world,
                slow_horizontal,
                body@,
                dir,
                apple,
            ).inv(),
            r matches Some(g) ==> g.wf() && g@ == World::assembled(
                width as int,
                height as int,
                wrap_world,
                slow_horizontal,
                body@,
                dir,
                apple,
            ),
    {
        let ghost goal = World::assembled(
            width as int,
            height as int,
            wrap_world,
            slow_horizontal,
            body@,
            dir,
            apple,
        );
        if width == 0 || height == 0 || body.len() == 0 {
            return None;
        }
        if apple.x < 0 || apple.x >= width as i32 || apple.y < 0 || apple.y >= height as i32 {
            return None;
        }
        let mut snake: VecDeque<Pos> = VecDeque::new();
        let mut snake_set: HashSet<u64> = HashSet::new();
        let n = body.len();
        let mut i: usize = 0;
        while i < n
            invariant
                n == body@.len(),
                0 <= i <= n,
                width >= 1,
                height >= 1,
                snake@ == body@.subrange(0, i as int),
                snake@.no_duplicates(),
                forall|j: int| 0 <= j < i ==> goal.in_grid(#[trigger] body@[j]),
                goal.width == width,
                goal.height == height,
                goal.snake == body@,
                forall|k: u64| #[trigger]
                    snake_set@.contains(k) <==> covers(snake@, width as int, k as int),
            decreases n - i,
        {
            let p = body[i];
            if p.x < 0 || p.x >= width as i32 || p.y < 0 || p.y >= height as i32 {
                assert(!goal.in_grid(goal.snake[i as int]));
                return None;
            }
            let k = cell_key(p, width);
            if snake_set.contains(&k) {
                proof {
                    let j = choose|j: int|
                        0 <= j < snake@.len() && #[trigger] cell_index(snake@[j], width as int)
                            == k as int;
                    lemma_cell_index_injective(snake@[j], p, width as int);
                    assert(body@[j] == body@[i as int]);
                }
                return None;
            }
            let ghost before = snake@;
            snake.push_back(p);
            snake_set.insert(k);
            proof {
                assert(snake@ =~= body@.subrange(0, i as int + 1));
                assert forall|a: int, b: int|
                    0 <= a < snake@.len() && 0 <= b < snake@.len() && a != b implies snake@[a]
                    != snake@[b] by {
                    if snake@[a] == snake@[b] {
                        let lo = if a < b {
                            a
                        } else {
                            b
                        };
                        assert(before[lo] == p);
                        assert(cell_index(before[lo], width as int) == k as int);
                    }
                }
                assert forall|c: u64| #[trigger]
                    snake_set@.contains(c) <==> covers(snake@, width as int, c as int) by {
                    if covers(before, width as int, c as int) {
                        let j = choose|j: int|
                            0 <= j < before.len() && #[trigger] cell_index(
                                before[j],
                                width as int,
                            ) == c as int;
                        assert(cell_index(snake@[j], width as int) == c as int);
                    }
                    if c == k {
                        assert(cell_index(snake@[i as int], width as int) == c as int);
                    }
                    if covers(snake@, width as int, c as int) {
                        let j = choose|j: int|
                            0 <= j < snake@.len() && #[trigger] cell_index(
                                snake@[j],
                                width as int,
                            ) == c as int;
                        if j < i {
                            assert(cell_index(before[j], width as int) == c as int);
                        }
                    }
                }
            }
            i += 1;
        }
        assert(snake@ =~= body@);
        let game = Game {
            width,
            height,
            snake,
            snake_set,
            dir,
            apple,
            alive: true,
            score: 0,
            paused: false,
            last_death: DeathCause::Unclassified,
            wrap_world,
            slow_horizontal,
            horizontal_counter: 0,
        };
        assert(game@ == goal);
        let total = game.cells();
        if (n as u64) < total && game.snake_contains(apple) {
            return None;
        }
        Some(game)
    }

    /// Puts the apple on a free cell, each free cell being equally likely:
    /// a few random cells are tried first, and if none of them is free, one
    /// of the free cells is picked by its rank in row-major order. Where the
    /// snake covers the whole grid the apple stays where it is.
    pub fn place_apple(&mut self, rng: &mut SmallRng)
        requires
            old(self).wf_but_apple(),
        ensures
            final(self).wf(),
            old(self)@.apple_placed(final(self)@),
    {
        let total = self.cells();
        let len = self.snake.len() as u64;
        proof {
            lemma_free_cells(self@);
        }
        if len >= total {
            return;
        }
        let mut tries: u32 = 0;
        while tries < APPLE_TRIES
            invariant
                *self == *old(self),
                self.wf_but_apple(),
                !self@.full(),
            decreases APPLE_TRIES - tries,
        {
            let x = draw_below(rng, self.width as u32);
            let y = draw_below(rng, self.height as u32);
            let p = Pos::new(x as i32, y as i32);
            let k = cell_key(p, self.width);
            if !self.snake_set.contains(&k) {
                proof {
                    lemma_covers_contains(self@, p);
                }
                self.apple = p;
                return;
            }
            tries += 1;
        }
        let free = total - len;
        assert(free <= 0xFFFF * 0xFFFF) by (nonlinear_arith)
            requires
                free <= total,
                total == self.width * self.height,
                self.width <= 0xFFFF,
                self.height <= 0xFFFF,
        ;
        let rank = draw_below(rng, free as u32) as u64;
        let mut seen: u64 = 0;
        let mut idx: u64 = 0;
        while idx < total
            invariant
                *self == *old(self),
                self.wf_but_apple(),
                !self@.full(),
                total == self@.cells(),
                idx <= total,
                seen == free_below(covered(self.snake@, self.width as int), idx as int),
                seen <= rank,
                rank < free,
                free == free_below(covered(self.snake@, self.width as int), total as int),
            decreases total - idx,
        {
            if !self.snake_set.contains(&idx) {
                if seen == rank {
                    proof {
                        lemma_cell_at(idx as int, self.width as int, self.height as int);
                    }
                    let x = (idx % self.width as u64) as i32;
                    let y = (idx / self.width as u64) as i32;
                    let p = Pos::new(x, y);
                    proof {
                        assert(p == cell_at(idx as int, self.width as int));
                        lemma_covers_contains(self@, p);
                    }
                    self.apple = p;
                    return;
                }
                seen += 1;
            }
            idx += 1;
        }
    }

    /// Advances the game by one tick and tells whether the apple was eaten.
    ///
    /// Nothing happens in a game that has ended or is paused. Otherwise the
    /// head moves one cell in the current heading. Leaving the grid wraps
    /// around, or ends the game where the walls are solid. Entering a cell of
    /// the body ends the game. On the apple's cell the snake grows by one,
    /// the score rises by one and a new apple is placed; elsewhere the tail
    /// follows.
    pub fn step(&mut self, rng: &mut SmallRng) -> (ate: bool)
        requires
            old(self).wf(),
        ensures
            final(self).wf(),
            old(self)@.stepped(final(self)@, ate),
    {
        if !self.alive || self.paused {
            return false;
        }
        let horizontal = match self.dir {
            Dir::Left | Dir::Right => true,
            Dir::Up | Dir::Down => false,
        };
        if self.slow_horizontal && horizontal {
            if self.horizontal_counter == 0 {
                self.horizontal_counter = 1;
                return false;
            }
            self.horizontal_counter = 0;
        }
        let head = self.snake[0];
        assert(self@.in_grid(self.snake@[0]));
        let mut new_x = head.x;
        let mut new_y = head.y;
        match self.dir {
            Dir::Up => new_y -= 1,
            Dir::Down => new_y += 1,
            Dir::Left => new_x -= 1,
            Dir::Right => new_x += 1,
        }
        assert((new_x as int, new_y as int) == old(self)@.ahead());
        let out = new_x < 0 || new_x >= self.width as i32 || new_y < 0 || new_y
            >= self.height as i32;
        if self.wrap_world {
            proof {
                lemma_wrap(new_x as int, self.width as int);
                lemma_wrap(new_y as int, self.height as int);
            }
            if new_x < 0 {
                new_x = self.width as i32 - 1;
            } else if new_x >= self.width as i32 {
                new_x = 0;
            }
            if new_y < 0 {
                new_y = self.height as i32 - 1;
            } else if new_y >= self.height as i32 {
                new_y = 0;
            }
        } else if out {
            self.last_death = DeathCause::Wall;
            self.alive = false;
            return false;
        } else {
            proof {
                lemma_wrap(new_x as int, self.width as int);
                lemma_wrap(new_y as int, self.height as int);
            }
        }
        let new_head = Pos::new(new_x, new_y);
        assert(new_head == old(self)@.next_head());
        let key = cell_key(new_head, self.width);
        proof {
            lemma_covers_contains(self@, new_head);
        }
        if self.snake_set.contains(&key) {
            self.last_death = DeathCause::SelfCollision;
            self.alive = false;
            return false;
        }
        let ghost before = self.snake@;
        self.snake.push_front(new_head);
        self.snake_set.insert(key);
        proof {
            assert(self.snake@ =~= old(self)@.grown());
            assert forall|a: int, b: int|
                0 <= a < self.snake@.len() && 0 <= b < self.snake@.len() && a != b implies self.snake@[a]
                != self.snake@[b] by {
                if a > 0 && b > 0 {
                    assert(before[a - 1] != before[b - 1]);
                } else if a == 0 {
                    assert(before[b - 1] == self.snake@[b]);
                } else {
                    assert(before[a - 1] == self.snake@[a]);
                }
            }
            assert forall|i: int| 0 <= i < self.snake@.len() implies self@.in_grid(
                #[trigger] self.snake@[i],
            ) by {
                if i > 0 {
                    assert(self.snake@[i] == before[i - 1]);
                }
            }
            assert forall|c: u64| #[trigger]
                self.snake_set@.contains(c) <==> covers(
                    self.snake@,
                    self.width as int,
                    c as int,
                ) by {
                if covers(before, self.width as int, c as int) {
                    let j = choose|j: int|
                        0 <= j < before.len() && #[trigger] cell_index(
                            before[j],
                            self.width as int,
                        ) == c as int;
                    assert(cell_index(self.snake@[j + 1], self.width as int) == c as int);
                }
                if c == key {
                    assert(cell_index(self.snake@[0], self.width as int) == c as int);
                }
                if covers(self.snake@, self.width as int, c as int) {
                    let j = choose|j: int|
                        0 <= j < self.snake@.len() && #[trigger] cell_index(
                            self.snake@[j],
                            self.width as int,
                        ) == c as int;
                    if j > 0 {
                        assert(cell_index(before[j - 1], self.width as int) == c as int);
                    }
                }
            }
        }
        if new_head == self.apple {
            let grown_len = self.snake.len();
            assert(self.score < grown_len);
            self.score += 1;
            self.place_apple(rng);
            true
        } else {
            let ghost grown = self.snake@;
            let tail = self.snake.pop_back();
            match tail {
                Some(t) => {
                    assert(self@.in_grid(grown[grown.len() - 1]));
                    let tail_key = cell_key(t, self.width);
                    self.snake_set.remove(&tail_key);
                    proof {
                        assert(self.snake@ =~= old(self)@.slid());
                        assert forall|c: u64| #[trigger]
                            self.snake_set@.contains(c) <==> covers(
                                self.snake@,
                                self.width as int,
                                c as int,
                            ) by {
                            if covers(self.snake@, self.width as int, c as int) {
                                let j = choose|j: int|
                                    0 <= j < self.snake@.len() && #[trigger] cell_index(
                                        self.snake@[j],
                                        self.width as int,
                                    ) == c as int;
                                assert(cell_index(grown[j], self.width as int) == c as int);
                                if c == tail_key {
                                    lemma_cell_index_injective(grown[j], t, self.width as int);
                                }
                            }
                            if covers(grown, self.width as int, c as int) && c != tail_key {
                                let j = choose|j: int|
                                    0 <= j < grown.len() && #[trigger] cell_index(
                                        grown[j],
                                        self.width as int,
                                    ) == c as int;
                                assert(cell_index(self.snake@[j], self.width as int) == c as int);
                            }
                        }
                        assert(!self.snake@.contains(self.apple) || self@.full()) by {
                            if self.snake@.contains(self.apple) {
                                let j = choose|j: int|
                                    0 <= j < self.snake@.len() && self.snake@[j] == self.apple;
                                assert(grown[j] == self.apple);
                                assert(before[j - 1] == self.apple);
                            }
                        }
                    }
                },
                None => {},
            }
            false
        }
    }

    /// Advances the game by one tick.
    pub fn update(&mut self, rng: &mut SmallRng)
        requires
            old(self).wf(),
        ensures
            final(self).wf(),
            exists|ate: bool| old(self)@.stepped(final(self)@, ate),
    {
        let _ = self.step(rng);
    }

    pub fn width(&self) -> (w: u16)
        ensures
            w == self@.width,
    {
        self.width
    }

    pub fn height(&self) -> (h: u16)
        ensures
            h == self@.height,
    {
        self.height
    }

    /// The number of cells of the grid.
    pub fn cells(&self) -> (n: u64)
        ensures
            n == self@.cells(),
    {
        assert(0 <= self.width * self.height <= 0xFFFF * 0xFFFF) by (nonlinear_arith)
            requires
                0 <= self.width <= 0xFFFF,
                0 <= self.height <= 0xFFFF,
        ;
        (self.width as u64) * (self.height as u64)
    }

    pub fn dir(&self) -> (d: Dir)
        ensures
            d == self@.dir,
    {
        self.dir
    }

    pub fn apple(&self) -> (p: Pos)
        ensures
            p == self@.apple,
    {
        self.apple
    }

    pub fn is_alive(&self) -> (b: bool)
        ensures
            b == self@.alive,
    {
        self.alive
    }

    pub fn score(&self) -> (s: usize)
        ensures
            s == self@.score,
    {
        self.score
    }

    pub fn is_paused(&self) -> (b: bool)
        ensures
            b == self@.paused,
    {
        self.paused
    }

    pub fn last_death(&self) -> (c: DeathCause)
        ensures
            c == self@.last_death,
    {
        self.last_death
    }

    pub fn wrap_world(&self) -> (b: bool)
        ensures
            b == self@.wrap_world,
    {
        self.wrap_world
    }

    pub fn slow_horizontal(&self) -> (b: bool)
        ensures
            b == self@.slow_horizontal,
    {
        self.slow_horizontal
    }

    /// The length of the body.
    pub fn snake_len(&self) -> (n: usize)
        ensures
            n == self@.snake.len(),
    {
        self.snake.len()
    }

    /// The head of the snake.
    pub fn head(&self) -> (p: Pos)
        requires
            self.wf_but_apple(),
        ensures
            p == self@.head(),
    {
        self.snake[0]
    }

    /// The `i`-th cell of the body, the head being cell 0; `None` past the
    /// tail.
    pub fn segment(&self, i: usize) -> (p: Option<Pos>)
        ensures
            p == if i < self@.snake.len() {
                Some(self@.snake[i as int])
            } else {
                None
            },
    {
        if i < self.snake.len() {
            Some(self.snake[i])
        } else {
            None
        }
    }

    /// The body, head first.
    pub fn body(&self) -> (v: Vec<Pos>)
        ensures
            v@ == self@.snake,
    {
        let mut v: Vec<Pos> = Vec::new();
        let n = self.snake.len();
        let mut i: usize = 0;
        while i < n
            invariant
                n == self.snake@.len(),
                0 <= i <= n,
                v@ == self.snake@.subrange(0, i as int),
            decreases n - i,
        {
            v.push(self.snake[i]);
            i += 1;
        }
        v
    }

    /// Whether the body covers `p`.
    pub fn snake_contains(&self, p: Pos) -> (b: bool)
        requires
            self.wf_but_apple(),
        ensures
            b == self@.snake.contains(p),
    {
        if p.x < 0 || p.x >= self.width as i32 || p.y < 0 || p.y >= self.height as i32 {
            assert(!self@.snake.contains(p)) by {
                if self@.snake.contains(p) {
                    let i = choose|i: int| 0 <= i < self@.snake.len() && self@.snake[i] == p;
                    assert(self@.in_grid(self@.snake[i]));
                }
            }
            return false;
        }
        let k = cell_key(p, self.width);
        proof {
            lemma_covers_contains(self@, p);
        }
        self.snake_set.contains(&k)
    }

    /// Pauses or resumes the game.
    pub fn set_paused(&mut self, paused: bool)
        ensures
            final(self)@ == (World { paused, ..old(self)@ }),
            old(self).wf() ==> final(self).wf(),
    {
        self.paused = paused;
    }

    /// Requests a new heading. A reversal of the current heading is ignored;
    /// any other heading is taken.
    pub fn change_dir(&mut self, new_dir: Dir)
        ensures
            final(self)@ == old(self)@.turned(new_dir),
            old(self).wf() ==> final(self).wf(),
    {
        let opposite = opposite_dir(self.dir);
        if new_dir != opposite {
            self.dir = new_dir;
        }
    }
}

} // verus!
