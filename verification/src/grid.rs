//! Grid positions and headings.

use vstd::prelude::*;

verus! {

/// A cell of the grid, by column `x` and row `y`. Rows grow downwards.
#[derive(Clone, Copy, PartialEq, Eq, Hash, Debug, Structural)]
pub struct Pos {
    pub x: i32,
    pub y: i32,
}

impl Pos {
    /// The cell in column `x`, row `y`.
    pub fn new(x: i32, y: i32) -> (p: Pos)
        ensures
            p.x == x,
            p.y == y,
    {
        Pos { x, y }
    }
}

/// A heading of the snake.
#[derive(Clone, Copy, PartialEq, Eq, Debug, Structural)]
pub enum Dir {
    Up,
    Down,
    Left,
    Right,
}

/// Why an episode ended. A world that has not ended, or that ended for a
/// reason the simulation did not record, is `Unclassified`.
#[derive(Clone, Copy, PartialEq, Eq, Debug, Structural)]
pub enum DeathCause {
    Unclassified,
    SelfCollision,
    Wall,
}

impl Dir {
    /// The step that one move in this heading makes, as (columns, rows).
    pub open spec fn delta(self) -> (int, int) {
        match self {
            Dir::Up => (0, -1),
            Dir::Down => (0, 1),
            Dir::Left => (-1, 0),
            Dir::Right => (1, 0),
        }
    }

    /// The heading a quarter turn to the left of this one.
    pub open spec fn turned_left(self) -> Dir {
        match self {
            Dir::Up => Dir::Left,
            Dir::Left => Dir::Down,
            Dir::Down => Dir::Right,
            Dir::Right => Dir::Up,
        }
    }

    /// The heading a quarter turn to the right of this one.
    pub open spec fn turned_right(self) -> Dir {
        match self {
            Dir::Up => Dir::Right,
            Dir::Right => Dir::Down,
            Dir::Down => Dir::Left,
            Dir::Left => Dir::Up,
        }
    }

    /// The heading that points the other way.
    pub open spec fn reversed(self) -> Dir {
        match self {
            Dir::Up => Dir::Down,
            Dir::Down => Dir::Up,
            Dir::Left => Dir::Right,
            Dir::Right => Dir::Left,
        }
    }

    /// The heading after action `a`: 0 turns left, 1 keeps the heading, any
    /// other value turns right.
    pub open spec fn after_action(self, a: int) -> Dir {
        if a == 0 {
            self.turned_left()
        } else if a == 1 {
            self
        } else {
            self.turned_right()
        }
    }
}

/// The step of one move in heading `d`, as (columns, rows).
pub fn dir_delta(d: Dir) -> (r: (i32, i32))
    ensures
        (r.0 as int, r.1 as int) == d.delta(),
{
    match d {
        Dir::Up => (0, -1),
        Dir::Down => (0, 1),
        Dir::Left => (-1, 0),
        Dir::Right => (1, 0),
    }
}

/// Rotates a heading a quarter turn to the left.
pub fn left_dir(d: Dir) -> (r: Dir)
    ensures
        r == d.turned_left(),
{
    match d {
        Dir::Up => Dir::Left,
        Dir::Left => Dir::Down,
        Dir::Down => Dir::Right,
        Dir::Right => Dir::Up,
    }
}

/// Rotates a heading a quarter turn to the right.
pub fn right_dir(d: Dir) -> (r: Dir)
    ensures
        r == d.turned_right(),
{
    match d {
        Dir::Up => Dir::Right,
        Dir::Right => Dir::Down,
        Dir::Down => Dir::Left,
        Dir::Left => Dir::Up,
    }
}

/// The heading opposite to `d`.
pub fn opposite_dir(d: Dir) -> (r: Dir)
    ensures
        r == d.reversed(),
{
    match d {
        Dir::Up => Dir::Down,
        Dir::Down => Dir::Up,
        Dir::Left => Dir::Right,
        Dir::Right => Dir::Left,
    }
}

/// Applies an action to a heading: 0 turns left, 1 goes straight, anything
/// else turns right.
pub fn dir_after_action(d: Dir, a: usize) -> (r: Dir)
    ensures
        r == d.after_action(a as int),
{
    if a == 0 {
        left_dir(d)
    } else if a == 1 {
        d
    } else {
        right_dir(d)
    }
}

/// A left turn undoes a right turn and the other way round, four equal
/// quarter turns come back to the start, and two of them reverse the heading.
pub proof fn lemma_rotation_closure(d: Dir)
    ensures
        d.turned_right().turned_left() == d,
        d.turned_left().turned_right() == d,
        d.turned_left().turned_left().turned_left().turned_left() == d,
        d.turned_right().turned_right().turned_right().turned_right() == d,
        d.turned_left().turned_left() == d.reversed(),
        d.turned_right().turned_right() == d.reversed(),
{
}

/// A left turn rotates the step vector a quarter turn counter-clockwise on
/// the screen, a right turn clockwise, and reversing negates it.
pub proof fn lemma_turns_rotate_delta(d: Dir)
    ensures
        d.turned_left().delta() == (d.delta().1, -d.delta().0),
        d.turned_right().delta() == (-d.delta().1, d.delta().0),
        d.reversed().delta() == (-d.delta().0, -d.delta().1),
{
}

} // verus!
