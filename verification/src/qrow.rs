//! The action values of one state.

use crate::fixed::Q_LIMIT;
use vstd::prelude::*;

verus! {

/// The number of actions: turn left, go straight, turn right.
pub const ACTIONS: usize = 3;

/// The values of the three actions in one state, in millionths.
#[derive(Clone, Copy, PartialEq, Eq, Debug, Structural)]
pub struct QRow {
    pub left: i64,
    pub straight: i64,
    pub right: i64,
}

impl QRow {
    /// The row of a state that was never seen: all values zero.
    pub open spec fn zero() -> QRow {
        QRow { left: 0, straight: 0, right: 0 }
    }

    /// The value of action `a`.
    pub open spec fn value(self, a: int) -> int {
        if a == 0 {
            self.left as int
        } else if a == 1 {
            self.straight as int
        } else {
            self.right as int
        }
    }

    /// This row with the value of action `a` replaced.
    pub open spec fn with_value(self, a: int, v: i64) -> QRow {
        if a == 0 {
            QRow { left: v, ..self }
        } else if a == 1 {
            QRow { straight: v, ..self }
        } else {
            QRow { right: v, ..self }
        }
    }

    /// The largest of the three values.
    pub open spec fn best(self) -> int {
        if self.left >= self.straight && self.left >= self.right {
            self.left as int
        } else if self.straight >= self.right {
            self.straight as int
        } else {
            self.right as int
        }
    }

    /// The action of the largest value; among equal values the first.
    pub open spec fn greedy(self) -> int {
        if self.left >= self.straight && self.left >= self.right {
            0
        } else if self.straight >= self.right {
            1
        } else {
            2
        }
    }

    /// All three values lie within the range of stored values.
    pub open spec fn bounded(self) -> bool {
        &&& -Q_LIMIT <= self.left <= Q_LIMIT
        &&& -Q_LIMIT <= self.straight <= Q_LIMIT
        &&& -Q_LIMIT <= self.right <= Q_LIMIT
    }

    /// Each value of `other` differs from this row's by at most `spread`.
    pub open spec fn near(self, other: QRow, spread: int) -> bool {
        &&& -spread <= other.left - self.left <= spread
        &&& -spread <= other.straight - self.straight <= spread
        &&& -spread <= other.right - self.right <= spread
    }

    /// A row of zeros.
    pub fn zeros() -> (r: QRow)
        ensures
            r == QRow::zero(),
    {
        QRow { left: 0, straight: 0, right: 0 }
    }

    /// The value of action `a`.
    pub fn get(&self, a: usize) -> (v: i64)
        requires
            a < ACTIONS,
        ensures
            v == self.value(a as int),
    {
        if a == 0 {
            self.left
        } else if a == 1 {
            self.straight
        } else {
            self.right
        }
    }

    /// Replaces the value of action `a`.
    pub fn set(&mut self, a: usize, v: i64)
        requires
            a < ACTIONS,
        ensures
            *final(self) == old(self).with_value(a as int, v),
    {
        if a == 0 {
            self.left = v;
        } else if a == 1 {
            self.straight = v;
        } else {
            self.right = v;
        }
    }

    /// The largest of the three values.
    pub fn max_value(&self) -> (v: i64)
        ensures
            v == self.best(),
    {
        if self.left >= self.straight && self.left >= self.right {
            self.left
        } else if self.straight >= self.right {
            self.straight
        } else {
            self.right
        }
    }

    /// The action of the largest value. Ties go to the first action among
    /// the equal ones: left before straight before right.
    pub fn argmax(&self) -> (a: usize)
        ensures
            a == self.greedy(),
            a < ACTIONS,
    {
        if self.left >= self.straight && self.left >= self.right {
            0
        } else if self.straight >= self.right {
            1
        } else {
            2
        }
    }
}

/// The greedy action has the largest value, and no action before it has a
/// value as large.
pub proof fn lemma_greedy_is_first_best(row: QRow)
    ensures
        0 <= row.greedy() < 3,
        row.value(row.greedy()) == row.best(),
        forall|a: int| 0 <= a < 3 ==> row.value(a) <= row.best(),
        forall|a: int| 0 <= a < row.greedy() ==> row.value(a) < row.best(),
{
}

} // verus!
