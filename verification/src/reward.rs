//! The reward of one transition, in millionths.
//!
//! Dying costs most when the snake ran into itself, less at a wall, least
//! where no cause is known. Eating pays well, the more the longer the snake
//! is. Every other step costs a little, and is shaped by whether the apple
//! came closer.

use crate::grid::DeathCause;
use vstd::prelude::*;

verus! {

/// Reward of a death by running into the body.
pub const REWARD_SELF_COLLISION: i64 = -30_000_000;

/// Reward of a death at a wall.
pub const REWARD_WALL: i64 = -20_000_000;

/// Reward of a death of unknown cause.
pub const REWARD_DEATH: i64 = -12_000_000;

/// Reward of eating the apple, before the part that grows with the length.
pub const REWARD_APPLE: i64 = 10_000_000;

/// What each cell of the body adds to the reward of eating.
pub const REWARD_PER_SEGMENT: i64 = 100_000;

/// Reward of a step that neither eats nor dies, before shaping.
pub const STEP_COST: i64 = -5_000;

/// Added where the step brought the head closer to the apple.
pub const CLOSER_BONUS: i64 = 50_000;

/// Taken off where the step took the head further from the apple.
pub const FARTHER_PENALTY: i64 = 30_000;

/// Added where the head ends up near the apple.
pub const NEAR_BONUS: i64 = 20_000;

/// The distance up to which the head counts as near the apple.
pub const NEAR_DISTANCE: u32 = 3;

/// What one step did.
#[derive(Clone, Copy, PartialEq, Eq, Debug, Structural)]
pub struct Outcome {
    /// The step ended the episode.
    pub died: bool,
    /// Why, if it did.
    pub cause: DeathCause,
    /// The step ate the apple.
    pub ate: bool,
    /// Length of the body after the step.
    pub length: u32,
    /// Moves between head and apple before the step.
    pub distance_before: u32,
    /// Moves between head and apple after the step.
    pub distance_after: u32,
}

/// The reward of a death.
pub open spec fn death_reward(cause: DeathCause) -> int {
    match cause {
        DeathCause::SelfCollision => REWARD_SELF_COLLISION as int,
        DeathCause::Wall => REWARD_WALL as int,
        DeathCause::Unclassified => REWARD_DEATH as int,
    }
}

/// The shaping of a step that neither eats nor dies.
pub open spec fn shaping(distance_before: int, distance_after: int) -> int {
    (if distance_after < distance_before {
        CLOSER_BONUS as int
    } else if distance_after > distance_before {
        -(FARTHER_PENALTY as int)
    } else {
        0
    }) + (if distance_after <= NEAR_DISTANCE {
        NEAR_BONUS as int
    } else {
        0
    })
}

/// The reward of an outcome.
pub open spec fn spec_reward(o: Outcome) -> int {
    if o.died {
        death_reward(o.cause)
    } else if o.ate {
        REWARD_APPLE + o.length * REWARD_PER_SEGMENT
    } else {
        STEP_COST + shaping(o.distance_before as int, o.distance_after as int)
    }
}

/// The reward of an outcome.
pub fn reward(o: &Outcome) -> (r: i64)
    ensures
        r == spec_reward(*o),
{
    if o.died {
        match o.cause {
            DeathCause::SelfCollision => REWARD_SELF_COLLISION,
            DeathCause::Wall => REWARD_WALL,
            DeathCause::Unclassified => REWARD_DEATH,
        }
    } else if o.ate {
        REWARD_APPLE + (o.length as i64) * REWARD_PER_SEGMENT
    } else {
        let mut r = STEP_COST;
        if o.distance_after < o.distance_before {
            r += CLOSER_BONUS;
        } else if o.distance_after > o.distance_before {
            r -= FARTHER_PENALTY;
        }
        if o.distance_after <= NEAR_DISTANCE {
            r += NEAR_BONUS;
        }
        r
    }
}

/// The rewards keep their order: a collision with the body costs more than
/// a wall, a wall more than a death of unknown cause, and every death more
/// than any step survived; eating pays more than a thousand times what a
/// step costs, and more than a hundred times what shaping can add.
pub proof fn lemma_reward_order(survived: Outcome, eaten: Outcome, plain: Outcome)
    requires
        !survived.died,
        !eaten.died && eaten.ate,
        !plain.died && !plain.ate,
    ensures
        death_reward(DeathCause::SelfCollision) < death_reward(DeathCause::Wall),
        death_reward(DeathCause::Wall) < death_reward(DeathCause::Unclassified),
        death_reward(DeathCause::Unclassified) < spec_reward(survived),
        spec_reward(eaten) >= 1000 * -STEP_COST,
        spec_reward(eaten) >= 100 * (CLOSER_BONUS + NEAR_BONUS),
        spec_reward(plain) < spec_reward(eaten),
        -100_000 < spec_reward(plain) < 100_000,
{
    assert(eaten.length * REWARD_PER_SEGMENT >= 0) by (nonlinear_arith)
        requires
            eaten.length >= 0,
            REWARD_PER_SEGMENT == 100_000,
    ;
    assert(survived.length * REWARD_PER_SEGMENT >= 0) by (nonlinear_arith)
        requires
            survived.length >= 0,
            REWARD_PER_SEGMENT == 100_000,
    ;
}

} // verus!
