//! The decisions of the host's loop: how fast to run, how much work to do
//! in a tick, how often to draw.

use vstd::prelude::*;

verus! {

/// The most simulation steps per frame that the speed control reaches.
pub const MAX_STEPS_PER_FRAME: u32 = 100_000;

/// Steps per tick in the ordinary mode.
pub const STEPS_PER_TICK: u32 = 1500;

/// Steps per tick in the ultra-fast mode.
pub const STEPS_PER_TICK_ULTRA: u32 = 50_000;

/// Steps per tick with acceleration enabled.
pub const STEPS_PER_TICK_ACCELERATED: u32 = 80_000;

/// Milliseconds per tick of a manual game at score 0.
pub const BASE_TICK_MILLIS: i32 = 150;

/// Doubling the steps per frame, up to the maximum.
pub open spec fn spec_faster(steps: int) -> int {
    if 2 * steps >= MAX_STEPS_PER_FRAME {
        MAX_STEPS_PER_FRAME as int
    } else {
        2 * steps
    }
}

/// Halving the steps per frame, down to 1.
pub open spec fn spec_slower(steps: int) -> int {
    if steps / 2 >= 1 {
        steps / 2
    } else {
        1
    }
}

/// The steps per frame after a request to speed up: doubled, but at most
/// the maximum.
pub fn faster(steps_per_frame: u32) -> (r: u32)
    ensures
        r == spec_faster(steps_per_frame as int),
{
    if steps_per_frame >= MAX_STEPS_PER_FRAME / 2 {
        MAX_STEPS_PER_FRAME
    } else {
        steps_per_frame * 2
    }
}

/// The steps per frame after a request to slow down: halved, but at least
/// 1.
pub fn slower(steps_per_frame: u32) -> (r: u32)
    ensures
        r == spec_slower(steps_per_frame as int),
{
    if steps_per_frame / 2 >= 1 {
        steps_per_frame / 2
    } else {
        1
    }
}

/// The manual speed offset after a request to speed up or slow down a
/// manual game: ten milliseconds less or more per tick, within -150 and
/// 300.
pub fn nudge_speed(delta_ms: i32, speed_up: bool) -> (r: i32)
    requires
        -150 <= delta_ms <= 300,
    ensures
        speed_up ==> r == if delta_ms - 10 < -150 {
            -150
        } else {
            delta_ms - 10
        },
        !speed_up ==> r == if delta_ms + 10 > 300 {
            300
        } else {
            delta_ms + 10
        },
        -150 <= r <= 300,
{
    if speed_up {
        if delta_ms - 10 < -150 {
            -150
        } else {
            delta_ms - 10
        }
    } else if delta_ms + 10 > 300 {
        300
    } else {
        delta_ms + 10
    }
}

/// Milliseconds per tick of a manual game.
pub open spec fn spec_tick_millis(score: int, delta_ms: int) -> int {
    let capped = if score < 30 {
        score
    } else {
        30
    };
    let total = BASE_TICK_MILLIS - capped * 4 + delta_ms;
    if total < 30 {
        30
    } else if total > 500 {
        500
    } else {
        total
    }
}

/// Milliseconds per tick of a manual game: the game speeds up by four
/// milliseconds with each point up to 30 points, the manual offset is
/// added, and the result is kept between 30 and 500.
pub fn tick_millis(score: usize, delta_ms: i32) -> (r: u64)
    requires
        -150 <= delta_ms <= 300,
    ensures
        r == spec_tick_millis(score as int, delta_ms as int),
        30 <= r <= 500,
{
    let capped: i32 = if score < 30 {
        score as i32
    } else {
        30
    };
    let total = BASE_TICK_MILLIS - capped * 4 + delta_ms;
    if total < 30 {
        30
    } else if total > 500 {
        500
    } else {
        total as u64
    }
}

/// The most steps that one tick may run.
pub fn steps_per_tick(accelerated: bool, ultra_fast: bool) -> (r: u32)
    ensures
        r == if accelerated {
            STEPS_PER_TICK_ACCELERATED
        } else if ultra_fast {
            STEPS_PER_TICK_ULTRA
        } else {
            STEPS_PER_TICK
        },
{
    if accelerated {
        STEPS_PER_TICK_ACCELERATED
    } else if ultra_fast {
        STEPS_PER_TICK_ULTRA
    } else {
        STEPS_PER_TICK
    }
}

/// The work that is due and the part of it that a tick runs.
#[derive(Clone, Copy, PartialEq, Eq, Debug, Structural)]
pub struct Budget {
    /// Steps that are due, this tick's included.
    pub pending: u32,
    /// Steps that this tick runs.
    pub to_run: u32,
}

/// The budget of a tick: the steps per frame, at least 1, are added to what
/// is still due, and the tick runs what is due, up to its cap.
pub fn plan_tick(pending: u32, steps_per_frame: u32, cap: u32) -> (b: Budget)
    ensures
        b.pending == if pending + (if steps_per_frame >= 1 {
            steps_per_frame
        } else {
            1
        }) > u32::MAX {
            u32::MAX
        } else {
            (pending + (if steps_per_frame >= 1 {
                steps_per_frame
            } else {
                1
            })) as u32
        },
        b.to_run == if b.pending <= cap {
            b.pending
        } else {
            cap
        },
{
    let due = if steps_per_frame >= 1 {
        steps_per_frame
    } else {
        1
    };
    let total = if pending > u32::MAX - due {
        u32::MAX
    } else {
        pending + due
    };
    Budget {
        pending: total,
        to_run: if total <= cap {
            total
        } else {
            cap
        },
    }
}

/// The steps still due after a tick ran `ran` steps: none if the epoch
/// ended, else what was due less what was run.
pub fn settle_tick(pending: u32, ran: u32, epoch_ended: bool) -> (r: u32)
    ensures
        r == if epoch_ended || ran >= pending {
            0
        } else {
            (pending - ran) as u32
        },
{
    if epoch_ended || ran >= pending {
        0
    } else {
        pending - ran
    }
}

/// How many loop iterations pass between two redraws: the faster the
/// training runs, the fewer frames are drawn.
pub fn frames_to_skip(ultra_fast: bool, steps_per_frame: u32) -> (r: u32)
    ensures
        r == if ultra_fast {
            8u32
        } else if steps_per_frame >= 65_536 {
            20u32
        } else if steps_per_frame >= 40_000 {
            12u32
        } else if steps_per_frame >= 20_000 {
            6u32
        } else if steps_per_frame >= 8_192 {
            3u32
        } else if steps_per_frame >= 4_096 {
            2u32
        } else {
            1u32
        },
{
    if ultra_fast {
        8
    } else if steps_per_frame >= 65_536 {
        20
    } else if steps_per_frame >= 40_000 {
        12
    } else if steps_per_frame >= 20_000 {
        6
    } else if steps_per_frame >= 8_192 {
        3
    } else if steps_per_frame >= 4_096 {
        2
    } else {
        1
    }
}

/// Speeding up and slowing down keep the steps per frame between 1 and the
/// maximum, and slowing down undoes a speed-up that did not hit the
/// maximum.
pub proof fn lemma_speed_range(steps: int)
    requires
        1 <= steps <= MAX_STEPS_PER_FRAME,
    ensures
        1 <= spec_faster(steps) <= MAX_STEPS_PER_FRAME,
        1 <= spec_slower(steps) <= MAX_STEPS_PER_FRAME,
        2 * steps < MAX_STEPS_PER_FRAME ==> spec_slower(spec_faster(steps)) == steps,
{
}

} // verus!
