//! One simulated step of an agent in its game, and of a whole population.
//!
//! Each agent owns its game and its score. A step of one agent touches
//! nothing of another, so the agents of a population may be stepped in any
//! order, or side by side.

use crate::agent::{chosen, Policy, QAgent};
use crate::encoder::{apple_distance, spec_state_key, state_key};
use crate::game::Game;
use crate::grid::dir_after_action;
use crate::qrow::ACTIONS;
use crate::reward::{reward, spec_reward, Outcome};
use crate::fixed::SCALE;
use crate::world::{lemma_free_cells, World};
use rand::rngs::SmallRng;
use vstd::prelude::*;

verus! {

/// What a policy needs to learn from one step.
#[derive(Clone, Copy, PartialEq, Eq, Debug, Structural)]
pub struct Transition {
    /// The state key before the step.
    pub state: u32,
    /// The action taken.
    pub action: usize,
    /// The reward earned.
    pub reward: i64,
    /// The state key after the step.
    pub next_state: u32,
    /// Whether the episode is over.
    pub done: bool,
    /// What the step did.
    pub outcome: Outcome,
}

/// What a tick did that took the world `pre` to `post` and ate or did not.
pub open spec fn outcome_of(pre: World, post: World, ate: bool) -> Outcome {
    Outcome {
        died: pre.alive && !post.alive,
        cause: post.last_death,
        ate,
        length: post.snake.len() as u32,
        distance_before: apple_distance(pre) as u32,
        distance_after: apple_distance(post) as u32,
    }
}

/// The transition of the tick that took `pre`, already turned by the
/// action, to `post`.
pub open spec fn transition_of(state: u32, action: usize, pre: World, post: World, ate: bool)
    -> Transition {
    Transition {
        state,
        action,
        reward: spec_reward(outcome_of(pre, post, ate)) as i64,
        next_state: spec_state_key(post) as u32,
        done: !post.alive,
        outcome: outcome_of(pre, post, ate),
    }
}

/// The number of moves between the head and the apple of a game.
pub fn apple_distance_of(game: &Game) -> (d: u32)
    requires
        game.wf(),
    ensures
        d == apple_distance(game@),
        d <= 0x1_FFFE,
{
    let head = game.head();
    let apple = game.apple();
    assert(game@.in_grid(game@.snake[0]));
    let dx: i32 = apple.x - head.x;
    let dy: i32 = apple.y - head.y;
    let ax: i32 = if dx < 0 {
        -dx
    } else {
        dx
    };
    let ay: i32 = if dy < 0 {
        -dy
    } else {
        dy
    };
    (ax + ay) as u32
}

/// Applies an action to a game, whatever policy chose it, and reports the
/// transition: the heading turns as the action says (0 left, 1 straight,
/// otherwise right), the game advances one tick, and the outcome is rated.
pub fn advance(game: &mut Game, action: usize, rng: &mut SmallRng) -> (t: Transition)
    requires
        old(game).wf(),
    ensures
        final(game).wf(),
        exists|ate: bool| #[trigger]
            old(game)@.turned(old(game)@.dir.after_action(action as int)).stepped(
                final(game)@,
                ate,
            ) && t == transition_of(
                spec_state_key(old(game)@) as u32,
                action,
                old(game)@.turned(old(game)@.dir.after_action(action as int)),
                final(game)@,
                ate,
            ),
{
    let state = state_key(game);
    game.change_dir(dir_after_action(game.dir(), action));
    let ghost turned = game@;
    let was_alive = game.is_alive();
    let distance_before = apple_distance_of(game);
    let ate = game.step(rng);
    let died = was_alive && !game.is_alive();
    let distance_after = apple_distance_of(game);
    proof {
        lemma_free_cells(game@);
        assert(game@.cells() <= 0xFFFF * 0xFFFF) by (nonlinear_arith)
            requires
                game@.cells() == game@.width * game@.height,
                1 <= game@.width <= 0xFFFF,
                1 <= game@.height <= 0xFFFF,
        ;
    }
    let outcome = Outcome {
        died,
        cause: game.last_death(),
        ate,
        length: game.snake_len() as u32,
        distance_before,
        distance_after,
    };
    let t = Transition {
        state,
        action,
        reward: reward(&outcome),
        next_state: state_key(game),
        done: !game.is_alive(),
        outcome,
    };
    assert(turned.stepped(game@, ate) && t == transition_of(
        spec_state_key(old(game)@) as u32,
        action,
        turned,
        game@,
        ate,
    ));
    t
}

/// Whether a lane takes part in a step: its game is alive and its score is
/// below the target.
pub open spec fn lane_active(game: World, score: usize, target: usize) -> bool {
    game.alive && score < target
}

/// The lane `(agent, game, score)` after a step on the draws `roll` and
/// `pick`, in which the game ate or did not.
///
/// The agent chooses an action for the game's state key, the heading turns,
/// the game advances one tick, the agent learns from the transition and
/// counts the step, and the score follows the game's as long as the game is
/// alive.
pub open spec fn lane_stepped_on(
    agent: Policy,
    game: World,
    score: usize,
    agent2: Policy,
    game2: World,
    score2: usize,
    roll: int,
    pick: int,
    ate: bool,
) -> bool {
    let s = spec_state_key(game) as u32;
    let a = chosen(agent.row(s), agent.epsilon, roll, pick);
    let turned = game.turned(game.dir.after_action(a));
    let t = transition_of(s, a as usize, turned, game2, ate);
    &&& 0 <= roll < SCALE
    &&& 0 <= pick < 3
    &&& turned.stepped(game2, ate)
    &&& agent2 == agent.after_choice(s, roll).learned(
        s,
        a,
        t.reward as int,
        t.next_state,
        t.done,
    ).counted(t.outcome.died)
    &&& score2 == if game2.alive {
        game2.score as usize
    } else {
        score
    }
}

/// The lane `(agent, game, score)` after one step towards `target`: as it
/// was if the lane is not active, else stepped on some draws.
pub open spec fn lane_stepped(
    agent: Policy,
    game: World,
    score: usize,
    agent2: Policy,
    game2: World,
    score2: usize,
    target: usize,
) -> bool {
    if lane_active(game, score, target) {
        exists|roll: int, pick: int, ate: bool| #[trigger]
            lane_stepped_on(agent, game, score, agent2, game2, score2, roll, pick, ate)
    } else {
        agent2 == agent && game2 == game && score2 == score
    }
}

/// Whether a step brought a lane to the target.
pub open spec fn lane_solved(game: World, score: usize, game2: World, target: usize) -> bool {
    lane_active(game, score, target) && game2.score >= target
}

/// Steps one agent in its game: if the game is alive and the score below
/// `target`, the agent chooses an action for the game's state, the game
/// advances, the agent learns from what happened, and the score is brought
/// up to date. Tells whether the game has reached the target.
pub fn step_agent(
    agent: &mut QAgent,
    game: &mut Game,
    score: &mut usize,
    target: usize,
    rng: &mut SmallRng,
) -> (solved: bool)
    requires
        old(agent).wf(),
        old(game).wf(),
    ensures
        final(agent).wf(),
        final(game).wf(),
        lane_stepped(
            old(agent)@,
            old(game)@,
            *old(score),
            final(agent)@,
            final(game)@,
            *final(score),
            target,
        ),
        solved == lane_solved(old(game)@, *old(score), final(game)@, target),
{
    if !game.is_alive() || *score >= target {
        return false;
    }
    let s = state_key(game);
    let a = agent.select_action(s, rng);
    let ghost (roll, pick) = choose|roll: int, pick: int|
        0 <= roll < SCALE && 0 <= pick < 3 && a == #[trigger] chosen(
            old(agent)@.row(s),
            old(agent)@.epsilon,
            roll,
            pick,
        ) && agent@ == old(agent)@.after_choice(s, roll);
    let t = advance(game, a, rng);
    let ghost turned = old(game)@.turned(old(game)@.dir.after_action(a as int));
    let ghost ate = choose|ate: bool| #[trigger]
        turned.stepped(game@, ate) && t == transition_of(s, a, turned, game@, ate);
    agent.learn(s, a, t.reward, t.next_state, t.done);
    agent.note_step(t.outcome.died);
    if game.is_alive() {
        *score = game.score();
    }
    assert(lane_stepped_on(
        old(agent)@,
        old(game)@,
        *old(score),
        agent@,
        game@,
        *score,
        roll,
        pick,
        ate,
    ));
    game.score() >= target
}

/// The lane `(game, score)` after a step with an action chosen outside:
/// as it was if the lane is not active, else turned by the action and
/// advanced one tick, with the score following the game's as long as the
/// game is alive. `t` is the transition, if a step was taken.
pub open spec fn game_stepped(
    game: World,
    score: usize,
    game2: World,
    score2: usize,
    target: usize,
    action: usize,
    t: Option<Transition>,
) -> bool {
    if lane_active(game, score, target) {
        let turned = game.turned(game.dir.after_action(action as int));
        &&& exists|ate: bool| #[trigger]
            turned.stepped(game2, ate) && t == Some(
                transition_of(spec_state_key(game) as u32, action, turned, game2, ate),
            )
        &&& score2 == if game2.alive {
            game2.score as usize
        } else {
            score
        }
    } else {
        game2 == game && score2 == score && t is None
    }
}

/// Steps a game with an action that some other policy chose: if the game
/// is alive and the score below `target`, the action is applied, the game
/// advances, and the score is brought up to date. Returns the transition
/// for that policy to learn from, or `None` if no step was taken.
pub fn step_game(
    game: &mut Game,
    score: &mut usize,
    target: usize,
    action: usize,
    rng: &mut SmallRng,
) -> (t: Option<Transition>)
    requires
        old(game).wf(),
    ensures
        final(game).wf(),
        game_stepped(old(game)@, *old(score), final(game)@, *final(score), target, action, t),
{
    if !game.is_alive() || *score >= target {
        return None;
    }
    let t = advance(game, action, rng);
    if game.is_alive() {
        *score = game.score();
    }
    Some(t)
}

/// The place of a state key in a table of `vocab` entries: the key modulo
/// the table's size.
pub fn state_index(state: u32, vocab: usize) -> (i: usize)
    requires
        vocab > 0,
    ensures
        i == (state as int) % (vocab as int),
        i < vocab,
{
    if vocab > u32::MAX as usize {
        assert((state as int) % (vocab as int) == state as int) by (nonlinear_arith)
            requires
                0 <= state as int,
                (state as int) < vocab as int,
        ;
        state as usize
    } else {
        (state % (vocab as u32)) as usize
    }
}

/// An index cut back to the last of `actions` actions; 0 where there is no
/// action.
pub fn clamp_action(best: usize, actions: usize) -> (a: usize)
    ensures
        a == if actions == 0 {
            0
        } else if best < actions {
            best
        } else {
            (actions - 1) as usize
        },
{
    if actions == 0 {
        0
    } else if best < actions {
        best
    } else {
        actions - 1
    }
}

/// The action for a step where another policy was asked first: its answer,
/// cut back to the three actions, or, where it gave none, the choice of the
/// tabular agent.
pub fn backend_or_tabular(
    answer: Option<usize>,
    agent: &mut QAgent,
    state: u32,
    rng: &mut SmallRng,
) -> (a: usize)
    requires
        old(agent).wf(),
    ensures
        final(agent).wf(),
        a < ACTIONS,
        answer matches Some(b) ==> final(agent)@ == old(agent)@ && a == if b < ACTIONS {
            b
        } else {
            (ACTIONS - 1) as usize
        },
        answer is None ==> exists|roll: int, pick: int|
            0 <= roll < SCALE && 0 <= pick < 3 && a == #[trigger] chosen(
                old(agent)@.row(state),
                old(agent)@.epsilon,
                roll,
                pick,
            ) && final(agent)@ == old(agent)@.after_choice(state, roll),
{
    match answer {
        Some(b) => clamp_action(b, ACTIONS),
        None => agent.select_action(state, rng),
    }
}

} // verus!
