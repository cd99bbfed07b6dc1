//! The tabular Q-learning agent: a sparse table of action values, an
//! epsilon-greedy policy and the temporal-difference update.

use crate::fixed::{clamp_value, clamped, scale_by, scaled, lemma_scaled_bounds, Q_LIMIT, SCALE};
use crate::qrow::{QRow, ACTIONS};
use crate::qtable::{
    no_entries, table_clone, table_entries, table_get, table_insert, table_keys, table_new,
};
use crate::random::{draw_below, draw_within};
use ahash::AHashMap;
use rand::rngs::SmallRng;
use vstd::prelude::*;

verus! {

/// Exploration probability of a new agent, in parts per million.
pub const START_EPSILON: u32 = 250_000;

/// Floor of the exploration probability.
pub const MIN_EPSILON: u32 = 50_000;

/// Factor by which the exploration probability shrinks after an episode.
pub const EPSILON_DECAY: u32 = 999_200;

/// Learning rate of a new agent.
pub const START_ALPHA: u32 = 300_000;

/// Discount of future values.
pub const GAMMA: u32 = 950_000;

/// Exploration probability after a boost.
pub const BOOST_EPSILON: u32 = 350_000;

/// Learning rate after a boost.
pub const BOOST_ALPHA: u32 = 450_000;

/// What an agent is, as plain mathematical values.
#[verifier::ext_equal]
pub struct Policy {
    /// The rows of the states seen so far.
    pub table: Map<u32, QRow>,
    pub epsilon: int,
    pub min_epsilon: int,
    pub decay: int,
    pub alpha: int,
    pub gamma: int,
    pub steps: nat,
    pub episodes: nat,
    pub color: (u8, u8, u8),
}

/// The exploration probability after one decay: shrunk by the factor
/// `decay`, but not below `floor`.
pub open spec fn decayed_epsilon(epsilon: int, decay: int, floor: int) -> int {
    if scaled(epsilon, decay) >= floor {
        scaled(epsilon, decay)
    } else {
        floor
    }
}

/// The exploration probability after `n` decays.
pub open spec fn decayed_times(epsilon: int, decay: int, floor: int, n: nat) -> int
    decreases n,
{
    if n == 0 {
        epsilon
    } else {
        decayed_epsilon(decayed_times(epsilon, decay, floor, (n - 1) as nat), decay, floor)
    }
}

/// The value that a temporal-difference step aims at: the reward, plus the
/// discounted best value of the next state unless the episode is over.
pub open spec fn td_target(reward: int, gamma: int, next_best: int, done: bool) -> int {
    if done {
        reward
    } else {
        reward + scaled(next_best, gamma)
    }
}

/// The value after a temporal-difference step: moved from `q` towards
/// `target` by the rate `alpha`, and kept within the range of stored values.
pub open spec fn td_update(q: int, alpha: int, target: int) -> int {
    clamped(q + scaled(target - q, alpha), Q_LIMIT as int)
}

/// The action of an epsilon-greedy policy, for a draw `roll` from the parts
/// of a million and a draw `pick` from the actions: `pick` with probability
/// `epsilon`, else the greedy action.
pub open spec fn chosen(row: QRow, epsilon: int, roll: int, pick: int) -> int {
    if roll < epsilon {
        pick
    } else {
        row.greedy()
    }
}

/// A counter one higher, unless it is at its largest value.
pub open spec fn bumped(n: nat) -> nat {
    if n < u64::MAX {
        n + 1
    } else {
        n
    }
}

impl Policy {
    /// The row of state `s`: zeros for a state never seen.
    pub open spec fn row(self, s: u32) -> QRow {
        if self.table.contains_key(s) {
            self.table[s]
        } else {
            QRow::zero()
        }
    }

    /// What holds of every agent: stored values are bounded and the rates
    /// are at most 1.
    pub open spec fn inv(self) -> bool {
        &&& forall|s: u32| self.table.contains_key(s) ==> (#[trigger] self.table[s]).bounded()
        &&& 0 <= self.epsilon <= SCALE
        &&& 0 <= self.min_epsilon <= SCALE
        &&& 0 <= self.decay <= SCALE
        &&& 0 <= self.alpha <= SCALE
        &&& 0 <= self.gamma <= SCALE
        &&& self.steps <= u64::MAX
        &&& self.episodes <= u64::MAX
    }

    /// A new agent with the given color: nothing learned, default rates.
    pub open spec fn fresh(color: (u8, u8, u8)) -> Policy {
        Policy {
            table: no_entries(),
            epsilon: START_EPSILON as int,
            min_epsilon: MIN_EPSILON as int,
            decay: EPSILON_DECAY as int,
            alpha: START_ALPHA as int,
            gamma: GAMMA as int,
            steps: 0,
            episodes: 0,
            color,
        }
    }

    /// This agent with a row for state `s`: zeros, if it had none.
    pub open spec fn touched(self, s: u32) -> Policy {
        Policy { table: self.table.insert(s, self.row(s)), ..self }
    }

    /// This agent after choosing action `a` in state `s` on the draws `roll`
    /// and `pick`: a greedy choice makes sure that the state has a row.
    pub open spec fn after_choice(self, s: u32, roll: int) -> Policy {
        if roll < self.epsilon {
            self
        } else {
            self.touched(s)
        }
    }

    /// The value that `learn` stores for action `a` of state `s`.
    pub open spec fn learned_value(self, s: u32, a: int, reward: int, ns: u32, done: bool) -> int {
        td_update(
            self.row(s).value(a),
            self.alpha,
            td_target(reward, self.gamma, self.row(ns).best(), done),
        )
    }

    /// This agent after learning from one transition.
    pub open spec fn learned(self, s: u32, a: int, reward: int, ns: u32, done: bool) -> Policy {
        Policy {
            table: self.table.insert(
                s,
                self.row(s).with_value(a, self.learned_value(s, a, reward, ns, done) as i64),
            ),
            ..self
        }
    }

    /// This agent with its exploration probability decayed once.
    pub open spec fn decayed(self) -> Policy {
        Policy {
            epsilon: decayed_epsilon(self.epsilon, self.decay, self.min_epsilon),
            ..self
        }
    }

    /// This agent with exploration and learning rate raised to their boost
    /// values.
    pub open spec fn boosted(self) -> Policy {
        Policy { epsilon: BOOST_EPSILON as int, alpha: BOOST_ALPHA as int, ..self }
    }

    /// This agent after one more step has been counted, which ended an
    /// episode if `died`: the end of an episode decays the exploration
    /// probability.
    pub open spec fn counted(self, died: bool) -> Policy {
        if died {
            Policy { steps: bumped(self.steps), episodes: bumped(self.episodes), ..self }.decayed()
        } else {
            Policy { steps: bumped(self.steps), ..self }
        }
    }
}

/// `child` is `parent` after a mutation of spread `sigma`: every stored
/// value has moved by at most `sigma` and is still in range, no state was
/// added or lost, and the exploration probability has decayed once.
pub open spec fn mutated(parent: Policy, child: Policy, sigma: int) -> bool {
    &&& child.table.dom() == parent.table.dom()
    &&& forall|s: u32| #[trigger]
        parent.table.contains_key(s) ==> parent.table[s].near(child.table[s], sigma)
            && child.table[s].bounded()
    &&& child == Policy { table: child.table, ..parent.decayed() }
}

/// A Q-learning agent. Its state is read through `@`.
pub struct QAgent {
    q: AHashMap<u32, QRow>,
    epsilon: u32,
    min_epsilon: u32,
    decay: u32,
    alpha: u32,
    gamma: u32,
    steps: u64,
    episodes: u64,
    color: (u8, u8, u8),
}

impl View for QAgent {
    type V = Policy;

    closed spec fn view(&self) -> Policy {
        Policy {
            table: table_entries(self.q),
            epsilon: self.epsilon as int,
            min_epsilon: self.min_epsilon as int,
            decay: self.decay as int,
            alpha: self.alpha as int,
            gamma: self.gamma as int,
            steps: self.steps as nat,
            episodes: self.episodes as nat,
            color: self.color,
        }
    }
}

/// The action of an epsilon-greedy policy for given draws: `pick` where
/// `roll` falls below `epsilon`, else the greedy action of `row`.
pub fn choose_action(row: &QRow, epsilon: u32, roll: u32, pick: usize) -> (a: usize)
    requires
        pick < ACTIONS,
    ensures
        a == chosen(*row, epsilon as int, roll as int, pick as int),
        a < ACTIONS,
{
    if roll < epsilon {
        pick
    } else {
        row.argmax()
    }
}

/// One decay of an exploration probability.
pub fn decay_once(epsilon: u32, decay: u32, floor: u32) -> (r: u32)
    requires
        epsilon <= SCALE,
        decay <= SCALE,
        floor <= SCALE,
    ensures
        r == decayed_epsilon(epsilon as int, decay as int, floor as int),
        floor <= r <= SCALE,
{
    proof {
        lemma_scaled_bounds(epsilon as int, decay as int);
    }
    let shrunk = scale_by(epsilon as i128, decay);
    if shrunk >= floor as i128 {
        shrunk as u32
    } else {
        floor
    }
}

impl QAgent {
    /// The agent is in a state that it can act and learn in.
    pub open spec fn wf(&self) -> bool {
        self@.inv()
    }

    /// A new agent with the default color.
    pub fn new() -> (agent: QAgent)
        ensures
            agent.wf(),
            agent@ == Policy::fresh((100u8, 220u8, 100u8)),
    {
        QAgent {
            q: table_new(),
            epsilon: START_EPSILON,
            min_epsilon: MIN_EPSILON,
            decay: EPSILON_DECAY,
            alpha: START_ALPHA,
            gamma: GAMMA,
            steps: 0,
            episodes: 0,
            color: (100, 220, 100),
        }
    }

    /// A new agent with the given color.
    pub fn new_with_color(r: u8, g: u8, b: u8) -> (agent: QAgent)
        ensures
            agent.wf(),
            agent@ == Policy::fresh((r, g, b)),
    {
        let mut agent = QAgent::new();
        agent.color = (r, g, b);
        agent
    }

    /// A copy of this agent, table included.
    pub fn duplicate(&self) -> (copy: QAgent)
        ensures
            copy@ == self@,
    {
        QAgent {
            q: table_clone(&self.q),
            epsilon: self.epsilon,
            min_epsilon: self.min_epsilon,
            decay: self.decay,
            alpha: self.alpha,
            gamma: self.gamma,
            steps: self.steps,
            episodes: self.episodes,
            color: self.color,
        }
    }

    pub fn epsilon(&self) -> (v: u32)
        ensures
            v == self@.epsilon,
    {
        self.epsilon
    }

    pub fn min_epsilon(&self) -> (v: u32)
        ensures
            v == self@.min_epsilon,
    {
        self.min_epsilon
    }

    pub fn decay(&self) -> (v: u32)
        ensures
            v == self@.decay,
    {
        self.decay
    }

    pub fn alpha(&self) -> (v: u32)
        ensures
            v == self@.alpha,
    {
        self.alpha
    }

    pub fn gamma(&self) -> (v: u32)
        ensures
            v == self@.gamma,
    {
        self.gamma
    }

    pub fn steps(&self) -> (v: u64)
        ensures
            v == self@.steps,
    {
        self.steps
    }

    pub fn episodes(&self) -> (v: u64)
        ensures
            v == self@.episodes,
    {
        self.episodes
    }

    pub fn color(&self) -> (c: (u8, u8, u8))
        ensures
            c == self@.color,
    {
        self.color
    }

    /// Gives the agent another color.
    pub fn set_color(&mut self, color: (u8, u8, u8))
        ensures
            final(self)@ == (Policy { color, ..old(self)@ }),
    {
        self.color = color;
    }

    /// The keys of the states that have a row, each once, in no particular
    /// order.
    pub fn states(&self) -> (keys: Vec<u32>)
        ensures
            keys@.no_duplicates(),
            keys@.to_set() == self@.table.dom(),
    {
        table_keys(&self.q)
    }

    /// Whether state `s` has a row.
    pub fn has_state(&self, s: u32) -> (b: bool)
        ensures
            b == self@.table.contains_key(s),
    {
        table_get(&self.q, s).is_some()
    }

    /// Stores `row` for state `s`, if its values are within the range of
    /// stored values, and tells whether it did.
    pub fn set_row(&mut self, s: u32, row: QRow) -> (done: bool)
        ensures
            done == row.bounded(),
            done ==> final(self)@ == (Policy {
                table: old(self)@.table.insert(s, row),
                ..old(self)@
            }),
            !done ==> final(self)@ == old(self)@,
            old(self).wf() ==> final(self).wf(),
    {
        if row.left < -Q_LIMIT || row.left > Q_LIMIT || row.straight < -Q_LIMIT || row.straight
            > Q_LIMIT || row.right < -Q_LIMIT || row.right > Q_LIMIT {
            return false;
        }
        table_insert(&mut self.q, s, row);
        true
    }

    /// Sets the exploration probability, its floor and decay factor, the
    /// learning rate and the discount, all in parts per million, if none of
    /// them is above 1, and tells whether it did.
    pub fn set_rates(&mut self, epsilon: u32, min_epsilon: u32, decay: u32, alpha: u32, gamma: u32)
        -> (done: bool)
        ensures
            done == (epsilon <= SCALE && min_epsilon <= SCALE && decay <= SCALE && alpha <= SCALE
                && gamma <= SCALE),
            done ==> final(self)@ == (Policy {
                epsilon: epsilon as int,
                min_epsilon: min_epsilon as int,
                decay: decay as int,
                alpha: alpha as int,
                gamma: gamma as int,
                ..old(self)@
            }),
            !done ==> final(self)@ == old(self)@,
            old(self).wf() ==> final(self).wf(),
    {
        if epsilon > 1_000_000 || min_epsilon > 1_000_000 || decay > 1_000_000 || alpha
            > 1_000_000 || gamma > 1_000_000 {
            return false;
        }
        self.epsilon = epsilon;
        self.min_epsilon = min_epsilon;
        self.decay = decay;
        self.alpha = alpha;
        self.gamma = gamma;
        assert(self@.table == old(self)@.table);
        true
    }

    /// Sets the counts of steps and episodes.
    pub fn set_counters(&mut self, steps: u64, episodes: u64)
        ensures
            final(self)@ == (Policy {
                steps: steps as nat,
                episodes: episodes as nat,
                ..old(self)@
            }),
            old(self).wf() ==> final(self).wf(),
    {
        self.steps = steps;
        self.episodes = episodes;
        assert(self@.table == old(self)@.table);
    }

    /// The action values of state `s`; zeros for a state never seen. The
    /// table is left as it is.
    pub fn q_values(&self, s: u32) -> (row: QRow)
        ensures
            row == self@.row(s),
    {
        match table_get(&self.q, s) {
            Some(row) => row,
            None => QRow::zeros(),
        }
    }

    /// The action values of state `s`, after giving the state a row of zeros
    /// if it had none.
    pub fn get_qs(&mut self, s: u32) -> (row: QRow)
        ensures
            row == old(self)@.row(s),
            final(self)@ == old(self)@.touched(s),
            old(self).wf() ==> final(self).wf(),
    {
        let row = self.q_values(s);
        table_insert(&mut self.q, s, row);
        row
    }

    /// Chooses an action in state `s`: with probability epsilon one of the
    /// three actions at random, else the action of the largest value, the
    /// first such among equals.
    pub fn select_action(&mut self, s: u32, rng: &mut SmallRng) -> (a: usize)
        requires
            old(self).wf(),
        ensures
            final(self).wf(),
            a < ACTIONS,
            exists|roll: int, pick: int|
                0 <= roll < SCALE && 0 <= pick < 3 && a == #[trigger] chosen(
                    old(self)@.row(s),
                    old(self)@.epsilon,
                    roll,
                    pick,
                ) && final(self)@ == old(self)@.after_choice(s, roll),
    {
        let roll = draw_below(rng, 1_000_000);
        if roll < self.epsilon {
            let pick = draw_below(rng, 3) as usize;
            assert(pick == chosen(old(self)@.row(s), old(self)@.epsilon, roll as int, pick as int));
            pick
        } else {
            let row = self.get_qs(s);
            let a = row.argmax();
            assert(a == chosen(old(self)@.row(s), old(self)@.epsilon, roll as int, 0));
            a
        }
    }

    /// Learns from one transition: in state `s` action `a` earned `reward`
    /// and led to state `ns`, where the episode ended if `done`. The value
    /// of `a` in `s` moves towards the reward plus the discounted best value
    /// of `ns` (towards the reward alone if `done`), by the learning rate.
    pub fn learn(&mut self, s: u32, a: usize, reward: i64, ns: u32, done: bool)
        requires
            old(self).wf(),
            a < ACTIONS,
        ensures
            final(self).wf(),
            final(self)@ == old(self)@.learned(s, a as int, reward as int, ns, done),
    {
        let next_best: i64 = if done {
            0
        } else {
            self.q_values(ns).max_value()
        };
        proof {
            lemma_scaled_bounds(next_best as int, self.gamma as int);
            if !done && self@.table.contains_key(ns) {
                assert(self@.table[ns].bounded());
            }
            if self@.table.contains_key(s) {
                assert(self@.table[s].bounded());
            }
        }
        let mut row = self.q_values(s);
        let q = row.get(a);
        let target: i128 = if done {
            reward as i128
        } else {
            reward as i128 + scale_by(next_best as i128, self.gamma)
        };
        proof {
            lemma_scaled_bounds(target - q, self.alpha as int);
        }
        let stepped = q as i128 + scale_by(target - q as i128, self.alpha);
        let updated = clamp_value(stepped);
        row.set(a, updated);
        table_insert(&mut self.q, s, row);
        proof {
            assert(final(self)@.table =~= old(self)@.learned(
                s,
                a as int,
                reward as int,
                ns,
                done,
            ).table);
        }
    }

    /// Raises exploration and learning rate to their boost values, to bring
    /// a settled policy back to trying things out.
    pub fn boost_exploration(&mut self)
        ensures
            final(self)@ == old(self)@.boosted(),
            old(self).wf() ==> final(self).wf(),
    {
        self.epsilon = BOOST_EPSILON;
        self.alpha = BOOST_ALPHA;
        assert(self@.table == old(self)@.table);
    }

    /// Decays the exploration probability once: it shrinks by the decay
    /// factor, but not below its floor.
    pub fn decay_epsilon(&mut self)
        requires
            old(self).wf(),
        ensures
            final(self).wf(),
            final(self)@ == old(self)@.decayed(),
    {
        self.epsilon = decay_once(self.epsilon, self.decay, self.min_epsilon);
        assert(self@.table == old(self)@.table);
    }

    /// Counts one step, and one episode if the step ended it; the end of an
    /// episode decays the exploration probability. The counters stop at
    /// their largest value.
    pub fn note_step(&mut self, died: bool)
        requires
            old(self).wf(),
        ensures
            final(self).wf(),
            final(self)@ == old(self)@.counted(died),
    {
        if self.steps < u64::MAX {
            self.steps += 1;
        }
        if died {
            if self.episodes < u64::MAX {
                self.episodes += 1;
            }
            assert(self@.table == old(self)@.table);
            self.decay_epsilon();
        }
        assert(self@.table == old(self)@.table);
    }
}

/// A value moved by a random amount of at most `sigma` and kept in range.
fn jitter(v: i64, sigma: u32, rng: &mut SmallRng) -> (r: i64)
    requires
        -Q_LIMIT <= v <= Q_LIMIT,
    ensures
        exists|noise: int|
            -(sigma as int) <= noise <= sigma as int && r == #[trigger] jittered(v as int, noise),
        -Q_LIMIT <= r <= Q_LIMIT,
        -(sigma as int) <= r - v <= sigma as int,
{
    let noise = draw_within(rng, sigma);
    let r = clamp_value(v as i128 + noise as i128);
    assert(r == jittered(v as int, noise as int));
    r
}

/// The value `v` with the amount `noise` added, cut back to the range of
/// stored values.
pub open spec fn jittered(v: int, noise: int) -> int {
    clamped(v + noise, Q_LIMIT as int)
}

/// What a value in range can become by an amount of at most `sigma` added
/// and the sum cut back to the range: any value in range that is at most
/// `sigma` away, and no other.
pub proof fn lemma_jittered_reach(v: int, sigma: int, r: int)
    requires
        -Q_LIMIT <= v <= Q_LIMIT,
        sigma >= 0,
    ensures
        (exists|noise: int| -sigma <= noise <= sigma && r == #[trigger] jittered(v, noise)) <==> (
        -Q_LIMIT <= r <= Q_LIMIT && -sigma <= r - v <= sigma),
{
    if -Q_LIMIT <= r <= Q_LIMIT && -sigma <= r - v <= sigma {
        assert(r == jittered(v, r - v));
    }
}

/// Mutates an agent: adds to every stored action value a random amount
/// between `-sigma` and `sigma`, each drawn on its own, and decays the
/// exploration probability once.
pub fn mutate_qagent(agent: &mut QAgent, rng: &mut SmallRng, sigma: u32)
    requires
        old(agent).wf(),
    ensures
        final(agent).wf(),
        mutated(old(agent)@, final(agent)@, sigma as int),
{
    let keys = table_keys(&agent.q);
    let n = keys.len();
    let mut i: usize = 0;
    while i < n
        invariant
            n == keys@.len(),
            0 <= i <= n,
            keys@.no_duplicates(),
            keys@.to_set() == old(agent)@.table.dom(),
            agent@.table.dom() == old(agent)@.table.dom(),
            old(agent).wf(),
            agent@ == (Policy { table: agent@.table, ..old(agent)@ }),
            forall|j: int|
                0 <= j < i ==> old(agent)@.table[#[trigger] keys@[j]].near(
                    agent@.table[keys@[j]],
                    sigma as int,
                ) && agent@.table[keys@[j]].bounded(),
            forall|j: int|
                i <= j < n ==> agent@.table[#[trigger] keys@[j]] == old(agent)@.table[keys@[j]],
        decreases n - i,
    {
        let key = keys[i];
        assert(keys@.to_set().contains(keys@[i as int]));
        assert(old(agent)@.table.contains_key(key));
        assert(old(agent)@.table[key].bounded());
        let ghost before = agent@.table;
        match table_get(&agent.q, key) {
            Some(row) => {
                let moved = QRow {
                    left: jitter(row.left, sigma, rng),
                    straight: jitter(row.straight, sigma, rng),
                    right: jitter(row.right, sigma, rng),
                };
                table_insert(&mut agent.q, key, moved);
            },
            None => {},
        }
        proof {
            assert(agent@.table.dom() =~= before.dom());
            assert forall|j: int| 0 <= j < n && j != i implies agent@.table[#[trigger] keys@[j]]
                == before[keys@[j]] by {
                assert(keys@[j] != keys@[i as int]);
            }
        }
        i += 1;
    }
    proof {
        assert forall|s: u32| #[trigger] old(agent)@.table.contains_key(s) implies old(
            agent,
        )@.table[s].near(agent@.table[s], sigma as int) && agent@.table[s].bounded() by {
            assert(keys@.to_set().contains(s));
            let j = choose|j: int| 0 <= j < keys@.len() && keys@[j] == s;
            assert(old(agent)@.table[keys@[j]].near(agent@.table[keys@[j]], sigma as int));
        }
    }
    let ghost table = agent@.table;
    agent.decay_epsilon();
    assert(agent@.table == table);
}

impl Clone for QAgent {
    fn clone(&self) -> (copy: Self)
        ensures
            copy@ == self@,
    {
        self.duplicate()
    }
}

/// Decay never takes the exploration probability below its floor: after one
/// decay or more it is at least the floor, and it stays at or above the
/// floor if it started there.
pub proof fn lemma_decay_floor(epsilon: int, decay: int, floor: int, n: nat)
    ensures
        n >= 1 ==> decayed_times(epsilon, decay, floor, n) >= floor,
        epsilon >= floor ==> decayed_times(epsilon, decay, floor, n) >= floor,
    decreases n,
{
    if n > 0 {
        lemma_decay_floor(epsilon, decay, floor, (n - 1) as nat);
    }
}

/// With a factor of at most 1, decay never raises an exploration
/// probability that is at or above its floor.
pub proof fn lemma_decay_shrinks(epsilon: int, decay: int, floor: int, n: nat)
    requires
        0 <= decay <= SCALE,
        0 <= floor <= epsilon,
    ensures
        floor <= decayed_times(epsilon, decay, floor, n) <= epsilon,
    decreases n,
{
    if n > 0 {
        lemma_decay_shrinks(epsilon, decay, floor, (n - 1) as nat);
        lemma_scaled_bounds(decayed_times(epsilon, decay, floor, (n - 1) as nat), decay);
    }
}

/// A temporal-difference step moves a value towards its target and not
/// beyond it, as long as the target is within the range of stored values;
/// with the rate 1 it reaches the target, with the rate 0 it stays.
pub proof fn lemma_td_update_between(q: int, alpha: int, target: int)
    requires
        0 <= alpha <= SCALE,
        -Q_LIMIT <= q <= Q_LIMIT,
        -Q_LIMIT <= target <= Q_LIMIT,
    ensures
        q <= target ==> q <= td_update(q, alpha, target) <= target,
        target <= q ==> target <= td_update(q, alpha, target) <= q,
        td_update(q, SCALE as int, target) == target,
        td_update(q, 0, target) == q,
{
    lemma_scaled_bounds(target - q, alpha);
    let d = target - q;
    let m = if d >= 0 {
        d
    } else {
        -d
    };
    assert((m * SCALE) / (SCALE as int) == m && (m * 0) / (SCALE as int) == 0) by (nonlinear_arith)
        requires
            SCALE == 1_000_000,
    ;
}

/// Once the episode is over, what the table holds for the next state plays
/// no part in what is learned.
pub proof fn lemma_done_ignores_next(p: Policy, s: u32, a: int, reward: int, ns: u32, other: u32)
    ensures
        p.learned(s, a, reward, ns, true) == p.learned(s, a, reward, other, true),
        p.learned_value(s, a, reward, ns, true) == td_update(p.row(s).value(a), p.alpha, reward),
{
}

} // verus!
