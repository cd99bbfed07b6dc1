//! The evolutionary trainer: a population of agents, each with a game and
//! a score, run in epochs.
//!
//! Within an epoch every live agent below the target is stepped once per
//! tick. An epoch ends when all agents are done or the step limit is
//! reached, unless one agent leads alone and is still alive. Between epochs
//! the population is rebuilt: from the champion after a new record or a
//! long stagnation, from the best agents otherwise.

use crate::agent::{Policy, QAgent};
use crate::breed::{breed_family, breed_steady, family_slot, steady_slot, Family};
use crate::color::{generate_population_colors, population_color};
use crate::evolve::{
    best_index, fills, lemma_best_index, top_indices, top_score, Slot, CHAMPION_CHILD_COLOR_RANGE,
    CHILD_SIGMA,
};
use crate::game::{Game, GRID_HEIGHT, GRID_WIDTH, INITIAL_LENGTH};
use crate::sim::{lane_active, lane_solved, lane_stepped, step_agent};
use crate::world::{initial_snake, World};
use rand::rngs::SmallRng;
use vstd::prelude::*;

verus! {

/// Steps of an epoch before it is cut off.
pub const STEP_LIMIT: u32 = 4000;

/// Epochs without a new record before the first restart.
pub const STAGNATION_BASE: usize = 1000;

/// Epochs that each restart adds to the patience before the next one.
pub const STAGNATION_STEP: usize = 500;

/// Restarts after which the ladder of restarts begins again.
pub const MAX_RESTARTS: usize = 5;

/// The score at which the default grid is full.
pub const TARGET_SCORE: usize = 1197;

/// How the champion's family is made up in the restart of a given tier.
/// From tier to tier the family shrinks and its mutation grows; the last
/// tier also boosts the fresh agents.
pub open spec fn tier_family(tier: int, n: int) -> Family {
    if tier == 1 {
        Family {
            size: n as usize,
            sigma: 250_000,
            color_range: 20,
            boost_children: true,
            boost_fresh: false,
        }
    } else if tier == 2 {
        Family {
            size: (n / 2) as usize,
            sigma: 400_000,
            color_range: 30,
            boost_children: true,
            boost_fresh: false,
        }
    } else if tier == 3 {
        Family {
            size: (n * 3 / 10) as usize,
            sigma: 350_000,
            color_range: 40,
            boost_children: true,
            boost_fresh: false,
        }
    } else if tier == 4 {
        Family {
            size: (n / 5) as usize,
            sigma: 600_000,
            color_range: 50,
            boost_children: true,
            boost_fresh: false,
        }
    } else {
        Family {
            size: (n / 10) as usize,
            sigma: 800_000,
            color_range: 60,
            boost_children: true,
            boost_fresh: true,
        }
    }
}

/// How the champion's family is made up after a new record: the whole
/// generation, mildly mutated.
pub open spec fn record_family(n: int) -> Family {
    Family {
        size: n as usize,
        sigma: CHILD_SIGMA,
        color_range: CHAMPION_CHILD_COLOR_RANGE,
        boost_children: false,
        boost_fresh: false,
    }
}

/// A count one higher, unless it is at its largest value.
pub open spec fn next_count(n: nat) -> nat {
    if n < usize::MAX {
        n + 1
    } else {
        n
    }
}

/// Whether agent `i` has scored, and more than every other agent.
pub open spec fn leads_alone(scores: Seq<usize>, i: int) -> bool {
    &&& 0 <= i < scores.len()
    &&& scores[i] > 0
    &&& forall|j: int| 0 <= j < scores.len() && j != i ==> scores[j] < scores[i]
}

/// Whether one agent leads all others in score and is alive.
pub open spec fn sole_leader_alive(scores: Seq<usize>, games: Seq<World>) -> bool {
    exists|i: int| #[trigger] leads_alone(scores, i) && i < games.len() && games[i].alive
}

/// Whether some agent still has work to do: its game is alive and its
/// score below the target.
pub open spec fn some_active(scores: Seq<usize>, games: Seq<World>, target: usize) -> bool {
    exists|i: int|
        0 <= i < scores.len() && i < games.len() && #[trigger] lane_active(
            games[i],
            scores[i],
            target,
        )
}

/// The number of games among the first `n` that are alive.
pub open spec fn count_alive(games: Seq<World>, n: nat) -> nat
    decreases n,
{
    if n == 0 {
        0
    } else {
        count_alive(games, (n - 1) as nat) + if games[n - 1].alive {
            1nat
        } else {
            0nat
        }
    }
}

/// What a trainer is, as plain mathematical values.
#[verifier::ext_equal]
pub struct Trainer {
    pub training: bool,
    pub solved: bool,
    pub pop: Seq<Policy>,
    pub games: Seq<World>,
    pub scores: Seq<usize>,
    pub pop_size: nat,
    pub epoch: nat,
    /// The best score of each epoch so far.
    pub epoch_best: Seq<usize>,
    pub step_limit: nat,
    pub steps_taken: nat,
    pub target_score: nat,
    pub best_score: nat,
    pub champion: Option<Policy>,
    pub champion_score: nat,
    pub champion_epoch: nat,
    /// Epochs since the last record.
    pub stagnation: nat,
    pub restart_count: nat,
    pub wrap_world: bool,
}

impl Trainer {
    /// What holds of every trainer: agents, games and scores are as many as
    /// the population's size says, each of them is in order, there is a
    /// champion exactly if a score above zero was seen, and the restarts
    /// stay on their ladder.
    pub open spec fn inv(self) -> bool {
        &&& self.pop.len() == self.pop_size
        &&& self.games.len() == self.pop_size
        &&& self.scores.len() == self.pop_size
        &&& forall|i: int| 0 <= i < self.pop.len() ==> (#[trigger] self.pop[i]).inv()
        &&& forall|i: int| 0 <= i < self.games.len() ==> (#[trigger] self.games[i]).inv()
        &&& self.champion matches Some(c) ==> c.inv()
        &&& self.champion is Some <==> self.champion_score > 0
        &&& self.restart_count <= MAX_RESTARTS
    }

    /// What holds of a trainer apart from its lanes.
    pub open spec fn inv_but_lanes(self) -> bool {
        &&& self.champion matches Some(c) ==> c.inv()
        &&& self.champion is Some <==> self.champion_score > 0
        &&& self.restart_count <= MAX_RESTARTS
    }

    /// This trainer with its lanes taken out.
    pub open spec fn without_lanes(self) -> Trainer {
        Trainer { pop: Seq::empty(), games: Seq::empty(), scores: Seq::empty(), ..self }
    }

    /// The best score of the epoch that ends.
    pub open spec fn top(self) -> usize {
        top_score(self.scores)
    }

    /// The epoch that ends has set a new record.
    pub open spec fn improved(self) -> bool {
        self.top() > self.champion_score
    }

    /// The champion after the epoch: the best agent if it set a record.
    pub open spec fn champion_after(self) -> Option<Policy> {
        if self.improved() {
            Some(self.pop[best_index(self.scores)])
        } else {
            self.champion
        }
    }

    /// The champion's score after the epoch.
    pub open spec fn champion_score_after(self) -> nat {
        if self.improved() {
            self.top() as nat
        } else {
            self.champion_score
        }
    }

    /// Epochs without a record, the one that ends included.
    pub open spec fn waited(self) -> nat {
        if self.improved() {
            0
        } else {
            next_count(self.stagnation)
        }
    }

    /// Epochs without a record that bring on the next restart; each restart
    /// adds to it.
    pub open spec fn patience(self) -> nat {
        STAGNATION_BASE as nat + self.restart_count * STAGNATION_STEP as nat
    }

    /// The population is restarted from the champion.
    pub open spec fn restarts(self) -> bool {
        self.waited() >= self.patience() && self.champion_after() is Some
    }

    /// The tier of the restart: one above the restarts so far, and the
    /// first again after the last.
    pub open spec fn tier(self) -> nat {
        if self.restart_count >= MAX_RESTARTS {
            1
        } else {
            self.restart_count + 1
        }
    }

    pub open spec fn restart_count_after(self) -> nat {
        if self.restarts() {
            self.tier()
        } else if self.improved() {
            0
        } else {
            self.restart_count
        }
    }

    pub open spec fn stagnation_after(self) -> nat {
        if self.restarts() {
            0
        } else {
            self.waited()
        }
    }

    /// What stands in place `i` of the next generation.
    pub open spec fn next_slot(self, i: int) -> Slot {
        if self.restarts() {
            family_slot(i, self.pop_size as int, tier_family(self.tier() as int, self.pop_size as int))
        } else if self.improved() {
            family_slot(i, self.pop_size as int, record_family(self.pop_size as int))
        } else {
            steady_slot(i, self.pop_size as int)
        }
    }

    /// Every game is at the start of an episode and every score is zero.
    pub open spec fn at_epoch_start(self) -> bool {
        &&& self.steps_taken == 0
        &&& self.games.len() == self.pop_size
        &&& self.scores.len() == self.pop_size
        &&& forall|i: int| 0 <= i < self.pop_size ==> #[trigger] self.scores[i] == 0
        &&& forall|i: int|
            0 <= i < self.pop_size ==> (#[trigger] self.games[i]).inv() && self.games[i].fresh(
                GRID_WIDTH as int,
                GRID_HEIGHT as int,
                self.wrap_world,
                false,
            )
    }

    /// `post` is this trainer with every game started anew and every score
    /// and the step count set to zero.
    pub open spec fn epoch_reset(self, post: Trainer) -> bool {
        &&& post.at_epoch_start()
        &&& post == Trainer {
            games: post.games,
            scores: post.scores,
            steps_taken: 0,
            ..self
        }
    }

    /// `post` is this trainer after the epoch was closed and the next
    /// generation made.
    pub open spec fn reproduced(self, post: Trainer) -> bool {
        &&& post.at_epoch_start()
        &&& post == Trainer {
            pop: post.pop,
            games: post.games,
            scores: post.scores,
            steps_taken: 0,
            epoch: next_count(self.epoch),
            epoch_best: self.epoch_best.push(self.top()),
            best_score: if self.top() > self.best_score {
                self.top() as nat
            } else {
                self.best_score
            },
            champion: self.champion_after(),
            champion_score: self.champion_score_after(),
            champion_epoch: if self.improved() {
                self.epoch
            } else {
                self.champion_epoch
            },
            stagnation: self.stagnation_after(),
            restart_count: self.restart_count_after(),
            ..self
        }
        &&& post.pop.len() == self.pop_size
        &&& forall|i: int|
            0 <= i < self.pop_size ==> fills(
                self.next_slot(i),
                post.champion,
                self.pop,
                self.scores,
                #[trigger] post.pop[i],
            )
    }

    /// `post` is this trainer after every lane took one step.
    pub open spec fn population_stepped(self, post: Trainer) -> bool {
        &&& post == Trainer { pop: post.pop, games: post.games, scores: post.scores, ..self }
        &&& post.pop.len() == self.pop.len()
        &&& post.games.len() == self.games.len()
        &&& post.scores.len() == self.scores.len()
        &&& forall|i: int|
            0 <= i < self.pop_size ==> lane_stepped(
                self.pop[i],
                self.games[i],
                self.scores[i],
                #[trigger] post.pop[i],
                post.games[i],
                post.scores[i],
                self.target_score as usize,
            )
    }

    /// Some lane reached the target in the step from this trainer to `post`.
    pub open spec fn some_solved(self, post: Trainer) -> bool {
        exists|i: int|
            0 <= i < self.pop_size && #[trigger] lane_solved(
                self.games[i],
                self.scores[i],
                post.games[i],
                self.target_score as usize,
            )
    }

    /// This trainer after a step was counted in which some lane reached the
    /// target or none did: reaching the target ends the training.
    pub open spec fn step_counted(self, any_solved: bool) -> Trainer {
        Trainer {
            steps_taken: if self.steps_taken < u32::MAX {
                self.steps_taken + 1
            } else {
                self.steps_taken
            },
            solved: self.solved || any_solved,
            training: self.training && !any_solved,
            ..self
        }
    }

    /// `post` is this trainer one tick later, and `ended` tells whether the
    /// tick closed the epoch. A trainer that is not training stays as it is.
    /// Otherwise every lane takes a step, the step is counted, and if the
    /// epoch is over the next generation is made.
    pub open spec fn ticked(self, post: Trainer, ended: bool) -> bool {
        if !self.training {
            post == self && !ended
        } else {
            exists|mid: Trainer| #[trigger]
                self.population_stepped(mid) && ended == mid.epoch_over(self.some_solved(mid))
                    && if ended {
                    mid.step_counted(self.some_solved(mid)).reproduced(post)
                } else {
                    post == mid.step_counted(self.some_solved(mid))
                }
        }
    }

    /// The epoch ends after a step in which some lane reached the target or
    /// none did: when that happened, when no lane has work left, or when the
    /// step limit is reached and no agent leads alone and alive.
    pub open spec fn epoch_over(self, any_solved: bool) -> bool {
        ||| any_solved
        ||| !some_active(self.scores, self.games, self.target_score as usize)
        ||| (self.step_counted(any_solved).steps_taken >= self.step_limit && !sole_leader_alive(
            self.scores,
            self.games,
        ))
    }
}

/// A place for the champion or a child of it is filled without regard to
/// the old population, and a place for an elite, a child of elites or a
/// fresh agent without regard to the champion.
pub proof fn lemma_fills_ignores(
    slot: Slot,
    champion: Option<Policy>,
    pop: Seq<Policy>,
    scores: Seq<usize>,
    agent: Policy,
)
    ensures
        (slot is Champion || slot is ChampionChild) ==> (fills(slot, champion, pop, scores, agent)
            <==> fills(slot, champion, Seq::empty(), Seq::empty(), agent)),
        (slot is Elite || slot is EliteChild || slot is Fresh) ==> (fills(
            slot,
            champion,
            pop,
            scores,
            agent,
        ) <==> fills(slot, None, pop, scores, agent)),
        slot is Fresh ==> (fills(slot, champion, pop, scores, agent) <==> fills(
            slot,
            None,
            Seq::empty(),
            Seq::empty(),
            agent,
        )),
{
}

/// The lanes of a population, handed out to be stepped elsewhere: agent
/// `i` plays game `i` and has score `i`.
pub struct Lanes {
    pub pop: Vec<QAgent>,
    pub games: Vec<Game>,
    pub scores: Vec<usize>,
}

impl Lanes {
    /// Every agent and every game is in order.
    pub open spec fn wf(&self) -> bool {
        &&& forall|i: int| 0 <= i < self.pop@.len() ==> (#[trigger] self.pop@[i]).wf()
        &&& forall|i: int| 0 <= i < self.games@.len() ==> (#[trigger] self.games@[i]).wf()
    }

    /// The agents as plain values.
    pub open spec fn policies(&self) -> Seq<Policy> {
        self.pop@.map_values(|a: QAgent| a@)
    }

    /// The games as plain values.
    pub open spec fn worlds(&self) -> Seq<World> {
        self.games@.map_values(|g: Game| g@)
    }
}

/// The trainer. Its state is read through `@` and through the getters.
pub struct EvoTrainer {
    training: bool,
    solved: bool,
    pop: Vec<QAgent>,
    pop_size: usize,
    epoch: usize,
    epoch_best: Vec<usize>,
    scores: Vec<usize>,
    step_limit: u32,
    steps_taken: u32,
    target_score: usize,
    best_score: usize,
    games: Vec<Game>,
    champion: Option<QAgent>,
    champion_score: usize,
    champion_epoch: usize,
    epochs_without_improvement: usize,
    restart_count: usize,
    wrap_world: bool,
}

impl View for EvoTrainer {
    type V = Trainer;

    closed spec fn view(&self) -> Trainer {
        Trainer {
            training: self.training,
            solved: self.solved,
            pop: self.pop@.map_values(|a: QAgent| a@),
            games: self.games@.map_values(|g: Game| g@),
            scores: self.scores@,
            pop_size: self.pop_size as nat,
            epoch: self.epoch as nat,
            epoch_best: self.epoch_best@,
            step_limit: self.step_limit as nat,
            steps_taken: self.steps_taken as nat,
            target_score: self.target_score as nat,
            best_score: self.best_score as nat,
            champion: match self.champion {
                Some(c) => Some(c@),
                None => None,
            },
            champion_score: self.champion_score as nat,
            champion_epoch: self.champion_epoch as nat,
            stagnation: self.epochs_without_improvement as nat,
            restart_count: self.restart_count as nat,
            wrap_world: self.wrap_world,
        }
    }
}

/// How the champion's family is made up in the restart of a tier, for a
/// population of `size`.
pub fn restart_family(tier: usize, size: usize) -> (family: Family)
    ensures
        family == tier_family(tier as int, size as int),
{
    if tier == 1 {
        Family { size, sigma: 250_000, color_range: 20, boost_children: true, boost_fresh: false }
    } else if tier == 2 {
        Family {
            size: size / 2,
            sigma: 400_000,
            color_range: 30,
            boost_children: true,
            boost_fresh: false,
        }
    } else if tier == 3 {
        Family {
            size: ((size as u128) * 3 / 10) as usize,
            sigma: 350_000,
            color_range: 40,
            boost_children: true,
            boost_fresh: false,
        }
    } else if tier == 4 {
        Family {
            size: size / 5,
            sigma: 600_000,
            color_range: 50,
            boost_children: true,
            boost_fresh: false,
        }
    } else {
        Family {
            size: size / 10,
            sigma: 800_000,
            color_range: 60,
            boost_children: true,
            boost_fresh: true,
        }
    }
}

/// New games for a population, all at the start of an episode.
fn fresh_games(count: usize, wrap_world: bool, rng: &mut SmallRng) -> (games: Vec<Game>)
    ensures
        games@.len() == count,
        forall|i: int|
            0 <= i < count ==> (#[trigger] games@[i]).wf() && games@[i]@.fresh(
                GRID_WIDTH as int,
                GRID_HEIGHT as int,
                wrap_world,
                false,
            ),
{
    let mut games: Vec<Game> = Vec::new();
    while games.len() < count
        invariant
            games@.len() <= count,
            forall|i: int|
                0 <= i < games@.len() ==> (#[trigger] games@[i]).wf() && games@[i]@.fresh(
                    GRID_WIDTH as int,
                    GRID_HEIGHT as int,
                    wrap_world,
                    false,
                ),
        decreases count - games@.len(),
    {
        games.push(Game::new_with_wrap(wrap_world, rng));
    }
    games
}

/// As many zero scores as a population has agents.
fn zero_scores(count: usize) -> (scores: Vec<usize>)
    ensures
        scores@.len() == count,
        forall|i: int| 0 <= i < count ==> #[trigger] scores@[i] == 0,
{
    let mut scores: Vec<usize> = Vec::new();
    while scores.len() < count
        invariant
            scores@.len() <= count,
            forall|i: int| 0 <= i < scores@.len() ==> #[trigger] scores@[i] == 0,
        decreases count - scores@.len(),
    {
        scores.push(0);
    }
    scores
}

impl EvoTrainer {
    /// Every agent and every game of the population is in order.
    pub closed spec fn lanes_wf(&self) -> bool {
        &&& forall|i: int| 0 <= i < self.pop@.len() ==> (#[trigger] self.pop@[i]).wf()
        &&& forall|i: int| 0 <= i < self.games@.len() ==> (#[trigger] self.games@[i]).wf()
    }

    /// The trainer is in a state that it can run in.
    pub open spec fn wf(&self) -> bool {
        self@.inv() && self.lanes_wf()
    }

    /// A trainer with `pop_size` agents, nothing learned, each in a new game
    /// on the default grid with wrapping edges. Training is off.
    pub fn new(pop_size: usize, rng: &mut SmallRng) -> (t: EvoTrainer)
        ensures
            t.wf(),
            t@.at_epoch_start(),
            t@.pop_size == pop_size,
            t@.pop.len() == pop_size,
            forall|i: int|
                0 <= i < pop_size ==> #[trigger] t@.pop[i] == Policy::fresh(
                    population_color(i, pop_size as int),
                ),
            t@ == (Trainer {
                training: false,
                solved: false,
                pop: t@.pop,
                games: t@.games,
                scores: t@.scores,
                pop_size: pop_size as nat,
                epoch: 0,
                epoch_best: Seq::empty(),
                step_limit: STEP_LIMIT as nat,
                steps_taken: 0,
                target_score: TARGET_SCORE as nat,
                best_score: 0,
                champion: None,
                champion_score: 0,
                champion_epoch: 0,
                stagnation: 0,
                restart_count: 0,
                wrap_world: true,
            }),
    {
        let colors = generate_population_colors(pop_size);
        let mut pop: Vec<QAgent> = Vec::new();
        let mut i: usize = 0;
        while i < pop_size
            invariant
                0 <= i <= pop_size,
                pop@.len() == i,
                colors@.len() == pop_size,
                forall|j: int|
                    0 <= j < pop_size ==> #[trigger] colors@[j] == population_color(
                        j,
                        pop_size as int,
                    ),
                forall|j: int|
                    0 <= j < i ==> (#[trigger] pop@[j]).wf() && pop@[j]@ == Policy::fresh(
                        population_color(j, pop_size as int),
                    ),
            decreases pop_size - i,
        {
            let c = colors[i];
            pop.push(QAgent::new_with_color(c.0, c.1, c.2));
            i += 1;
        }
        let games = fresh_games(pop_size, true, rng);
        let scores = zero_scores(pop_size);
        let t = EvoTrainer {
            training: false,
            solved: false,
            pop,
            pop_size,
            epoch: 0,
            epoch_best: Vec::new(),
            scores,
            step_limit: STEP_LIMIT,
            steps_taken: 0,
            target_score: TARGET_SCORE,
            best_score: 0,
            games,
            champion: None,
            champion_score: 0,
            champion_epoch: 0,
            epochs_without_improvement: 0,
            restart_count: 0,
            wrap_world: true,
        };
        proof {
            assert(t@.epoch_best =~= Seq::empty());
        }
        t
    }

    pub fn is_training(&self) -> (b: bool)
        ensures
            b == self@.training,
    {
        self.training
    }

    pub fn is_solved(&self) -> (b: bool)
        ensures
            b == self@.solved,
    {
        self.solved
    }

    pub fn pop_size(&self) -> (n: usize)
        ensures
            n == self@.pop_size,
    {
        self.pop_size
    }

    /// The number of agents.
    pub fn pop_len(&self) -> (n: usize)
        ensures
            n == self@.pop.len(),
    {
        self.pop.len()
    }

    /// The number of games.
    pub fn games_len(&self) -> (n: usize)
        ensures
            n == self@.games.len(),
    {
        self.games.len()
    }

    /// The number of scores.
    pub fn scores_len(&self) -> (n: usize)
        ensures
            n == self@.scores.len(),
    {
        self.scores.len()
    }

    pub fn epoch(&self) -> (n: usize)
        ensures
            n == self@.epoch,
    {
        self.epoch
    }

    pub fn step_limit(&self) -> (n: u32)
        ensures
            n == self@.step_limit,
    {
        self.step_limit
    }

    pub fn steps_taken(&self) -> (n: u32)
        ensures
            n == self@.steps_taken,
    {
        self.steps_taken
    }

    pub fn target_score(&self) -> (n: usize)
        ensures
            n == self@.target_score,
    {
        self.target_score
    }

    pub fn best_score(&self) -> (n: usize)
        ensures
            n == self@.best_score,
    {
        self.best_score
    }

    pub fn champion_score(&self) -> (n: usize)
        ensures
            n == self@.champion_score,
    {
        self.champion_score
    }

    pub fn champion_epoch(&self) -> (n: usize)
        ensures
            n == self@.champion_epoch,
    {
        self.champion_epoch
    }

    /// Epochs since the last record.
    pub fn epochs_without_improvement(&self) -> (n: usize)
        ensures
            n == self@.stagnation,
    {
        self.epochs_without_improvement
    }

    pub fn restart_count(&self) -> (n: usize)
        ensures
            n == self@.restart_count,
    {
        self.restart_count
    }

    pub fn wrap_world(&self) -> (b: bool)
        ensures
            b == self@.wrap_world,
    {
        self.wrap_world
    }

    /// Epochs without a record that bring on the next restart.
    pub fn stagnation_threshold(&self) -> (n: usize)
        requires
            self.wf(),
        ensures
            n == self@.patience(),
    {
        assert(self.restart_count * STAGNATION_STEP <= 2500) by (nonlinear_arith)
            requires
                self.restart_count <= 5,
                STAGNATION_STEP == 500,
        ;
        STAGNATION_BASE + self.restart_count * STAGNATION_STEP
    }

    /// The best score of each epoch so far.
    pub fn epoch_best(&self) -> (v: &Vec<usize>)
        ensures
            v@ == self@.epoch_best,
    {
        &self.epoch_best
    }

    /// The scores, lane by lane.
    pub fn scores(&self) -> (v: &Vec<usize>)
        ensures
            v@ == self@.scores,
    {
        &self.scores
    }

    /// The score of lane `i`; `None` past the population.
    pub fn score(&self, i: usize) -> (s: Option<usize>)
        ensures
            s == if i < self@.scores.len() {
                Some(self@.scores[i as int])
            } else {
                None
            },
    {
        if i < self.scores.len() {
            Some(self.scores[i])
        } else {
            None
        }
    }

    /// The game of lane `i`; `None` past the population.
    pub fn game(&self, i: usize) -> (g: Option<&Game>)
        ensures
            g matches Some(game) ==> i < self@.games.len() && game@ == self@.games[i as int] && (
            self.wf() ==> game.wf()),
            g is Some <==> i < self@.games.len(),
    {
        if i < self.games.len() {
            Some(&self.games[i])
        } else {
            None
        }
    }

    /// The agent of lane `i`; `None` past the population.
    pub fn agent(&self, i: usize) -> (a: Option<&QAgent>)
        ensures
            a matches Some(agent) ==> i < self@.pop.len() && agent@ == self@.pop[i as int] && (
            self.wf() ==> agent.wf()),
            a is Some <==> i < self@.pop.len(),
    {
        if i < self.pop.len() {
            Some(&self.pop[i])
        } else {
            None
        }
    }

    /// The best agent seen so far, if any agent ever scored.
    pub fn champion(&self) -> (c: Option<&QAgent>)
        ensures
            c matches Some(agent) ==> self@.champion == Some(agent@),
            c is Some <==> self@.champion is Some,
    {
        match &self.champion {
            Some(c) => Some(c),
            None => None,
        }
    }

    /// The number of games that are alive.
    pub fn alive_count(&self) -> (n: usize)
        ensures
            n == count_alive(self@.games, self@.games.len()),
            n <= self@.games.len(),
    {
        let mut n: usize = 0;
        let mut i: usize = 0;
        while i < self.games.len()
            invariant
                0 <= n <= i <= self.games@.len(),
                n == count_alive(self@.games, i as nat),
            decreases self.games@.len() - i,
        {
            assert(self@.games[i as int] == self.games@[i as int]@);
            if self.games[i].is_alive() {
                n += 1;
            }
            i += 1;
        }
        n
    }

    /// Sets the score of lane `i`, and tells whether there is such a lane.
    pub fn set_score(&mut self, i: usize, score: usize) -> (done: bool)
        ensures
            done == (i < old(self)@.scores.len()),
            done ==> final(self)@ == (Trainer {
                scores: old(self)@.scores.update(i as int, score),
                ..old(self)@
            }),
            !done ==> final(self)@ == old(self)@,
            old(self).wf() ==> final(self).wf(),
    {
        if i < self.scores.len() {
            self.scores[i] = score;
            true
        } else {
            false
        }
    }

    /// Sets the number of steps after which an epoch is cut off.
    pub fn set_step_limit(&mut self, step_limit: u32)
        ensures
            final(self)@ == (Trainer { step_limit: step_limit as nat, ..old(self)@ }),
            old(self).wf() ==> final(self).wf(),
    {
        self.step_limit = step_limit;
    }

    /// Starts every game anew and sets every score and the step count to
    /// zero.
    pub fn reset_epoch(&mut self, rng: &mut SmallRng)
        requires
            old(self).wf(),
        ensures
            final(self).wf(),
            old(self)@.epoch_reset(final(self)@),
    {
        self.steps_taken = 0;
        self.scores = zero_scores(self.pop_size);
        self.games = fresh_games(self.pop_size, self.wrap_world, rng);
    }

    /// Chooses between wrapping edges and solid walls, and starts the epoch
    /// anew with games of that kind.
    pub fn set_wrap_world(&mut self, wrap: bool, rng: &mut SmallRng)
        requires
            old(self).wf(),
        ensures
            final(self).wf(),
            (Trainer { wrap_world: wrap, ..old(self)@ }).epoch_reset(final(self)@),
    {
        self.wrap_world = wrap;
        self.reset_epoch(rng);
    }

    /// Hands out the lanes, for a caller that steps them itself, each lane
    /// on its own. The trainer is left without lanes and takes no part in
    /// anything until they are brought back with `restore_lanes`.
    pub fn lend_lanes(&mut self) -> (lanes: Lanes)
        requires
            old(self).wf(),
        ensures
            lanes.wf(),
            lanes.policies() == old(self)@.pop,
            lanes.worlds() == old(self)@.games,
            lanes.scores@ == old(self)@.scores,
            final(self)@ == old(self)@.without_lanes(),
            final(self)@.inv_but_lanes(),
    {
        let mut pop: Vec<QAgent> = Vec::new();
        let mut games: Vec<Game> = Vec::new();
        let mut scores: Vec<usize> = Vec::new();
        std::mem::swap(&mut self.pop, &mut pop);
        std::mem::swap(&mut self.games, &mut games);
        std::mem::swap(&mut self.scores, &mut scores);
        let lanes = Lanes { pop, games, scores };
        proof {
            assert(self@.pop =~= Seq::empty());
            assert(self@.games =~= Seq::empty());
        }
        lanes
    }

    /// Takes lanes back, if they are as many as the population's size says,
    /// and tells whether it did. Lanes of another number are dropped.
    pub fn restore_lanes(&mut self, lanes: Lanes) -> (done: bool)
        requires
            old(self)@.inv_but_lanes(),
            lanes.wf(),
        ensures
            done == (lanes.pop@.len() == old(self)@.pop_size && lanes.games@.len() == old(
                self,
            )@.pop_size && lanes.scores@.len() == old(self)@.pop_size),
            done ==> final(self).wf() && final(self)@ == (Trainer {
                pop: lanes.policies(),
                games: lanes.worlds(),
                scores: lanes.scores@,
                ..old(self)@
            }),
            !done ==> final(self)@ == old(self)@,
    {
        if lanes.pop.len() != self.pop_size || lanes.games.len() != self.pop_size
            || lanes.scores.len() != self.pop_size {
            return false;
        }
        let Lanes { pop, games, scores } = lanes;
        self.pop = pop;
        self.games = games;
        self.scores = scores;
        proof {
            assert forall|i: int| 0 <= i < self@.pop.len() implies (#[trigger] self@.pop[i]).inv() by {
                assert(self.pop@[i].wf());
            }
            assert forall|i: int| 0 <= i < self@.games.len() implies (#[trigger] self@.games[i]).inv() by {
                assert(self.games@[i].wf());
            }
        }
        true
    }

    /// Replaces every agent by a copy of `agent` and starts the epoch anew,
    /// to go on from a policy that was learned before.
    pub fn seed_population(&mut self, agent: &QAgent, rng: &mut SmallRng)
        requires
            old(self).wf(),
            agent.wf(),
        ensures
            final(self).wf(),
            final(self)@.pop.len() == old(self)@.pop_size,
            forall|i: int| 0 <= i < old(self)@.pop_size ==> #[trigger] final(self)@.pop[i] == agent@,
            (Trainer { pop: final(self)@.pop, ..old(self)@ }).epoch_reset(final(self)@),
    {
        let mut pop: Vec<QAgent> = Vec::new();
        while pop.len() < self.pop_size
            invariant
                pop@.len() <= self.pop_size,
                agent.wf(),
                forall|i: int| 0 <= i < pop@.len() ==> (#[trigger] pop@[i]).wf() && pop@[i]@ == agent@,
            decreases self.pop_size - pop@.len(),
        {
            pop.push(agent.duplicate());
        }
        self.pop = pop;
        self.reset_epoch(rng);
    }

    /// Starts over with a population of new agents: nothing learned, no
    /// champion, all counts at zero. Training, the step limit and the kind
    /// of walls stay as they are.
    pub fn reset_population(&mut self, rng: &mut SmallRng)
        requires
            old(self).wf(),
        ensures
            final(self).wf(),
            final(self)@.at_epoch_start(),
            final(self)@.pop.len() == old(self)@.pop_size,
            forall|i: int|
                0 <= i < old(self)@.pop_size ==> #[trigger] final(self)@.pop[i] == Policy::fresh(
                    population_color(i, old(self)@.pop_size as int),
                ),
            final(self)@ == (Trainer {
                training: old(self)@.training,
                step_limit: old(self)@.step_limit,
                wrap_world: old(self)@.wrap_world,
                target_score: old(self)@.target_score,
                solved: false,
                pop: final(self)@.pop,
                games: final(self)@.games,
                scores: final(self)@.scores,
                pop_size: old(self)@.pop_size,
                epoch: 0,
                epoch_best: Seq::empty(),
                steps_taken: 0,
                best_score: 0,
                champion: None,
                champion_score: 0,
                champion_epoch: 0,
                stagnation: 0,
                restart_count: 0,
            }),
    {
        let mut fresh = EvoTrainer::new(self.pop_size, rng);
        fresh.training = self.training;
        fresh.step_limit = self.step_limit;
        fresh.target_score = self.target_score;
        fresh.wrap_world = self.wrap_world;
        fresh.reset_epoch(rng);
        *self = fresh;
    }

    /// Closes the epoch and makes the next generation.
    ///
    /// The best score of the epoch is recorded. If it beats the champion's,
    /// the best agent becomes the champion and the next generation is the
    /// champion and mildly mutated children of it. Otherwise the epoch
    /// counts as one without a record; once there were as many of those as
    /// the trainer's patience allows, and there is a champion, the
    /// population is restarted from the champion, more harshly with every
    /// restart. In the ordinary course the best agents are kept, children
    /// of theirs and fresh agents are added. Whatever the case, the next
    /// generation has as many agents as the last, and every game and score
    /// starts anew.
    pub fn reproduce(&mut self, rng: &mut SmallRng)
        requires
            old(self).wf(),
            old(self)@.pop_size >= 1,
        ensures
            final(self).wf(),
            old(self)@.reproduced(final(self)@),
    {
        let ghost pre = self@;
        proof {
            lemma_best_index(self.scores@);
        }
        let first = top_indices(&self.scores, 1);
        let best_idx = first[0];
        assert(best_idx == best_index(self.scores@)) by {
            assert(first@.map_values(|t: usize| t as int)[0] == first@[0]);
        }
        let best = self.scores[best_idx];
        self.epoch_best.push(best);
        if best > self.best_score {
            self.best_score = best;
        }
        let mut new_champion = false;
        if best > self.champion_score {
            self.champion_score = best;
            self.champion_epoch = self.epoch;
            self.champion = Some(self.pop[best_idx].duplicate());
            self.epochs_without_improvement = 0;
            new_champion = true;
        } else if self.epochs_without_improvement < usize::MAX {
            self.epochs_without_improvement += 1;
        }
        assert(self.restart_count * STAGNATION_STEP <= 2500) by (nonlinear_arith)
            requires
                self.restart_count <= 5,
                STAGNATION_STEP == 500,
        ;
        let threshold = STAGNATION_BASE + self.restart_count * STAGNATION_STEP;
        let restart = self.epochs_without_improvement >= threshold && self.champion.is_some();
        let new_pop = match &self.champion {
            Some(champion) => {
                if restart {
                    let tier = if self.restart_count >= MAX_RESTARTS {
                        1
                    } else {
                        self.restart_count + 1
                    };
                    self.restart_count = tier;
                    self.epochs_without_improvement = 0;
                    breed_family(champion, self.pop_size, restart_family(tier, self.pop_size), rng)
                } else if new_champion {
                    self.restart_count = 0;
                    let family = Family {
                        size: self.pop_size,
                        sigma: CHILD_SIGMA,
                        color_range: CHAMPION_CHILD_COLOR_RANGE,
                        boost_children: false,
                        boost_fresh: false,
                    };
                    breed_family(champion, self.pop_size, family, rng)
                } else {
                    breed_steady(&self.pop, &self.scores, rng)
                }
            },
            None => breed_steady(&self.pop, &self.scores, rng),
        };
        proof {
            assert forall|i: int| 0 <= i < pre.pop_size implies (#[trigger] new_pop@[i]).wf()
                && fills(
                pre.next_slot(i),
                pre.champion_after(),
                pre.pop,
                pre.scores,
                new_pop@[i]@,
            ) by {
                lemma_fills_ignores(
                    pre.next_slot(i),
                    pre.champion_after(),
                    pre.pop,
                    pre.scores,
                    new_pop@[i]@,
                );
            }
        }
        self.pop = new_pop;
        if self.epoch < usize::MAX {
            self.epoch += 1;
        }
        self.reset_epoch(rng);
    }

    /// Whether one agent has scored more than every other and is alive.
    /// Such an agent is not cut off by the step limit.
    pub fn leader_protected(&self) -> (b: bool)
        requires
            self.wf(),
        ensures
            b == sole_leader_alive(self@.scores, self@.games),
    {
        let n = self.scores.len();
        let mut top1: usize = 0;
        let mut top2: usize = 0;
        let mut leader: Option<usize> = None;
        let mut i: usize = 0;
        while i < n
            invariant
                n == self.scores@.len(),
                0 <= i <= n,
                top2 <= top1,
                forall|j: int| 0 <= j < i ==> self.scores@[j] <= top1,
                match leader {
                    None => top1 == 0 && top2 == 0,
                    Some(k) => {
                        &&& k < i
                        &&& top1 > 0
                        &&& self.scores@[k as int] == top1
                        &&& forall|j: int| 0 <= j < i && j != k ==> self.scores@[j] <= top2
                        &&& top2 == 0 || exists|j: int|
                            0 <= j < i && j != k && self.scores@[j] == top2
                    },
                },
            decreases n - i,
        {
            let sc = self.scores[i];
            if sc > top1 {
                proof {
                    if leader is Some {
                        assert(self.scores@[leader->0 as int] == top1);
                    }
                }
                top2 = top1;
                top1 = sc;
                leader = Some(i);
            } else if sc > top2 {
                top2 = sc;
            }
            i += 1;
        }
        let ghost scores = self@.scores;
        let ghost games = self@.games;
        match leader {
            Some(k) => {
                let b = top1 > top2 && self.games[k].is_alive();
                proof {
                    assert(games[k as int] == self.games@[k as int]@);
                    if b {
                        assert(leads_alone(scores, k as int));
                    } else {
                        assert forall|x: int| #[trigger]
                            leads_alone(scores, x) && x < games.len() implies !games[x].alive by {
                            if x != k {
                                assert(scores[k as int] < scores[x]);
                            }
                            if top1 == top2 {
                                let j = choose|j: int|
                                    0 <= j < n && j != k && self.scores@[j] == top2;
                                assert(scores[j] == scores[x]);
                            }
                        }
                    }
                }
                b
            },
            None => {
                proof {
                    assert forall|x: int| !(#[trigger] leads_alone(scores, x)) by {
                        if 0 <= x < scores.len() {
                            assert(scores[x] <= top1);
                        }
                    }
                }
                false
            },
        }
    }

    /// Whether some agent still has work to do: a game alive and a score
    /// below the target.
    pub fn any_active(&self) -> (b: bool)
        requires
            self.wf(),
        ensures
            b == some_active(self@.scores, self@.games, self@.target_score as usize),
    {
        let n = self.scores.len();
        let mut i: usize = 0;
        while i < n
            invariant
                self.wf(),
                n == self.scores@.len(),
                0 <= i <= n,
                forall|j: int|
                    0 <= j < i ==> !#[trigger] lane_active(
                        self@.games[j],
                        self@.scores[j],
                        self@.target_score as usize,
                    ),
            decreases n - i,
        {
            assert(self@.games[i as int] == self.games@[i as int]@);
            if self.games[i].is_alive() && self.scores[i] < self.target_score {
                assert(lane_active(
                    self@.games[i as int],
                    self@.scores[i as int],
                    self@.target_score as usize,
                ));
                return true;
            }
            i += 1;
        }
        false
    }

    /// Steps every lane once: each agent whose game is alive and whose score
    /// is below the target chooses an action, moves and learns. Tells
    /// whether some game reached the target.
    pub fn step_population(&mut self, rng: &mut SmallRng) -> (solved: bool)
        requires
            old(self).wf(),
        ensures
            final(self).wf(),
            old(self)@.population_stepped(final(self)@),
            solved == old(self)@.some_solved(final(self)@),
    {
        let n = self.pop_size;
        let target = self.target_score;
        let ghost pre = self@;
        let mut solved = false;
        let mut i: usize = 0;
        while i < n
            invariant
                0 <= i <= n,
                n == pre.pop_size,
                target == pre.target_score,
                pre == old(self)@,
                pre.inv(),
                self.lanes_wf(),
                self.pop@.len() == n,
                self.games@.len() == n,
                self.scores@.len() == n,
                self@ == (Trainer {
                    pop: self@.pop,
                    games: self@.games,
                    scores: self@.scores,
                    ..pre
                }),
                forall|j: int|
                    0 <= j < i ==> lane_stepped(
                        pre.pop[j],
                        pre.games[j],
                        pre.scores[j],
                        #[trigger] self@.pop[j],
                        self@.games[j],
                        self@.scores[j],
                        target,
                    ),
                forall|j: int|
                    i <= j < n ==> #[trigger] self@.pop[j] == pre.pop[j] && self@.games[j]
                        == pre.games[j] && self@.scores[j] == pre.scores[j],
                solved <==> exists|j: int|
                    0 <= j < i && #[trigger] lane_solved(
                        pre.games[j],
                        pre.scores[j],
                        self@.games[j],
                        target,
                    ),
            decreases n - i,
        {
            let ghost before = self@;
            let ghost was_solved = solved;
            let ghost agent0 = self.pop@[i as int]@;
            let ghost game0 = self.games@[i as int]@;
            let ghost score0 = self.scores@[i as int];
            proof {
                assert(before.pop[i as int] == agent0 && before.pop[i as int] == pre.pop[i as int]);
                assert(before.games[i as int] == game0 && pre.games[i as int] == game0);
                assert(pre.scores[i as int] == score0);
            }
            let one = step_agent(
                &mut self.pop[i],
                &mut self.games[i],
                &mut self.scores[i],
                target,
                rng,
            );
            if one {
                solved = true;
            }
            proof {
                assert forall|j: int| 0 <= j < n && j != i implies #[trigger] self@.pop[j]
                    == before.pop[j] && self@.games[j] == before.games[j] && self@.scores[j]
                    == before.scores[j] by {}
                assert(self@.pop[i as int] == self.pop@[i as int]@);
                assert(self@.games[i as int] == self.games@[i as int]@);
                assert(self@.scores[i as int] == self.scores@[i as int]);
                assert(lane_stepped(
                    pre.pop[i as int],
                    pre.games[i as int],
                    pre.scores[i as int],
                    self@.pop[i as int],
                    self@.games[i as int],
                    self@.scores[i as int],
                    target,
                ));
                if one {
                    assert(lane_solved(
                        pre.games[i as int],
                        pre.scores[i as int],
                        self@.games[i as int],
                        target,
                    ));
                }
                if was_solved {
                    let j = choose|j: int|
                        0 <= j < i && #[trigger] lane_solved(
                            pre.games[j],
                            pre.scores[j],
                            before.games[j],
                            target,
                        );
                    assert(lane_solved(pre.games[j], pre.scores[j], self@.games[j], target));
                }
                if !solved {
                    assert forall|j: int| 0 <= j < i + 1 implies !#[trigger] lane_solved(
                        pre.games[j],
                        pre.scores[j],
                        self@.games[j],
                        target,
                    ) by {
                        if j < i {
                            assert(self@.games[j] == before.games[j]);
                        }
                    }
                }
            }
            i += 1;
        }
        proof {
            assert(pre.target_score as usize == target);
            if solved {
                let j = choose|j: int|
                    0 <= j < n && #[trigger] lane_solved(
                        pre.games[j],
                        pre.scores[j],
                        self@.games[j],
                        target,
                    );
                assert(lane_solved(
                    pre.games[j],
                    pre.scores[j],
                    self@.games[j],
                    pre.target_score as usize,
                ));
            } else {
                assert forall|j: int| 0 <= j < pre.pop_size implies !#[trigger] lane_solved(
                    pre.games[j],
                    pre.scores[j],
                    self@.games[j],
                    pre.target_score as usize,
                ) by {
                    assert(!lane_solved(pre.games[j], pre.scores[j], self@.games[j], target));
                }
            }
        }
        solved
    }

    /// Counts a step that was taken and closes the epoch if it is over: when
    /// some game reached the target, which also ends the training; when no
    /// agent has work left; or when the step limit is reached and no agent
    /// leads alone and alive. Tells whether the epoch was closed.
    pub fn finish_step(&mut self, any_solved: bool, rng: &mut SmallRng) -> (ended: bool)
        requires
            old(self).wf(),
            old(self)@.pop_size >= 1,
        ensures
            final(self).wf(),
            ended == old(self)@.epoch_over(any_solved),
            ended ==> old(self)@.step_counted(any_solved).reproduced(final(self)@),
            !ended ==> final(self)@ == old(self)@.step_counted(any_solved),
    {
        let all_done = any_solved || !self.any_active();
        let protected = self.leader_protected();
        if any_solved {
            self.solved = true;
            self.training = false;
        }
        if self.steps_taken < u32::MAX {
            self.steps_taken += 1;
        }
        assert(self@ == old(self)@.step_counted(any_solved));
        if all_done || (self.steps_taken >= self.step_limit && !protected) {
            self.reproduce(rng);
            true
        } else {
            false
        }
    }

    /// One tick of training, which does nothing while training is off:
    /// every lane takes a step, the step is counted, and the epoch is closed
    /// if it is over. Tells whether it was.
    pub fn tick(&mut self, rng: &mut SmallRng) -> (ended: bool)
        requires
            old(self).wf(),
            old(self)@.pop_size >= 1,
        ensures
            final(self).wf(),
            old(self)@.ticked(final(self)@, ended),
    {
        if !self.training {
            return false;
        }
        let solved = self.step_population(rng);
        let ghost mid = self@;
        let ended = self.finish_step(solved, rng);
        assert(old(self)@.population_stepped(mid));
        ended
    }

    /// Turns training on or off. Turning it on starts a new run: the games
    /// start anew, and the epoch count, the history of best scores, the best
    /// score and the count of epochs without a record go back to zero. The
    /// champion is kept.
    pub fn set_training(&mut self, on: bool, rng: &mut SmallRng)
        requires
            old(self).wf(),
        ensures
            final(self).wf(),
            !on ==> final(self)@ == (Trainer { training: false, ..old(self)@ }),
            on ==> (Trainer {
                training: true,
                solved: false,
                epoch: 0,
                epoch_best: Seq::empty(),
                best_score: 0,
                stagnation: 0,
                ..old(self)@
            }).epoch_reset(final(self)@),
    {
        self.training = on;
        if on {
            self.solved = false;
            self.epoch = 0;
            self.epoch_best = Vec::new();
            self.best_score = 0;
            self.epochs_without_improvement = 0;
            self.reset_epoch(rng);
        }
    }
}

/// The target is the score at which a snake that started with three cells
/// on the default grid covers every cell.
pub proof fn lemma_target_fills_the_grid()
    ensures
        TARGET_SCORE + INITIAL_LENGTH == GRID_WIDTH * GRID_HEIGHT,
        initial_snake(GRID_WIDTH as int, GRID_HEIGHT as int).len() == INITIAL_LENGTH,
{
}

/// The restarts go up a ladder of five tiers and begin again at the first;
/// each restart but the one that begins again raises the patience before
/// the next by the same amount, and a record takes the trainer off the
/// ladder.
pub proof fn lemma_restart_ladder(pre: Trainer)
    requires
        pre.inv(),
    ensures
        1 <= pre.tier() <= MAX_RESTARTS,
        pre.restart_count < MAX_RESTARTS ==> pre.tier() == pre.restart_count + 1,
        pre.restart_count == MAX_RESTARTS ==> pre.tier() == 1,
        pre.restart_count_after() <= MAX_RESTARTS,
        pre.improved() ==> !pre.restarts() && pre.restart_count_after() == 0
            && pre.stagnation_after() == 0,
        pre.restarts() ==> pre.stagnation_after() == 0 && pre.champion_after() == pre.champion,
        pre.patience() == STAGNATION_BASE + pre.restart_count * STAGNATION_STEP,
{
    assert(pre.restart_count * STAGNATION_STEP >= 0) by (nonlinear_arith)
        requires
            pre.restart_count >= 0,
            STAGNATION_STEP == 500,
    ;
}

/// Closing an epoch keeps the population's size: the next generation has
/// as many agents, games and scores as the population's size says, which
/// does not change.
pub proof fn lemma_reproduce_keeps_size(pre: Trainer, post: Trainer)
    requires
        pre.reproduced(post),
    ensures
        post.pop_size == pre.pop_size,
        post.pop.len() == pre.pop_size,
        post.games.len() == pre.pop_size,
        post.scores.len() == pre.pop_size,
{
}

/// Closing an epoch never lowers the champion's score, and changes it only
/// to the score of an agent that beat it. Afterwards no agent of the epoch
/// has scored more than the champion, and whoever scored is on record.
pub proof fn lemma_champion_score_step(pre: Trainer, post: Trainer)
    requires
        pre.inv(),
        pre.scores.len() >= 1,
        pre.reproduced(post),
    ensures
        post.champion_score >= pre.champion_score,
        forall|i: int| 0 <= i < pre.scores.len() ==> pre.scores[i] <= post.champion_score,
        post.champion_score > 0 ==> post.champion is Some,
        post.champion_score != pre.champion_score ==> exists|i: int|
            0 <= i < pre.scores.len() && #[trigger] pre.scores[i] > pre.champion_score
                && post.champion_score == pre.scores[i],
        post.champion_score != pre.champion_score ==> post.champion == Some(
            pre.pop[best_index(pre.scores)],
        ),
{
    lemma_best_index(pre.scores);
    if pre.improved() {
        assert(pre.scores[best_index(pre.scores)] > pre.champion_score);
    }
}

/// Over any run of states in which each state follows the one before by
/// closing an epoch or by something that leaves the champion's score alone,
/// the champion's score never falls.
pub proof fn lemma_champion_never_falls(run: Seq<Trainer>, a: int, b: int)
    requires
        0 <= a <= b < run.len(),
        forall|k: int|
            0 <= k < run.len() - 1 ==> (#[trigger] run[k]).scores.len() >= 1 && run[k].inv() && (
            run[k].reproduced(run[k + 1]) || run[k + 1].champion_score == run[k].champion_score),
    ensures
        run[a].champion_score <= run[b].champion_score,
    decreases b - a,
{
    if a < b {
        lemma_champion_never_falls(run, a, b - 1);
        let pre = run[b - 1];
        if pre.reproduced(run[b]) {
            lemma_champion_score_step(pre, run[b]);
        }
    }
}

} // verus!
