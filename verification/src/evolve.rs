//! Selection and variation: who is carried over from one generation to the
//! next, and how children and fresh agents are made.

use crate::agent::{mutate_qagent, mutated, Policy, QAgent};
use crate::color::{
    blend_colors, color_near, draw_blend_ratio, mutate_color, population_color, spec_blend,
    BLEND_HIGH, BLEND_LOW,
};
use rand::rngs::SmallRng;
use vstd::prelude::*;
use vstd::set_lib::*;

verus! {

/// Spread of the mutation of a child in the ordinary course, in millionths.
pub const CHILD_SIGMA: u32 = 150_000;

/// Range of the color change of a child of the champion after a new record.
pub const CHAMPION_CHILD_COLOR_RANGE: u32 = 25;

/// Range of the color change of a child of two elite parents.
pub const ELITE_CHILD_COLOR_RANGE: u32 = 15;

/// Agents carried over unchanged in the ordinary course.
pub const ELITE_COUNT: usize = 3;

/// Children made of elite parents in the ordinary course.
pub const ELITE_CHILDREN: usize = 4;

/// Fresh agents added in the ordinary course before the rest is filled up.
pub const FRESH_COUNT: usize = 3;

/// Among the first `n` scores, the index of the highest score whose index
/// is not in `skip`, the lowest such index among equal scores; -1 if there
/// is none.
pub open spec fn arg_best(scores: Seq<usize>, n: int, skip: Set<int>) -> int
    decreases n,
{
    if n <= 0 {
        -1
    } else {
        let before = arg_best(scores, n - 1, skip);
        if skip.contains(n - 1) {
            before
        } else if before < 0 || scores[n - 1] > scores[before] {
            n - 1
        } else {
            before
        }
    }
}

/// The indices of the `r` best scores, best first: each is the best of
/// those not yet taken, the lowest index among equal scores.
pub open spec fn elites(scores: Seq<usize>, r: nat) -> Seq<int>
    decreases r,
{
    if r == 0 {
        Seq::empty()
    } else {
        let before = elites(scores, (r - 1) as nat);
        before.push(arg_best(scores, scores.len() as int, before.to_set()))
    }
}

/// The index of the best score, the lowest index among equal scores.
pub open spec fn best_index(scores: Seq<usize>) -> int {
    arg_best(scores, scores.len() as int, Set::empty())
}

/// The highest score.
pub open spec fn top_score(scores: Seq<usize>) -> usize {
    scores[best_index(scores)]
}

/// `arg_best` finds an index outside `skip` whose score no index outside
/// `skip` beats and no earlier index outside `skip` reaches; it finds none
/// only if `skip` holds every index.
pub proof fn lemma_arg_best(scores: Seq<usize>, n: int, skip: Set<int>)
    requires
        0 <= n <= scores.len(),
    ensures
        -1 <= arg_best(scores, n, skip) < n,
        arg_best(scores, n, skip) >= 0 ==> !skip.contains(arg_best(scores, n, skip)),
        arg_best(scores, n, skip) < 0 ==> forall|j: int| 0 <= j < n ==> skip.contains(j),
        forall|j: int|
            0 <= j < n && !skip.contains(j) ==> scores[j] <= scores[arg_best(scores, n, skip)],
        forall|j: int|
            0 <= j < arg_best(scores, n, skip) && !skip.contains(j) ==> scores[j]
                < scores[arg_best(scores, n, skip)],
    decreases n,
{
    if n > 0 {
        lemma_arg_best(scores, n - 1, skip);
    }
}

/// The `r` best indices are distinct indices of the scores, as long as
/// there are that many scores.
pub proof fn lemma_elites(scores: Seq<usize>, r: nat)
    requires
        r <= scores.len(),
    ensures
        elites(scores, r).len() == r,
        elites(scores, r).no_duplicates(),
        forall|k: int| 0 <= k < r ==> 0 <= #[trigger] elites(scores, r)[k] < scores.len(),
        forall|k: int, m: nat|
            0 <= k < m <= r ==> #[trigger] elites(scores, m)[k] == elites(scores, r)[k],
    decreases r,
{
    if r > 0 {
        let before = elites(scores, (r - 1) as nat);
        let n = scores.len() as int;
        lemma_elites(scores, (r - 1) as nat);
        lemma_arg_best(scores, n, before.to_set());
        let next = arg_best(scores, n, before.to_set());
        if next < 0 {
            before.unique_seq_to_set();
            lemma_int_range(0, n);
            assert(set_int_range(0, n).subset_of(before.to_set()));
            vstd::seq_lib::seq_to_set_is_finite(before);
            lemma_len_subset(set_int_range(0, n), before.to_set());
        }
        assert(!before.contains(next));
        assert forall|k: int, m: nat| 0 <= k < m <= r implies #[trigger] elites(scores, m)[k]
            == elites(scores, r)[k] by {
            if m < r {
                assert(elites(scores, m)[k] == before[k]);
            }
        }
    }
}

/// The best index holds the highest score, and it is the first to hold it.
pub proof fn lemma_best_index(scores: Seq<usize>)
    requires
        scores.len() >= 1,
    ensures
        0 <= best_index(scores) < scores.len(),
        best_index(scores) == elites(scores, 1)[0],
        forall|j: int| 0 <= j < scores.len() ==> scores[j] <= top_score(scores),
        forall|j: int| 0 <= j < best_index(scores) ==> scores[j] < top_score(scores),
{
    lemma_arg_best(scores, scores.len() as int, Set::empty());
    assert forall|j: int| 0 <= j < scores.len() implies scores[j] <= top_score(scores) by {
        assert(!Set::<int>::empty().contains(j));
    }
    assert forall|j: int| 0 <= j < best_index(scores) implies scores[j] < top_score(scores) by {
        assert(!Set::<int>::empty().contains(j));
    }
    assert(elites(scores, 0).to_set() =~= Set::<int>::empty());
    assert(elites(scores, 1) =~= seq![best_index(scores)]) by {
        reveal_with_fuel(elites, 2);
    }
}

/// The index of the best score outside `taken`, the lowest index among
/// equal scores; `None` if every index is taken.
pub fn best_outside(scores: &Vec<usize>, taken: &Vec<usize>) -> (r: Option<usize>)
    ensures
        match r {
            Some(i) => i == arg_best(
                scores@,
                scores@.len() as int,
                taken@.map_values(|t: usize| t as int).to_set(),
            ),
            None => arg_best(
                scores@,
                scores@.len() as int,
                taken@.map_values(|t: usize| t as int).to_set(),
            ) == -1,
        },
{
    let ghost skip = taken@.map_values(|t: usize| t as int).to_set();
    let mut best: Option<usize> = None;
    let n = scores.len();
    let mut i: usize = 0;
    while i < n
        invariant
            n == scores@.len(),
            0 <= i <= n,
            skip == taken@.map_values(|t: usize| t as int).to_set(),
            match best {
                Some(b) => b == arg_best(scores@, i as int, skip) && b < i,
                None => arg_best(scores@, i as int, skip) == -1,
            },
        decreases n - i,
    {
        let mut skipped = false;
        let mut j: usize = 0;
        while j < taken.len()
            invariant
                0 <= j <= taken@.len(),
                skipped <==> exists|k: int| 0 <= k < j && taken@[k] == i,
            decreases taken@.len() - j,
        {
            if taken[j] == i {
                skipped = true;
            }
            j += 1;
        }
        proof {
            let mapped = taken@.map_values(|t: usize| t as int);
            if skipped {
                let k = choose|k: int| 0 <= k < taken@.len() && taken@[k] == i;
                assert(mapped[k] == i as int);
            }
            if skip.contains(i as int) {
                let k = choose|k: int| 0 <= k < mapped.len() && mapped[k] == i as int;
                assert(taken@[k] == i);
            }
        }
        if !skipped {
            match best {
                Some(b) => {
                    if scores[i] > scores[b] {
                        best = Some(i);
                    }
                },
                None => {
                    best = Some(i);
                },
            }
        }
        i += 1;
    }
    best
}

/// The indices of the `count` best scores, best first; fewer if there are
/// fewer scores.
pub fn top_indices(scores: &Vec<usize>, count: usize) -> (top: Vec<usize>)
    ensures
        top@.len() == if count <= scores@.len() {
            count as nat
        } else {
            scores@.len()
        },
        top@.map_values(|t: usize| t as int) == elites(scores@, top@.len()),
        forall|k: int| 0 <= k < top@.len() ==> #[trigger] top@[k] < scores@.len(),
{
    let n = scores.len();
    let want = if count <= n {
        count
    } else {
        n
    };
    let mut top: Vec<usize> = Vec::new();
    let mut r: usize = 0;
    while r < want
        invariant
            0 <= r <= want <= n,
            n == scores@.len(),
            top@.len() == r,
            top@.map_values(|t: usize| t as int) == elites(scores@, r as nat),
            forall|k: int| 0 <= k < r ==> #[trigger] top@[k] < n,
        decreases want - r,
    {
        let ghost before = top@.map_values(|t: usize| t as int);
        proof {
            lemma_elites(scores@, (r + 1) as nat);
            lemma_arg_best(scores@, n as int, before.to_set());
        }
        match best_outside(scores, &top) {
            Some(i) => {
                top.push(i);
                assert(top@.map_values(|t: usize| t as int) =~= before.push(i as int));
            },
            None => {
                assert(elites(scores@, (r + 1) as nat)[r as int] == -1);
                assert(false);
            },
        }
        r += 1;
    }
    top
}

/// What stands in one place of a new generation.
pub enum Slot {
    /// The champion, unchanged.
    Champion,
    /// A copy of the champion, mutated; boosted before that if `boost`.
    ChampionChild { sigma: int, color_range: int, boost: bool },
    /// The agent of the given rank of the old generation, unchanged.
    Elite { rank: int },
    /// A mutated copy of one of the `parents` best agents, colored by a
    /// blend of two of them.
    EliteChild { parents: nat },
    /// A new agent with the color `index` of `of`; boosted if `boost`.
    Fresh { index: int, of: int, boost: bool },
}

/// `child` is a copy of `champion` that was boosted if `boost`, then
/// mutated with spread `sigma`, and given the champion's color changed by at
/// most `color_range`.
pub open spec fn is_champion_child(
    champion: Policy,
    child: Policy,
    sigma: int,
    color_range: int,
    boost: bool,
) -> bool {
    let base = if boost {
        champion.boosted()
    } else {
        champion
    };
    &&& mutated(base, Policy { color: base.color, ..child }, sigma)
    &&& color_near(champion.color, child.color, color_range)
}

/// `child` is a mutated copy of `first`, colored by a blend of the colors
/// of `first` and `second` that was changed a little.
pub open spec fn is_elite_child(first: Policy, second: Policy, child: Policy) -> bool {
    &&& mutated(first, Policy { color: first.color, ..child }, CHILD_SIGMA as int)
    &&& exists|ratio: int|
        BLEND_LOW <= ratio < BLEND_HIGH && color_near(
            #[trigger] spec_blend(first.color, second.color, ratio),
            child.color,
            ELITE_CHILD_COLOR_RANGE as int,
        )
}

/// `child` is a child of two of the `parents` best agents of `pop`, which
/// may be the same agent twice.
pub open spec fn is_child_of_elites(
    pop: Seq<Policy>,
    scores: Seq<usize>,
    parents: nat,
    child: Policy,
) -> bool {
    exists|a: int, b: int|
        0 <= a < parents && 0 <= b < parents && #[trigger] is_elite_child(
            pop[elites(scores, parents)[a]],
            pop[elites(scores, parents)[b]],
            child,
        )
}

/// `agent` is new, with the given color, and boosted if `boost`.
pub open spec fn is_fresh(agent: Policy, color: (u8, u8, u8), boost: bool) -> bool {
    agent == if boost {
        Policy::fresh(color).boosted()
    } else {
        Policy::fresh(color)
    }
}

/// Whether `agent` may stand in a place of kind `slot` of the generation
/// that follows `pop` with scores `scores` under `champion`.
pub open spec fn fills(
    slot: Slot,
    champion: Option<Policy>,
    pop: Seq<Policy>,
    scores: Seq<usize>,
    agent: Policy,
) -> bool {
    match slot {
        Slot::Champion => champion == Some(agent),
        Slot::ChampionChild { sigma, color_range, boost } => champion is Some
            && is_champion_child(champion->0, agent, sigma, color_range, boost),
        Slot::Elite { rank } => agent == pop[elites(scores, (rank + 1) as nat)[rank]],
        Slot::EliteChild { parents } => is_child_of_elites(pop, scores, parents, agent),
        Slot::Fresh { index, of, boost } => is_fresh(agent, population_color(index, of), boost),
    }
}

/// A child of the champion: a copy that is boosted if `boost`, mutated with
/// spread `sigma`, and colored like the champion but for a change of at
/// most `color_range`.
pub fn champion_child(
    champion: &QAgent,
    sigma: u32,
    color_range: u32,
    boost: bool,
    rng: &mut SmallRng,
) -> (child: QAgent)
    requires
        champion.wf(),
    ensures
        child.wf(),
        is_champion_child(champion@, child@, sigma as int, color_range as int, boost),
{
    let mut child = champion.duplicate();
    if boost {
        child.boost_exploration();
    }
    mutate_qagent(&mut child, rng, sigma);
    let ghost plain = child@;
    child.set_color(mutate_color(champion.color(), color_range, rng));
    assert((Policy { color: plain.color, ..child@ }) == plain);
    child
}

/// A child of two elite parents: a copy of the first, mutated, and colored
/// by a blend of both parents' colors that is changed a little.
pub fn elite_child(first: &QAgent, second: &QAgent, rng: &mut SmallRng) -> (child: QAgent)
    requires
        first.wf(),
    ensures
        child.wf(),
        is_elite_child(first@, second@, child@),
{
    let mut child = first.duplicate();
    mutate_qagent(&mut child, rng, CHILD_SIGMA);
    let ghost plain = child@;
    let ratio = draw_blend_ratio(rng);
    let blended = blend_colors(first.color(), second.color(), ratio);
    child.set_color(mutate_color(blended, ELITE_CHILD_COLOR_RANGE, rng));
    assert((Policy { color: plain.color, ..child@ }) == plain);
    assert(color_near(
        spec_blend(first@.color, second@.color, ratio as int),
        child@.color,
        ELITE_CHILD_COLOR_RANGE as int,
    ));
    child
}

/// A new agent with the given color, boosted if `boost`.
pub fn fresh_agent(color: (u8, u8, u8), boost: bool) -> (agent: QAgent)
    ensures
        agent.wf(),
        is_fresh(agent@, color, boost),
{
    let mut agent = QAgent::new();
    if boost {
        agent.boost_exploration();
    }
    agent.set_color(color);
    agent
}

} // verus!
