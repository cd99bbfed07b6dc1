//! Building the next generation.
//!
//! A generation is described place by place, by a plan of `Slot`s. After a
//! new record or a restart the generation is the champion's family: the
//! champion, children of the champion, and fresh agents. In the ordinary
//! course it is the best agents, children of theirs, and fresh agents.
//! Either way the generation has exactly the size asked for.

use crate::agent::QAgent;
use crate::color::{generate_population_colors, population_color};
use crate::evolve::{
    champion_child, elite_child, elites, fills, fresh_agent, is_child_of_elites, is_elite_child,
    lemma_elites, top_indices, Slot, ELITE_CHILDREN, ELITE_COUNT, FRESH_COUNT,
};
use crate::random::draw_below;
use rand::rngs::SmallRng;
use vstd::prelude::*;

verus! {

/// How the champion's family is made up.
#[derive(Clone, Copy, PartialEq, Eq, Debug, Structural)]
pub struct Family {
    /// Places for the champion and its children together; the champion has
    /// a place even where this is 0.
    pub size: usize,
    /// Spread of the children's mutation, in millionths.
    pub sigma: u32,
    /// Range of the children's color change.
    pub color_range: u32,
    /// Whether the children are boosted before they are mutated.
    pub boost_children: bool,
    /// Whether the fresh agents beside the family are boosted.
    pub boost_fresh: bool,
}

/// The smaller of two numbers.
pub open spec fn min(a: int, b: int) -> int {
    if a <= b {
        a
    } else {
        b
    }
}

/// The place where the fresh agents begin beside a family.
pub open spec fn family_end(n: int, family: Family) -> int {
    if family.size < 1 {
        1
    } else {
        min(family.size as int, n)
    }
}

/// What stands in place `i` of a generation of `n` made of the champion's
/// family: the champion first, then its children, then fresh agents whose
/// colors are spread over the color circle.
pub open spec fn family_slot(i: int, n: int, family: Family) -> Slot {
    if i == 0 {
        Slot::Champion
    } else if i < family_end(n, family) {
        Slot::ChampionChild {
            sigma: family.sigma as int,
            color_range: family.color_range as int,
            boost: family.boost_children,
        }
    } else {
        Slot::Fresh {
            index: i - family_end(n, family),
            of: n - family_end(n, family),
            boost: family.boost_fresh,
        }
    }
}

/// What stands in place `i` of a generation of `n` in the ordinary course:
/// the best three agents, four children of theirs, three fresh agents with
/// colors of their own, and fresh agents for the rest; a small generation
/// ends where it is full.
pub open spec fn steady_slot(i: int, n: int) -> Slot {
    let kept = min(ELITE_COUNT as int, n);
    let bred = min(kept + ELITE_CHILDREN, n);
    let added = min(bred + FRESH_COUNT, n);
    if i < kept {
        Slot::Elite { rank: i }
    } else if i < bred {
        Slot::EliteChild { parents: kept as nat }
    } else if i < added {
        Slot::Fresh { index: i - bred, of: added - bred, boost: false }
    } else {
        Slot::Fresh { index: i - added, of: n - added, boost: false }
    }
}

/// Adds fresh agents to a generation until it has `size` agents. Their
/// colors divide the color circle among them.
pub fn append_fresh(new_pop: &mut Vec<QAgent>, size: usize, boost: bool)
    requires
        old(new_pop)@.len() <= size,
    ensures
        final(new_pop)@.len() == size,
        forall|i: int|
            0 <= i < old(new_pop)@.len() ==> #[trigger] final(new_pop)@[i] == old(new_pop)@[i],
        forall|i: int|
            old(new_pop)@.len() <= i < size ==> (#[trigger] final(new_pop)@[i]).wf() && fills(
                Slot::Fresh {
                    index: i - old(new_pop)@.len(),
                    of: size - old(new_pop)@.len(),
                    boost,
                },
                None,
                Seq::empty(),
                Seq::empty(),
                final(new_pop)@[i]@,
            ),
{
    let start = new_pop.len();
    let missing = size - start;
    let colors = generate_population_colors(missing);
    let mut j: usize = 0;
    while j < missing
        invariant
            0 <= j <= missing,
            start == old(new_pop)@.len(),
            missing == size - start,
            new_pop@.len() == start + j,
            colors@.len() == missing,
            forall|i: int|
                0 <= i < missing ==> #[trigger] colors@[i] == population_color(i, missing as int),
            forall|i: int| 0 <= i < start ==> #[trigger] new_pop@[i] == old(new_pop)@[i],
            forall|i: int|
                start <= i < start + j ==> (#[trigger] new_pop@[i]).wf() && fills(
                    Slot::Fresh { index: i - start, of: missing as int, boost },
                    None,
                    Seq::empty(),
                    Seq::empty(),
                    new_pop@[i]@,
                ),
        decreases missing - j,
    {
        let agent = fresh_agent(colors[j], boost);
        new_pop.push(agent);
        j += 1;
    }
}

/// A generation of `size` agents made of the champion's family: the
/// champion, children of the champion up to the family's size, and fresh
/// agents for the rest.
pub fn breed_family(champion: &QAgent, size: usize, family: Family, rng: &mut SmallRng) -> (new_pop:
    Vec<QAgent>)
    requires
        champion.wf(),
        size >= 1,
    ensures
        new_pop@.len() == size,
        forall|i: int|
            0 <= i < size ==> (#[trigger] new_pop@[i]).wf() && fills(
                family_slot(i, size as int, family),
                Some(champion@),
                Seq::empty(),
                Seq::empty(),
                new_pop@[i]@,
            ),
{
    let mut new_pop: Vec<QAgent> = Vec::new();
    new_pop.push(champion.duplicate());
    let end = if family.size < 1 {
        1
    } else if family.size <= size {
        family.size
    } else {
        size
    };
    while new_pop.len() < end
        invariant
            1 <= new_pop@.len() <= end <= size,
            end == family_end(size as int, family),
            champion.wf(),
            forall|i: int|
                0 <= i < new_pop@.len() ==> (#[trigger] new_pop@[i]).wf() && fills(
                    family_slot(i, size as int, family),
                    Some(champion@),
                    Seq::empty(),
                    Seq::empty(),
                    new_pop@[i]@,
                ),
        decreases end - new_pop@.len(),
    {
        let child = champion_child(
            champion,
            family.sigma,
            family.color_range,
            family.boost_children,
            rng,
        );
        new_pop.push(child);
    }
    let ghost bred = new_pop@;
    append_fresh(&mut new_pop, size, family.boost_fresh);
    proof {
        assert forall|i: int| 0 <= i < size implies (#[trigger] new_pop@[i]).wf() && fills(
            family_slot(i, size as int, family),
            Some(champion@),
            Seq::empty(),
            Seq::empty(),
            new_pop@[i]@,
        ) by {
            if i < end {
                assert(new_pop@[i] == bred[i]);
            }
        }
    }
    new_pop
}

/// A generation of `pop.len()` agents in the ordinary course: the agents
/// of the best scores unchanged, children of theirs, and fresh agents.
pub fn breed_steady(pop: &Vec<QAgent>, scores: &Vec<usize>, rng: &mut SmallRng) -> (new_pop: Vec<
    QAgent,
>)
    requires
        pop@.len() >= 1,
        scores@.len() == pop@.len(),
        forall|i: int| 0 <= i < pop@.len() ==> (#[trigger] pop@[i]).wf(),
    ensures
        new_pop@.len() == pop@.len(),
        forall|i: int|
            0 <= i < pop@.len() ==> (#[trigger] new_pop@[i]).wf() && fills(
                steady_slot(i, pop@.len() as int),
                None,
                pop@.map_values(|a: QAgent| a@),
                scores@,
                new_pop@[i]@,
            ),
{
    let size = pop.len();
    let ranking = top_indices(scores, ELITE_COUNT);
    let kept = ranking.len();
    let ghost old_pop = pop@.map_values(|a: QAgent| a@);
    let ghost ranks = ranking@.map_values(|t: usize| t as int);
    proof {
        lemma_elites(scores@, kept as nat);
        assert forall|k: int| 0 <= k < kept implies 0 <= #[trigger] ranking@[k] < size by {
            assert(ranks[k] == ranking@[k]);
        }
    }
    let mut new_pop: Vec<QAgent> = Vec::new();
    let mut k: usize = 0;
    while k < kept
        invariant
            0 <= k <= kept <= size,
            kept == ranking@.len(),
            size == pop@.len(),
            scores@.len() == size,
            kept == min(ELITE_COUNT as int, size as int),
            new_pop@.len() == k,
            ranks == elites(scores@, kept as nat),
            ranks == ranking@.map_values(|t: usize| t as int),
            old_pop == pop@.map_values(|a: QAgent| a@),
            forall|j: int| 0 <= j < kept ==> 0 <= #[trigger] ranking@[j] < size,
            forall|i: int| 0 <= i < size ==> (#[trigger] pop@[i]).wf(),
            forall|i: int|
                0 <= i < k ==> (#[trigger] new_pop@[i]).wf() && fills(
                    steady_slot(i, size as int),
                    None,
                    old_pop,
                    scores@,
                    new_pop@[i]@,
                ),
        decreases kept - k,
    {
        let elite = pop[ranking[k]].duplicate();
        proof {
            lemma_elites(scores@, kept as nat);
            assert(ranks[k as int] == ranking@[k as int]);
            assert(elites(scores@, (k + 1) as nat)[k as int] == ranks[k as int]);
            assert(old_pop[ranks[k as int]] == pop@[ranking@[k as int] as int]@);
        }
        new_pop.push(elite);
        k += 1;
    }
    let bred = if size - kept <= ELITE_CHILDREN {
        size
    } else {
        kept + ELITE_CHILDREN
    };
    while new_pop.len() < bred
        invariant
            1 <= kept <= new_pop@.len() <= bred <= size,
            size == pop@.len(),
            scores@.len() == size,
            kept == min(ELITE_COUNT as int, size as int),
            bred == min(kept + ELITE_CHILDREN, size as int),
            kept == ranking@.len(),
            ranks == elites(scores@, kept as nat),
            ranks == ranking@.map_values(|t: usize| t as int),
            old_pop == pop@.map_values(|a: QAgent| a@),
            forall|j: int| 0 <= j < kept ==> 0 <= #[trigger] ranking@[j] < size,
            forall|i: int| 0 <= i < size ==> (#[trigger] pop@[i]).wf(),
            forall|i: int|
                0 <= i < new_pop@.len() ==> (#[trigger] new_pop@[i]).wf() && fills(
                    steady_slot(i, size as int),
                    None,
                    old_pop,
                    scores@,
                    new_pop@[i]@,
                ),
        decreases bred - new_pop@.len(),
    {
        let a = draw_below(rng, kept as u32) as usize;
        let b = draw_below(rng, kept as u32) as usize;
        let first = ranking[a];
        let second = ranking[b];
        let child = elite_child(&pop[first], &pop[second], rng);
        let ghost before = new_pop@;
        let ghost place = new_pop@.len() as int;
        let ghost made = child@;
        new_pop.push(child);
        proof {
            assert(ranks[a as int] == first && ranks[b as int] == second);
            assert(old_pop[first as int] == pop@[first as int]@);
            assert(old_pop[second as int] == pop@[second as int]@);
            assert(new_pop@[place]@ == made);
            assert(is_elite_child(
                old_pop[elites(scores@, kept as nat)[a as int]],
                old_pop[elites(scores@, kept as nat)[b as int]],
                new_pop@[place]@,
            ));
            assert(is_child_of_elites(old_pop, scores@, kept as nat, new_pop@[place]@));
            assert forall|i: int| 0 <= i < new_pop@.len() implies (#[trigger] new_pop@[i]).wf()
                && fills(
                steady_slot(i, size as int),
                None,
                old_pop,
                scores@,
                new_pop@[i]@,
            ) by {
                if i < place {
                    assert(new_pop@[i] == before[i]);
                }
            }
        }
    }
    let added = if size - bred <= FRESH_COUNT {
        size
    } else {
        bred + FRESH_COUNT
    };
    let ghost before_fresh = new_pop@;
    append_fresh(&mut new_pop, added, false);
    let ghost before_rest = new_pop@;
    append_fresh(&mut new_pop, size, false);
    proof {
        assert forall|i: int| 0 <= i < size implies (#[trigger] new_pop@[i]).wf() && fills(
            steady_slot(i, size as int),
            None,
            old_pop,
            scores@,
            new_pop@[i]@,
        ) by {
            if i < added {
                assert(new_pop@[i] == before_rest[i]);
                if i < bred {
                    assert(before_rest[i] == before_fresh[i]);
                }
            }
        }
    }
    new_pop
}

} // verus!
