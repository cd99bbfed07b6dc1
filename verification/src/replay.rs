//! A bounded memory of transitions for policies that learn from replay.
//!
//! The memory keeps the most recent transitions up to its capacity: once it
//! is full, each new transition takes the place of the oldest.

use vstd::arithmetic::div_mod::{
    lemma_add_mod_noop, lemma_fundamental_div_mod, lemma_mod_pos_bound, lemma_small_mod,
};
use vstd::prelude::*;

verus! {

/// One remembered transition.
#[derive(Clone, Copy, PartialEq, Eq, Debug, Structural)]
pub struct Experience {
    pub state: u32,
    pub action: u8,
    /// The reward, in millionths.
    pub reward: i64,
    pub next_state: u32,
    pub done: bool,
}

/// What a memory holds, as plain mathematical values.
#[verifier::ext_equal]
pub struct Memory {
    /// The transitions, by the place they are stored in.
    pub items: Seq<Experience>,
    /// The most that the memory holds.
    pub cap: nat,
    /// The place that the next transition goes to once the memory is full.
    pub next: nat,
}

impl Memory {
    /// A memory of capacity `cap` that holds nothing.
    pub open spec fn empty(cap: nat) -> Memory {
        Memory { items: Seq::empty(), cap, next: 0 }
    }

    /// What holds of every memory: it holds no more than its capacity, and
    /// the next place follows the last one written, going round.
    pub open spec fn inv(self) -> bool {
        &&& self.items.len() <= self.cap
        &&& self.cap > 0 ==> self.next < self.cap
        &&& self.items.len() < self.cap ==> self.next == self.items.len()
    }

    pub open spec fn full(self) -> bool {
        self.cap > 0 && self.items.len() == self.cap
    }

    /// This memory after `e` was added: appended while there is room, else
    /// written over the oldest transition.
    pub open spec fn pushed(self, e: Experience) -> Memory {
        Memory {
            items: if self.full() {
                self.items.update(self.next as int, e)
            } else {
                self.items.push(e)
            },
            cap: self.cap,
            next: ((self.next + 1) % self.cap) as nat,
        }
    }

    /// This memory after each of `es` was added in turn.
    pub open spec fn pushed_all(self, es: Seq<Experience>) -> Memory
        decreases es.len(),
    {
        if es.len() == 0 {
            self
        } else {
            self.pushed_all(es.drop_last()).pushed(es.last())
        }
    }
}

/// The memory.
pub struct Replay {
    items: Vec<Experience>,
    cap: usize,
    idx: usize,
    full: bool,
}

impl View for Replay {
    type V = Memory;

    closed spec fn view(&self) -> Memory {
        Memory { items: self.items@, cap: self.cap as nat, next: self.idx as nat }
    }
}

impl Replay {
    /// The flag that tells a full memory agrees with what is stored.
    pub closed spec fn flagged(&self) -> bool {
        self.full == self@.full()
    }

    /// The memory is in a state that it can be added to.
    pub open spec fn wf(&self) -> bool {
        self@.inv() && self.flagged()
    }

    /// An empty memory for up to `cap` transitions.
    pub fn new(cap: usize) -> (r: Replay)
        ensures
            r.wf(),
            r@ == Memory::empty(cap as nat),
    {
        Replay { items: Vec::new(), cap, idx: 0, full: false }
    }

    /// Adds a transition. A memory of capacity 0 cannot be added to.
    pub fn push(&mut self, s: u32, a: u8, r: i64, ns: u32, done: bool)
        requires
            old(self).wf(),
            old(self)@.cap > 0,
        ensures
            final(self).wf(),
            final(self)@ == old(self)@.pushed(
                Experience { state: s, action: a, reward: r, next_state: ns, done },
            ),
    {
        let e = Experience { state: s, action: a, reward: r, next_state: ns, done };
        if self.full {
            self.items[self.idx] = e;
        } else {
            self.items.push(e);
            if self.items.len() == self.cap {
                self.full = true;
            }
        }
        proof {
            let next = (self.idx + 1) as int;
            let cap = self.cap as int;
            if next < cap {
                assert(next % cap == next) by (nonlinear_arith)
                    requires
                        0 <= next < cap,
                ;
            } else {
                assert(next % cap == 0) by (nonlinear_arith)
                    requires
                        next == cap,
                        cap > 0,
                ;
            }
        }
        self.idx = (self.idx + 1) % self.cap;
    }

    /// The number of transitions held.
    pub fn len(&self) -> (n: usize)
        requires
            self.wf(),
        ensures
            n == self@.items.len(),
    {
        if self.full {
            self.cap
        } else {
            self.items.len()
        }
    }

    /// The most that the memory holds.
    pub fn capacity(&self) -> (n: usize)
        ensures
            n == self@.cap,
    {
        self.cap
    }

    /// The transition stored in place `i`; `None` past what is held.
    pub fn get(&self, i: usize) -> (e: Option<Experience>)
        ensures
            e == if i < self@.items.len() {
                Some(self@.items[i as int])
            } else {
                None
            },
    {
        if i < self.items.len() {
            Some(self.items[i])
        } else {
            None
        }
    }
}

/// However many transitions are added, the memory holds no more than its
/// capacity, and as many as were added while they are fewer.
pub proof fn lemma_memory_bounded(m: Memory, es: Seq<Experience>)
    requires
        m.inv(),
        m.cap > 0,
    ensures
        m.pushed_all(es).inv(),
        m.pushed_all(es).cap == m.cap,
        m.pushed_all(es).items.len() == if m.items.len() + es.len() <= m.cap {
            m.items.len() + es.len()
        } else {
            m.cap
        },
    decreases es.len(),
{
    if es.len() > 0 {
        lemma_memory_bounded(m, es.drop_last());
        let before = m.pushed_all(es.drop_last());
        let cap = m.cap;
        let next = (before.next + 1) as nat;
        if next < cap {
            assert(next % cap == next) by (nonlinear_arith)
                requires
                    0 <= next < cap,
            ;
        } else {
            assert(next % cap == 0) by (nonlinear_arith)
                requires
                    next == cap,
                    cap > 0,
            ;
        }
    }
}

/// Two places less than the capacity apart are different places of the
/// memory.
proof fn lemma_places_apart(i: int, j: int, cap: int)
    requires
        0 <= i < j < i + cap,
    ensures
        i % cap != j % cap,
{
    lemma_fundamental_div_mod(i, cap);
    lemma_fundamental_div_mod(j, cap);
    if i % cap == j % cap {
        let d = j / cap - i / cap;
        assert(j - i == cap * d) by (nonlinear_arith)
            requires
                i == cap * (i / cap) + i % cap,
                j == cap * (j / cap) + j % cap,
                i % cap == j % cap,
                d == j / cap - i / cap,
        ;
        assert(false) by (nonlinear_arith)
            requires
                0 < cap * d < cap,
        ;
    }
}

/// A memory that started empty holds the latest transitions, as many as
/// its capacity allows: the `i`-th transition added is found in place `i`
/// modulo the capacity until as many more as the capacity were added.
pub proof fn lemma_memory_holds_latest(cap: nat, es: Seq<Experience>, i: int)
    requires
        cap > 0,
        0 <= i < es.len(),
        es.len() - cap <= i,
    ensures
        Memory::empty(cap).pushed_all(es).next == (es.len() as int) % (cap as int),
        Memory::empty(cap).pushed_all(es).items[i % (cap as int)] == es[i],
    decreases es.len(),
{
    let start = Memory::empty(cap);
    let n = es.len() as int;
    let c = cap as int;
    let before = start.pushed_all(es.drop_last());
    lemma_memory_bounded(start, es.drop_last());
    lemma_memory_bounded(start, es);
    lemma_memory_next(cap, es.drop_last());
    lemma_memory_next(cap, es);
    lemma_fundamental_div_mod(i, c);
    lemma_fundamental_div_mod(n - 1, c);
    lemma_mod_pos_bound(i, c);
    lemma_mod_pos_bound(n - 1, c);
    if i == n - 1 {
        if !before.full() {
            lemma_small_mod((n - 1) as nat, cap);
        }
    } else {
        lemma_memory_holds_latest(cap, es.drop_last(), i);
        lemma_places_apart(i, n - 1, c);
        if !before.full() {
            lemma_small_mod((n - 1) as nat, cap);
            lemma_small_mod(i as nat, cap);
        }
    }
}

/// The next place of a memory that started empty goes round with the
/// number of transitions added.
proof fn lemma_memory_next(cap: nat, es: Seq<Experience>)
    requires
        cap > 0,
    ensures
        Memory::empty(cap).pushed_all(es).next == (es.len() as int) % (cap as int),
    decreases es.len(),
{
    let c = cap as int;
    if es.len() == 0 {
        lemma_small_mod(0, cap);
    } else {
        lemma_memory_next(cap, es.drop_last());
        lemma_memory_bounded(Memory::empty(cap), es.drop_last());
        let n = es.len() as int;
        let before = Memory::empty(cap).pushed_all(es.drop_last());
        assert(before.next == (n - 1) % c);
        lemma_mod_pos_bound(n - 1, c);
        let next = (before.next + 1) as int;
        lemma_mod_pos_bound(next, c);
        lemma_mod_pos_bound(n, c);
        if c > 1 {
            lemma_add_mod_noop(n - 1, 1, c);
            lemma_small_mod(1, cap);
        }
        assert(next % c == n % c);
        let after = before.pushed(es.last());
        assert(Memory::empty(cap).pushed_all(es) == after);
        assert(before.cap == cap);
    }
}

} // verus!
