//! The rewriting engine: every letter of a sentence is replaced at once.
use vstd::prelude::*;
use crate::fixed::UNIT;
use crate::leaf::{leaf_rule, leaf_start, rewrite, start_sentence, Leaf, LeafParameters};

verus! {

/// The next generation of `s`: the rewrites of its letters, concatenated in order.
pub open spec fn rewrite_all(s: Seq<Leaf>, p: LeafParameters) -> Seq<Leaf>
    decreases s.len(),
{
    if s.len() == 0 {
        Seq::empty()
    } else {
        rewrite_all(s.drop_last(), p) + rewrite(s.last(), p)
    }
}

/// The sentence after `n` rewriting steps from `s`.
pub open spec fn generation(s: Seq<Leaf>, p: LeafParameters, n: nat) -> Seq<Leaf>
    decreases n,
{
    if n == 0 {
        s
    } else {
        rewrite_all(generation(s, p, (n - 1) as nat), p)
    }
}

/// How many letters of `s` satisfy `f`.
pub open spec fn count_where(s: Seq<Leaf>, f: spec_fn(Leaf) -> bool) -> nat
    decreases s.len(),
{
    if s.len() == 0 {
        0
    } else {
        count_where(s.drop_last(), f) + if f(s.last()) { 1nat } else { 0nat }
    }
}

/// Counting distributes over concatenation.
pub proof fn lemma_count_concat(a: Seq<Leaf>, b: Seq<Leaf>, f: spec_fn(Leaf) -> bool)
    ensures
        count_where(a + b, f) == count_where(a, f) + count_where(b, f),
    decreases b.len(),
{
    if b.len() > 0 {
        assert((a + b).drop_last() =~= a + b.drop_last());
        lemma_count_concat(a, b.drop_last(), f);
    } else {
        assert(a + b =~= a);
    }
}

/// An L-system over leaf letters: the current sentence and the rule's constants.
pub struct LSystem {
    pub sentence: Vec<Leaf>,
    pub parameters: LeafParameters,
}

impl LSystem {
    /// A system whose generation zero is `sentence`.
    pub fn new(sentence: Vec<Leaf>, parameters: LeafParameters) -> (r: Self)
        ensures
            r.sentence@ == sentence@,
            r.parameters == parameters,
    {
        LSystem { sentence, parameters }
    }

    /// Replaces the sentence by its next generation.
    pub fn step(&mut self)
        ensures
            final(self).sentence@ == rewrite_all(old(self).sentence@, old(self).parameters),
            final(self).parameters == old(self).parameters,
    {
        let mut next: Vec<Leaf> = Vec::new();
        let n = self.sentence.len();
        let mut i: usize = 0;
        while i < n
            invariant
                n == self.sentence@.len(),
                i <= n,
                next@ == rewrite_all(self.sentence@.take(i as int), self.parameters),
            decreases n - i,
        {
            let mut produced = leaf_rule(self.sentence[i], &self.parameters);
            proof {
                let s = self.sentence@.take(i as int + 1);
                assert(s.drop_last() =~= self.sentence@.take(i as int));
                assert(s.last() == self.sentence@[i as int]);
            }
            next.append(&mut produced);
            i = i + 1;
        }
        assert(self.sentence@.take(n as int) =~= self.sentence@);
        self.sentence = next;
    }

    /// Steps `n` times from the current sentence and returns the result.
    pub fn nth(&mut self, n: usize) -> (r: Vec<Leaf>)
        ensures
            r@ == generation(old(self).sentence@, old(self).parameters, n as nat),
            final(self).sentence@ == r@,
            final(self).parameters == old(self).parameters,
    {
        let mut k: usize = 0;
        while k < n
            invariant
                k <= n,
                self.parameters == old(self).parameters,
                self.sentence@ == generation(old(self).sentence@, self.parameters, k as nat),
            decreases n - k,
        {
            self.step();
            k = k + 1;
        }
        let mut r: Vec<Leaf> = Vec::new();
        let mut i: usize = 0;
        while i < self.sentence.len()
            invariant
                i <= self.sentence@.len(),
                r@ == self.sentence@.take(i as int),
            decreases self.sentence@.len() - i,
        {
            r.push(self.sentence[i]);
            i = i + 1;
            assert(r@ =~= self.sentence@.take(i as int));
        }
        assert(self.sentence@.take(i as int) =~= self.sentence@);
        r
    }
}

/// Length of a main-axis move when it appears.
pub const MAIN_APEX_LENGTH: i64 = 4 * UNIT;
/// Growth rate of main-axis moves: 1.1.
pub const MAIN_APEX_GROWTH_RATE: i64 = 1_100_000;
/// Length of a side-axis move when it appears.
pub const SIDE_APEX_LENGTH: i64 = UNIT;
/// Growth rate of side-axis moves: 1.2.
pub const SIDE_APEX_GROWTH_RATE: i64 = 1_200_000;
/// Length of a notch move when it appears.
pub const NOTCH_LENGTH: i64 = UNIT;
/// Growth rate of notch moves: notches keep their length.
pub const NOTCH_GROWTH_RATE: i64 = UNIT;
/// What a potential loses at each step.
pub const POTENTIAL_DECREMENT: i64 = UNIT;

/// The simple leaf: two mirrored main axes, with the constants above.
pub fn create_l_system() -> (r: LSystem)
    ensures
        r.sentence@ == start_sentence(),
        r.parameters == (LeafParameters {
            main_apex_length: MAIN_APEX_LENGTH,
            main_apex_growth_rate: MAIN_APEX_GROWTH_RATE,
            side_apex_length: SIDE_APEX_LENGTH,
            side_apex_growth_rate: SIDE_APEX_GROWTH_RATE,
            notch_length: NOTCH_LENGTH,
            notch_growth_rate: NOTCH_GROWTH_RATE,
            potential_decrement: POTENTIAL_DECREMENT,
        }),
{
    let parameters = LeafParameters::new(
        MAIN_APEX_LENGTH,
        MAIN_APEX_GROWTH_RATE,
        SIDE_APEX_LENGTH,
        SIDE_APEX_GROWTH_RATE,
        NOTCH_LENGTH,
        NOTCH_GROWTH_RATE,
        POTENTIAL_DECREMENT,
    );
    LSystem::new(leaf_start(), parameters)
}

} // verus!
