//! Generated sentences keep their stacks balanced.
use vstd::prelude::*;
use crate::fixed::{clamp, UNIT};
use crate::leaf::{main_apex_template, rewrite, start_sentence, Leaf, LeafParameters};
use crate::l_system::{count_where, generation, lemma_count_concat, rewrite_all};
use crate::turtle::{balanced, commands_of, run, Turtle, TurtleInterpretation};
use crate::growth::{ind, lemma_count_pair, lemma_count_take_step, lemma_count_seventeen, lemma_count_single};

verus! {

/// Saved poses minus restored ones.
pub open spec fn pose_balance(s: Seq<Leaf>) -> int {
    count_where(s, |l: Leaf| l is Save) - count_where(s, |l: Leaf| l is Load)
}

/// Opened polygons minus closed ones.
pub open spec fn polygon_balance(s: Seq<Leaf>) -> int {
    count_where(s, |l: Leaf| l is Pile) - count_where(s, |l: Leaf| l is Depile)
}

/// Counting over every prefix, one letter at a time.
proof fn lemma_count_prefixes(r: Seq<Leaf>, f: spec_fn(Leaf) -> bool)
    ensures
        count_where(r.take(0), f) == 0,
        forall|k: int|
            0 < k <= r.len() ==> #[trigger] count_where(r.take(k), f) == count_where(r.take(k - 1), f)
                + ind(f(r[k - 1])),
{
    assert(r.take(0) =~= Seq::<Leaf>::empty());
    assert forall|k: int| 0 < k <= r.len() implies #[trigger] count_where(r.take(k), f) == count_where(
        r.take(k - 1),
        f,
    ) + ind(f(r[k - 1])) by {
        lemma_count_take_step(r, k, f);
    }
}

/// One growth event of the main axis saves and restores two poses, and
/// closes and reopens one polygon.
proof fn lemma_template_balance(time: i64, direction: bool, p: LeafParameters)
    ensures
        pose_balance(main_apex_template(time, direction, p)) == 0,
        polygon_balance(main_apex_template(time, direction, p)) == 0,
{
    let r = main_apex_template(time, direction, p);
    lemma_count_seventeen(r, |l: Leaf| l is Save);
    lemma_count_seventeen(r, |l: Leaf| l is Load);
    lemma_count_seventeen(r, |l: Leaf| l is Pile);
    lemma_count_seventeen(r, |l: Leaf| l is Depile);
}

/// A letter's rewrite opens and closes as much as the letter itself.
proof fn lemma_rewrite_keeps_balance(x: Leaf, p: LeafParameters)
    ensures
        pose_balance(rewrite(x, p)) == pose_balance(seq![x]),
        polygon_balance(rewrite(x, p)) == polygon_balance(seq![x]),
{
    let fs = |l: Leaf| l is Save;
    let fl = |l: Leaf| l is Load;
    let fp = |l: Leaf| l is Pile;
    let fd = |l: Leaf| l is Depile;
    lemma_count_single(x, fs);
    lemma_count_single(x, fl);
    lemma_count_single(x, fp);
    lemma_count_single(x, fd);
    match x {
        Leaf::MainApex(time, direction) => {
            lemma_template_balance(time, direction, p);
        },
        Leaf::SideApex(time) => {
            if time > UNIT {
                let g = Leaf::Grow(p.side_apex_length, p.side_apex_growth_rate, None);
                let b = Leaf::SideApex(clamp(time - p.potential_decrement) as i64);
                lemma_count_pair(g, b, fs);
                lemma_count_pair(g, b, fl);
                lemma_count_pair(g, b, fp);
                lemma_count_pair(g, b, fd);
            }
        },
        _ => {
            let y = rewrite(x, p)[0];
            assert(rewrite(x, p) =~= seq![y]);
            lemma_count_single(y, fs);
            lemma_count_single(y, fl);
            lemma_count_single(y, fp);
            lemma_count_single(y, fd);
        },
    }
}

/// One step keeps both balances.
pub proof fn lemma_rewrite_all_keeps_balance(s: Seq<Leaf>, p: LeafParameters)
    ensures
        pose_balance(rewrite_all(s, p)) == pose_balance(s),
        polygon_balance(rewrite_all(s, p)) == polygon_balance(s),
    decreases s.len(),
{
    if s.len() > 0 {
        let a = rewrite_all(s.drop_last(), p);
        let b = rewrite(s.last(), p);
        lemma_rewrite_all_keeps_balance(s.drop_last(), p);
        lemma_rewrite_keeps_balance(s.last(), p);
        lemma_count_concat(a, b, |l: Leaf| l is Save);
        lemma_count_concat(a, b, |l: Leaf| l is Load);
        lemma_count_concat(a, b, |l: Leaf| l is Pile);
        lemma_count_concat(a, b, |l: Leaf| l is Depile);
        lemma_count_single(s.last(), |l: Leaf| l is Save);
        lemma_count_single(s.last(), |l: Leaf| l is Load);
        lemma_count_single(s.last(), |l: Leaf| l is Pile);
        lemma_count_single(s.last(), |l: Leaf| l is Depile);
    }
}

/// Every generation of the leaf grammar, after any number of steps, saves as
/// many poses as it restores and opens as many polygons as it closes.
pub proof fn law_generations_balance(p: LeafParameters, n: nat)
    ensures
        pose_balance(generation(start_sentence(), p, n)) == 0,
        polygon_balance(generation(start_sentence(), p, n)) == 0,
    decreases n,
{
    if n == 0 {
        let s = start_sentence();
        lemma_count_prefixes(s, |l: Leaf| l is Save);
        lemma_count_prefixes(s, |l: Leaf| l is Load);
        lemma_count_prefixes(s, |l: Leaf| l is Pile);
        lemma_count_prefixes(s, |l: Leaf| l is Depile);
        assert(s.take(12) =~= s);
    } else {
        law_generations_balance(p, (n - 1) as nat);
        lemma_rewrite_all_keeps_balance(generation(start_sentence(), p, (n - 1) as nat), p);
    }
}

/// Read from stack depths `a` (poses) and `b` (polygons), no prefix of `s`
/// pops an empty stack, and every main apex stands inside an open polygon.
pub open spec fn well_nested(s: Seq<Leaf>, a: int, b: int) -> bool
    decreases s.len(),
{
    if s.len() == 0 {
        true
    } else {
        &&& well_nested(s.drop_last(), a, b)
        &&& a + pose_balance(s) >= 0
        &&& b + polygon_balance(s) >= 0
        &&& s.last() is MainApex ==> b + polygon_balance(s.drop_last()) >= 1
    }
}

/// Both balances over every prefix, one letter at a time.
proof fn lemma_balance_prefixes(r: Seq<Leaf>)
    ensures
        pose_balance(r.take(0)) == 0,
        polygon_balance(r.take(0)) == 0,
        forall|k: int|
            0 < k <= r.len() ==> #[trigger] pose_balance(r.take(k)) == pose_balance(r.take(k - 1))
                + ind(r[k - 1] is Save) - ind(r[k - 1] is Load),
        forall|k: int|
            0 < k <= r.len() ==> #[trigger] polygon_balance(r.take(k)) == polygon_balance(r.take(k - 1))
                + ind(r[k - 1] is Pile) - ind(r[k - 1] is Depile),
{
    lemma_count_prefixes(r, |l: Leaf| l is Save);
    lemma_count_prefixes(r, |l: Leaf| l is Load);
    lemma_count_prefixes(r, |l: Leaf| l is Pile);
    lemma_count_prefixes(r, |l: Leaf| l is Depile);
}

/// Nesting over every prefix, one letter at a time.
proof fn lemma_nesting_prefixes(r: Seq<Leaf>, a: int, b: int)
    ensures
        well_nested(r.take(0), a, b),
        forall|k: int|
            0 < k <= r.len() ==> #[trigger] well_nested(r.take(k), a, b) == (well_nested(r.take(k - 1), a, b)
                && a + pose_balance(r.take(k)) >= 0 && b + polygon_balance(r.take(k)) >= 0 && (
            r[k - 1] is MainApex ==> b + polygon_balance(r.take(k - 1)) >= 1)),
{
    assert(r.take(0) =~= Seq::<Leaf>::empty());
    assert forall|k: int| 0 < k <= r.len() implies #[trigger] well_nested(r.take(k), a, b) == (
    well_nested(r.take(k - 1), a, b) && a + pose_balance(r.take(k)) >= 0 && b + polygon_balance(
        r.take(k),
    ) >= 0 && (r[k - 1] is MainApex ==> b + polygon_balance(r.take(k - 1)) >= 1)) by {
        assert(r.take(k).drop_last() =~= r.take(k - 1));
        assert(r.take(k).last() == r[k - 1]);
    }
}

/// A well-nested sequence followed by one that is well nested from where the
/// first one leaves the stacks.
proof fn lemma_nesting_concat(x: Seq<Leaf>, y: Seq<Leaf>, a: int, b: int)
    requires
        well_nested(x, a, b),
        well_nested(y, a + pose_balance(x), b + polygon_balance(x)),
    ensures
        well_nested(x + y, a, b),
    decreases y.len(),
{
    if y.len() == 0 {
        assert(x + y =~= x);
    } else {
        let y1 = y.drop_last();
        lemma_nesting_concat(x, y1, a, b);
        assert((x + y).drop_last() =~= x + y1);
        assert((x + y).last() == y.last());
        lemma_count_concat(x, y, |l: Leaf| l is Save);
        lemma_count_concat(x, y, |l: Leaf| l is Load);
        lemma_count_concat(x, y, |l: Leaf| l is Pile);
        lemma_count_concat(x, y, |l: Leaf| l is Depile);
        lemma_count_concat(x, y1, |l: Leaf| l is Pile);
        lemma_count_concat(x, y1, |l: Leaf| l is Depile);
    }
}

/// One growth event of the main axis may stand wherever its apex stood:
/// inside an open polygon.
proof fn lemma_template_nesting(time: i64, direction: bool, p: LeafParameters, a: int, b: int)
    requires
        a >= 0,
        b >= 1,
    ensures
        well_nested(main_apex_template(time, direction, p), a, b),
{
    let r = main_apex_template(time, direction, p);
    lemma_nesting_prefixes(r, a, b);
    lemma_balance_prefixes(r);
    assert(r.take(17) =~= r);
}

/// A letter that may stand at depths `a` and `b` may be replaced by its rewrite.
proof fn lemma_rewrite_nesting(x: Leaf, p: LeafParameters, a: int, b: int)
    requires
        well_nested(seq![x], a, b),
    ensures
        well_nested(rewrite(x, p), a, b),
{
    let s1 = seq![x];
    lemma_nesting_prefixes(s1, a, b);
    lemma_balance_prefixes(s1);
    assert(s1.take(1) =~= s1);
    match x {
        Leaf::MainApex(time, direction) => {
            lemma_template_nesting(time, direction, p, a, b);
        },
        Leaf::SideApex(time) => {
            let r = rewrite(x, p);
            lemma_nesting_prefixes(r, a, b);
            lemma_balance_prefixes(r);
            assert(r.take(r.len() as int) =~= r);
        },
        _ => {
            let r = rewrite(x, p);
            lemma_nesting_prefixes(r, a, b);
            lemma_balance_prefixes(r);
            assert(r.take(1) =~= r);
        },
    }
}

/// Rewriting keeps a sentence well nested.
proof fn lemma_rewrite_all_nesting(s: Seq<Leaf>, p: LeafParameters, a: int, b: int)
    requires
        well_nested(s, a, b),
    ensures
        well_nested(rewrite_all(s, p), a, b),
    decreases s.len(),
{
    if s.len() > 0 {
        let s1 = s.drop_last();
        let x = s.last();
        lemma_rewrite_all_nesting(s1, p, a, b);
        assert(s =~= s1 + seq![x]);
        let a1 = a + pose_balance(s1);
        let b1 = b + polygon_balance(s1);
        lemma_count_concat(s1, seq![x], |l: Leaf| l is Save);
        lemma_count_concat(s1, seq![x], |l: Leaf| l is Load);
        lemma_count_concat(s1, seq![x], |l: Leaf| l is Pile);
        lemma_count_concat(s1, seq![x], |l: Leaf| l is Depile);
        lemma_nesting_prefixes(seq![x], a1, b1);
        lemma_balance_prefixes(seq![x]);
        assert(seq![x].take(1) =~= seq![x]);
        lemma_rewrite_nesting(x, p, a1, b1);
        lemma_rewrite_all_keeps_balance(s1, p);
        lemma_nesting_concat(rewrite_all(s1, p), rewrite(x, p), a, b);
    }
}

/// Reading a sentence that is well nested from empty stacks never underflows,
/// and leaves as many saved poses and open polygons as its balances say.
proof fn lemma_nested_runs(s: Seq<Leaf>)
    requires
        well_nested(s, 0, 0),
    ensures
        run(commands_of(s)) is Ok,
        run(commands_of(s))->Ok_0.poses.len() == pose_balance(s),
        run(commands_of(s))->Ok_0.saved.len() == polygon_balance(s),
    decreases s.len(),
{
    if s.len() == 0 {
        assert(commands_of(s) =~= Seq::<Turtle>::empty());
    } else {
        let s1 = s.drop_last();
        lemma_nested_runs(s1);
        assert(commands_of(s).drop_last() =~= commands_of(s1));
        assert(commands_of(s).last() == s.last().turtle_spec());
        lemma_count_single(s.last(), |l: Leaf| l is Save);
        lemma_count_single(s.last(), |l: Leaf| l is Load);
        lemma_count_single(s.last(), |l: Leaf| l is Pile);
        lemma_count_single(s.last(), |l: Leaf| l is Depile);
        assert(s =~= s1 + seq![s.last()]);
        lemma_count_concat(s1, seq![s.last()], |l: Leaf| l is Save);
        lemma_count_concat(s1, seq![s.last()], |l: Leaf| l is Load);
        lemma_count_concat(s1, seq![s.last()], |l: Leaf| l is Pile);
        lemma_count_concat(s1, seq![s.last()], |l: Leaf| l is Depile);
    }
}

/// The turtle reads every generation of the leaf grammar, after any number of
/// steps, without popping an empty stack, and ends with every saved pose
/// restored and every opened polygon closed.
pub proof fn law_generations_draw_cleanly(p: LeafParameters, n: nat)
    ensures
        balanced(commands_of(generation(start_sentence(), p, n))),
{
    lemma_generations_nested(p, n);
    law_generations_balance(p, n);
    lemma_nested_runs(generation(start_sentence(), p, n));
}

proof fn lemma_generations_nested(p: LeafParameters, n: nat)
    ensures
        well_nested(generation(start_sentence(), p, n), 0, 0),
    decreases n,
{
    if n == 0 {
        let s = start_sentence();
        lemma_nesting_prefixes(s, 0, 0);
        lemma_balance_prefixes(s);
        assert(s.take(12) =~= s);
    } else {
        lemma_generations_nested(p, (n - 1) as nat);
        lemma_rewrite_all_nesting(generation(start_sentence(), p, (n - 1) as nat), p, 0, 0);
    }
}

} // verus!
