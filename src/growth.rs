//! What rewriting does to sentence length and to the lengths of moves.
use vstd::prelude::*;
use vstd::arithmetic::power::pow;
use crate::fixed::{clamp, scaled_product, UNIT};
use crate::leaf::{is_apex, rewrite, start_sentence, Leaf, LeafParameters};
use crate::l_system::{count_where, generation, lemma_count_concat, rewrite_all};

verus! {

/// The letters that the turtle reads: all but the apexes.
pub open spec fn is_terminal(l: Leaf) -> bool {
    !is_apex(l)
}

/// The number of terminal letters of `s`.
pub open spec fn terminal_count(s: Seq<Leaf>) -> nat {
    count_where(s, |l: Leaf| is_terminal(l))
}

/// The number of main apexes of `s`.
pub open spec fn main_apex_count(s: Seq<Leaf>) -> nat {
    count_where(s, |l: Leaf| l is MainApex)
}

/// Counting over a single letter.
pub proof fn lemma_count_single(x: Leaf, f: spec_fn(Leaf) -> bool)
    ensures
        count_where(seq![x], f) == if f(x) { 1nat } else { 0nat },
{
    assert(seq![x].drop_last() =~= Seq::<Leaf>::empty());
    assert(seq![x].last() == x);
    assert(count_where(Seq::<Leaf>::empty(), f) == 0);
}

/// Counting over two letters.
pub proof fn lemma_count_pair(x: Leaf, y: Leaf, f: spec_fn(Leaf) -> bool)
    ensures
        count_where(seq![x, y], f) == (if f(x) { 1nat } else { 0nat }) + (if f(y) { 1nat } else { 0nat }),
{
    assert(seq![x, y] =~= seq![x] + seq![y]);
    lemma_count_concat(seq![x], seq![y], f);
    lemma_count_single(x, f);
    lemma_count_single(y, f);
}

/// Counting over one more letter of `r`.
pub proof fn lemma_count_take_step(r: Seq<Leaf>, n: int, f: spec_fn(Leaf) -> bool)
    requires
        0 < n <= r.len(),
    ensures
        count_where(r.take(n), f) == count_where(r.take(n - 1), f) + if f(r[n - 1]) { 1nat } else { 0nat },
{
    assert(r.take(n).drop_last() =~= r.take(n - 1));
    assert(r.take(n).last() == r[n - 1]);
}

/// 1 where `b` holds, else 0.
pub open spec fn ind(b: bool) -> nat {
    if b { 1 } else { 0 }
}

/// Counting over a sequence of seventeen letters, one by one.
pub proof fn lemma_count_seventeen(r: Seq<Leaf>, f: spec_fn(Leaf) -> bool)
    requires
        r.len() == 17,
    ensures
        count_where(r, f) == ind(f(r[0])) + ind(f(r[1])) + ind(f(r[2])) + ind(f(r[3])) + ind(f(r[4]))
            + ind(f(r[5])) + ind(f(r[6])) + ind(f(r[7])) + ind(f(r[8])) + ind(f(r[9]))
            + ind(f(r[10])) + ind(f(r[11])) + ind(f(r[12])) + ind(f(r[13])) + ind(f(r[14]))
            + ind(f(r[15])) + ind(f(r[16])),
{
    lemma_count_take_step(r, 1, f);
    lemma_count_take_step(r, 2, f);
    lemma_count_take_step(r, 3, f);
    lemma_count_take_step(r, 4, f);
    lemma_count_take_step(r, 5, f);
    lemma_count_take_step(r, 6, f);
    lemma_count_take_step(r, 7, f);
    lemma_count_take_step(r, 8, f);
    lemma_count_take_step(r, 9, f);
    lemma_count_take_step(r, 10, f);
    lemma_count_take_step(r, 11, f);
    lemma_count_take_step(r, 12, f);
    lemma_count_take_step(r, 13, f);
    lemma_count_take_step(r, 14, f);
    lemma_count_take_step(r, 15, f);
    lemma_count_take_step(r, 16, f);
    lemma_count_take_step(r, 17, f);
    assert(r.take(0) =~= Seq::<Leaf>::empty());
    assert(r.take(17) =~= r);
}

/// A letter's rewrite holds at least as many terminals as the letter, and
/// fourteen more where the letter is a main apex.
proof fn lemma_rewrite_terminals(x: Leaf, p: LeafParameters)
    ensures
        terminal_count(rewrite(x, p)) >= terminal_count(seq![x]) + if x is MainApex { 14nat } else { 0nat },
{
    let f = |l: Leaf| is_terminal(l);
    lemma_count_single(x, f);
    match x {
        Leaf::MainApex(time, direction) => {
            let r = rewrite(x, p);
            assert(r.len() == 17);
            lemma_count_seventeen(r, f);
        },
        Leaf::SideApex(time) => {
            if time > UNIT {
                lemma_count_pair(
                    Leaf::Grow(p.side_apex_length, p.side_apex_growth_rate, None),
                    Leaf::SideApex(clamp(time - p.potential_decrement) as i64),
                    f,
                );
            }
        },
        _ => {},
    }
}

/// One step adds at least fourteen terminals per main apex.
proof fn lemma_rewrite_all_terminals(s: Seq<Leaf>, p: LeafParameters)
    ensures
        terminal_count(rewrite_all(s, p)) >= terminal_count(s) + 14 * main_apex_count(s),
    decreases s.len(),
{
    if s.len() > 0 {
        let f = |l: Leaf| is_terminal(l);
        lemma_rewrite_all_terminals(s.drop_last(), p);
        lemma_count_concat(rewrite_all(s.drop_last(), p), rewrite(s.last(), p), f);
        lemma_rewrite_terminals(s.last(), p);
        lemma_count_single(s.last(), f);
    }
}

/// Rewriting a sentence that holds a main apex strictly increases its number
/// of terminal letters: each main apex adds at least fourteen.
pub proof fn law_terminals_grow(s: Seq<Leaf>, p: LeafParameters)
    requires
        main_apex_count(s) > 0,
    ensures
        terminal_count(rewrite_all(s, p)) > terminal_count(s),
        terminal_count(rewrite_all(s, p)) >= terminal_count(s) + 14 * main_apex_count(s),
{
    lemma_rewrite_all_terminals(s, p);
}

/// A letter's rewrite holds a main apex exactly where the letter is one.
proof fn lemma_rewrite_main_apexes(x: Leaf, p: LeafParameters)
    ensures
        main_apex_count(rewrite(x, p)) == main_apex_count(seq![x]),
{
    let f = |l: Leaf| l is MainApex;
    lemma_count_single(x, f);
    match x {
        Leaf::MainApex(time, direction) => {
            lemma_count_seventeen(rewrite(x, p), f);
        },
        Leaf::SideApex(time) => {
            if time > UNIT {
                lemma_count_pair(
                    Leaf::Grow(p.side_apex_length, p.side_apex_growth_rate, None),
                    Leaf::SideApex(clamp(time - p.potential_decrement) as i64),
                    f,
                );
            }
        },
        _ => {
            let y = rewrite(x, p)[0];
            assert(rewrite(x, p) =~= seq![y]);
            lemma_count_single(y, f);
        },
    }
}

/// One step keeps the number of main apexes.
proof fn lemma_rewrite_all_main_apexes(s: Seq<Leaf>, p: LeafParameters)
    ensures
        main_apex_count(rewrite_all(s, p)) == main_apex_count(s),
    decreases s.len(),
{
    if s.len() > 0 {
        let f = |l: Leaf| l is MainApex;
        lemma_rewrite_all_main_apexes(s.drop_last(), p);
        lemma_count_concat(rewrite_all(s.drop_last(), p), rewrite(s.last(), p), f);
        lemma_rewrite_main_apexes(s.last(), p);
        lemma_count_single(s.last(), f);
    }
}

/// Every generation of the leaf grammar keeps its two main apexes, so each
/// step adds at least twenty-eight terminal letters.
pub proof fn law_generations_grow(p: LeafParameters, n: nat)
    ensures
        main_apex_count(generation(start_sentence(), p, n)) == 2,
        terminal_count(generation(start_sentence(), p, n + 1)) >= terminal_count(
            generation(start_sentence(), p, n),
        ) + 28,
    decreases n,
{
    if n == 0 {
        let s = start_sentence();
        let f = |l: Leaf| l is MainApex;
        let a = seq![Leaf::Save, Leaf::Pile, Leaf::MainApex(0, true), Leaf::Vertex, Leaf::Depile, Leaf::Load];
        let b = seq![Leaf::Save, Leaf::Pile, Leaf::MainApex(0, false), Leaf::Vertex, Leaf::Depile, Leaf::Load];
        assert(s =~= a + b);
        lemma_count_concat(a, b, f);
        assert(a =~= seq![Leaf::Save, Leaf::Pile] + seq![Leaf::MainApex(0, true), Leaf::Vertex] + seq![Leaf::Depile, Leaf::Load]);
        assert(b =~= seq![Leaf::Save, Leaf::Pile] + seq![Leaf::MainApex(0, false), Leaf::Vertex] + seq![Leaf::Depile, Leaf::Load]);
        lemma_count_concat(seq![Leaf::Save, Leaf::Pile] + seq![Leaf::MainApex(0, true), Leaf::Vertex], seq![Leaf::Depile, Leaf::Load], f);
        lemma_count_concat(seq![Leaf::Save, Leaf::Pile], seq![Leaf::MainApex(0, true), Leaf::Vertex], f);
        lemma_count_concat(seq![Leaf::Save, Leaf::Pile] + seq![Leaf::MainApex(0, false), Leaf::Vertex], seq![Leaf::Depile, Leaf::Load], f);
        lemma_count_concat(seq![Leaf::Save, Leaf::Pile], seq![Leaf::MainApex(0, false), Leaf::Vertex], f);
        lemma_count_pair(Leaf::Save, Leaf::Pile, f);
        lemma_count_pair(Leaf::MainApex(0, true), Leaf::Vertex, f);
        lemma_count_pair(Leaf::MainApex(0, false), Leaf::Vertex, f);
        lemma_count_pair(Leaf::Depile, Leaf::Load, f);
    } else {
        law_generations_grow(p, (n - 1) as nat);
        lemma_rewrite_all_main_apexes(generation(start_sentence(), p, (n - 1) as nat), p);
    }
    lemma_rewrite_all_terminals(generation(start_sentence(), p, n), p);
}

/// The length of a move of length `length` and rate `rate` after `k` steps.
pub open spec fn grown(length: int, rate: int, k: nat) -> int
    decreases k,
{
    if k == 0 {
        length
    } else {
        scaled_product(grown(length, rate, (k - 1) as nat), rate)
    }
}

/// The same steps without the bounds of `i64`: rounded down each time.
pub open spec fn floored(length: int, rate: int, k: nat) -> int
    decreases k,
{
    if k == 0 {
        length
    } else {
        (floored(length, rate, (k - 1) as nat) * rate) / (UNIT as int)
    }
}

/// How far `k` rounded steps may fall below the exact product, in units of
/// `UNIT^k`: the sum of `rate^i * UNIT^(k - i)` over `i < k`.
pub open spec fn rounding_allowance(rate: int, k: nat) -> int
    decreases k,
{
    if k == 0 {
        0
    } else {
        rate * rounding_allowance(rate, (k - 1) as nat) + pow(UNIT as int, k)
    }
}

/// One letter rewritten alone.
pub proof fn lemma_rewrite_all_single(x: Leaf, p: LeafParameters)
    ensures
        rewrite_all(seq![x], p) == rewrite(x, p),
{
    assert(seq![x].drop_last() =~= Seq::<Leaf>::empty());
    assert(seq![x].last() == x);
    assert(rewrite_all(Seq::<Leaf>::empty(), p) == Seq::<Leaf>::empty());
    assert(Seq::<Leaf>::empty() + rewrite(x, p) =~= rewrite(x, p));
}

/// `k + 1` steps are one step followed by `k` steps.
pub proof fn lemma_generation_first_step(s: Seq<Leaf>, p: LeafParameters, k: nat)
    ensures
        generation(s, p, k + 1) == generation(rewrite_all(s, p), p, k),
    decreases k,
{
    assert(generation(s, p, k + 1) == rewrite_all(generation(s, p, k), p));
    if k > 0 {
        lemma_generation_first_step(s, p, (k - 1) as nat);
        assert(generation(rewrite_all(s, p), p, k) == rewrite_all(
            generation(rewrite_all(s, p), p, (k - 1) as nat),
            p,
        ));
    }
}

/// A move without potential grows by its rate at every step: after `k` steps
/// its length is the start length multiplied `k` times by the rate, each
/// product rounded down to the fixed-point grid and held within `i64`.
pub proof fn law_growth_compounds(length: i64, rate: i64, p: LeafParameters, k: nat)
    ensures
        generation(seq![Leaf::Grow(length, rate, None)], p, k) == seq![
            Leaf::Grow(grown(length as int, rate as int, k) as i64, rate, None),
        ],
        i64::MIN <= grown(length as int, rate as int, k) <= i64::MAX,
    decreases k,
{
    if k > 0 {
        law_growth_compounds(length, rate, p, (k - 1) as nat);
        let g = grown(length as int, rate as int, (k - 1) as nat);
        lemma_rewrite_all_single(Leaf::Grow(g as i64, rate, None), p);
    }
}

/// Without saturation, the stored length after `k` steps stays within
/// `rounding_allowance(|rate|, k)` of the exact compounded length, both
/// scaled by `UNIT^k`: `length * rate^k - grown * UNIT^k` lies between minus
/// and plus that allowance. In units of `1 / UNIT`, the stored length is off
/// by at most the sum of `(|rate| / UNIT)^i` over `i < k`. With a rate of zero
/// or more it never exceeds the exact length: each step rounds down.
pub proof fn law_growth_tracks_exact(length: i64, rate: i64, k: nat)
    requires
        forall|j: nat| j <= k ==> i64::MIN <= #[trigger] floored(length as int, rate as int, j) <= i64::MAX,
    ensures
        grown(length as int, rate as int, k) == floored(length as int, rate as int, k),
        -rounding_allowance(if rate < 0 { -rate } else { rate as int }, k) <= length * pow(rate as int, k)
            - grown(length as int, rate as int, k) * pow(UNIT as int, k),
        length * pow(rate as int, k) - grown(length as int, rate as int, k) * pow(UNIT as int, k)
            <= rounding_allowance(if rate < 0 { -rate } else { rate as int }, k),
        rate >= 0 ==> 0 <= length * pow(rate as int, k) - grown(length as int, rate as int, k) * pow(
            UNIT as int,
            k,
        ),
    decreases k,
{
    let l = length as int;
    let r = rate as int;
    let ar: int = if rate < 0 { -rate } else { rate as int };
    let u = UNIT as int;
    if k == 0 {
        assert(pow(r, 0) == 1 && pow(u, 0) == 1) by {
            reveal(pow);
        }
    } else {
        let k1 = (k - 1) as nat;
        law_growth_tracks_exact(length, rate, k1);
        let x = floored(l, r, k1);
        let y = floored(l, r, k);
        assert(y == (x * r) / u);
        let m = x * r - u * y;
        assert(0 <= m < u) by {
            assert(u > 0);
        }
        let rk1 = pow(r, k1);
        let uk1 = pow(u, k1);
        assert(pow(r, k) == r * rk1 && pow(u, k) == u * uk1) by {
            reveal(pow);
        }
        vstd::arithmetic::power::lemma_pow_positive(u, k1);
        let e1 = l * rk1 - x * uk1;
        let a1 = rounding_allowance(ar, k1);
        assert(-a1 <= e1 <= a1);
        assert(l * (r * rk1) == r * (l * rk1)) by (nonlinear_arith);
        assert(y * (u * uk1) == (u * y) * uk1) by (nonlinear_arith);
        assert(r * (e1 + x * uk1) == r * e1 + r * (x * uk1)) by (nonlinear_arith);
        assert((x * r - m) * uk1 == (x * r) * uk1 - m * uk1) by (nonlinear_arith);
        assert(r * (x * uk1) == (x * r) * uk1) by (nonlinear_arith);
        assert(l * (r * rk1) - y * (u * uk1) == r * e1 + m * uk1);
        assert(-(ar * a1) <= r * e1 <= ar * a1) by (nonlinear_arith)
            requires
                ar == r || ar == -r,
                ar >= 0,
                -a1 <= e1 <= a1,
        ;
        assert(r >= 0 && e1 >= 0 ==> r * e1 >= 0) by (nonlinear_arith);
        assert(0 <= m * uk1 <= u * uk1) by (nonlinear_arith)
            requires
                0 <= m < u,
                uk1 > 0,
        ;
        assert(rounding_allowance(ar, k) == ar * a1 + u * uk1);
        assert(grown(l, r, k1) == x);
        assert(i64::MIN <= y <= i64::MAX);
        assert(grown(l, r, k) == clamp(y));
    }
}

/// A move whose potential is one or less no longer changes, whatever the
/// number of further steps.
pub proof fn law_spent_potential_freezes(length: i64, rate: i64, time: i64, p: LeafParameters, k: nat)
    requires
        time <= UNIT,
    ensures
        generation(seq![Leaf::Grow(length, rate, Some(time))], p, k) == seq![
            Leaf::Grow(length, rate, Some(time)),
        ],
    decreases k,
{
    if k > 0 {
        law_spent_potential_freezes(length, rate, time, p, (k - 1) as nat);
        lemma_rewrite_all_single(Leaf::Grow(length, rate, Some(time)), p);
    }
}

/// While its potential exceeds one, a move grows at each step and its
/// potential falls by the decrement; with a positive decrement it falls
/// strictly.
pub proof fn law_potential_decays(length: i64, rate: i64, time: i64, p: LeafParameters)
    requires
        time > UNIT,
    ensures
        rewrite_all(seq![Leaf::Grow(length, rate, Some(time))], p) == seq![
            Leaf::Grow(
                scaled_product(length as int, rate as int) as i64,
                rate,
                Some(clamp(time - p.potential_decrement) as i64),
            ),
        ],
        p.potential_decrement > 0 ==> clamp(time - p.potential_decrement) < time,
{
    lemma_rewrite_all_single(Leaf::Grow(length, rate, Some(time)), p);
}

/// `s` is a single move whose potential is one or less.
pub open spec fn is_spent_move(s: Seq<Leaf>) -> bool {
    &&& s.len() == 1
    &&& s[0] matches Leaf::Grow(_, _, Some(t)) && t <= UNIT
}

/// `k + j` steps are `k` steps followed by `j` steps.
pub proof fn lemma_generation_add(s: Seq<Leaf>, p: LeafParameters, k: nat, j: nat)
    ensures
        generation(s, p, k + j) == generation(generation(s, p, k), p, j),
    decreases j,
{
    if j > 0 {
        lemma_generation_add(s, p, k, (j - 1) as nat);
        assert(generation(s, p, k + j) == rewrite_all(generation(s, p, (k + j - 1) as nat), p));
    }
}

proof fn lemma_potential_reaches_one(length: i64, rate: i64, time: i64, p: LeafParameters)
    requires
        p.potential_decrement > 0,
    ensures
        exists|k: nat| is_spent_move(#[trigger] generation(seq![Leaf::Grow(length, rate, Some(time))], p, k)),
    decreases if time > UNIT { time - UNIT } else { 0 },
{
    let start = seq![Leaf::Grow(length, rate, Some(time))];
    if time <= UNIT {
        assert(is_spent_move(generation(start, p, 0)));
    } else {
        let l1 = scaled_product(length as int, rate as int) as i64;
        let t1 = clamp(time - p.potential_decrement) as i64;
        law_potential_decays(length, rate, time, p);
        lemma_potential_reaches_one(l1, rate, t1, p);
        let next = seq![Leaf::Grow(l1, rate, Some(t1))];
        let k = choose|k: nat| is_spent_move(#[trigger] generation(next, p, k));
        lemma_generation_first_step(start, p, k);
        assert(is_spent_move(generation(start, p, k + 1)));
    }
}

/// With a positive decrement, a move with a potential reaches, after finitely
/// many steps, a potential of one or less, and from then on never changes.
pub proof fn law_potential_runs_out(length: i64, rate: i64, time: i64, p: LeafParameters)
    requires
        p.potential_decrement > 0,
    ensures
        exists|k: nat|
            is_spent_move(#[trigger] generation(seq![Leaf::Grow(length, rate, Some(time))], p, k))
                && forall|j: nat|
                j >= k ==> #[trigger] generation(seq![Leaf::Grow(length, rate, Some(time))], p, j)
                    == generation(seq![Leaf::Grow(length, rate, Some(time))], p, k),
{
    let start = seq![Leaf::Grow(length, rate, Some(time))];
    lemma_potential_reaches_one(length, rate, time, p);
    let k = choose|k: nat| is_spent_move(#[trigger] generation(start, p, k));
    let g = generation(start, p, k);
    let (l, t) = match g[0] {
        Leaf::Grow(l, _, Some(t)) => (l, t),
        _ => (0, 0),
    };
    assert(g =~= seq![Leaf::Grow(l, rate, Some(t))]) by {
        lemma_grow_keeps_rate(start, p, k, rate);
    }
    assert forall|j: nat| j >= k implies #[trigger] generation(start, p, j) == g by {
        lemma_generation_add(start, p, k, (j - k) as nat);
        law_spent_potential_freezes(l, rate, t, p, (j - k) as nat);
    }
}

/// A single move stays a single move with the same rate.
proof fn lemma_grow_keeps_rate(s: Seq<Leaf>, p: LeafParameters, k: nat, rate: i64)
    requires
        s.len() == 1,
        s[0] matches Leaf::Grow(_, r, _) && r == rate,
    ensures
        generation(s, p, k).len() == 1,
        generation(s, p, k)[0] matches Leaf::Grow(_, r, _) && r == rate,
    decreases k,
{
    if k > 0 {
        lemma_grow_keeps_rate(s, p, (k - 1) as nat, rate);
        let g = generation(s, p, (k - 1) as nat);
        assert(g =~= seq![g[0]]);
        lemma_rewrite_all_single(g[0], p);
    }
}

} // verus!
