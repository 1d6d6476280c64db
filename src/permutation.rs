//! Permutation paths: splitting a permutation into swaps, and turning rows
//! of a table into columns.
use vstd::prelude::*;

verus! {

/// The number of `false` entries.
pub open spec fn count_false(s: Seq<bool>) -> nat
    decreases s.len(),
{
    if s.len() == 0 {
        0
    } else {
        count_false(s.drop_last()) + if s.last() { 0nat } else { 1nat }
    }
}

proof fn lemma_count_false_set(s: Seq<bool>, i: int)
    requires
        0 <= i < s.len(),
        !s[i],
    ensures
        count_false(s.update(i, true)) + 1 == count_false(s),
    decreases s.len(),
{
    let u = s.update(i, true);
    if i < s.len() - 1 {
        assert(u.drop_last() =~= s.drop_last().update(i, true));
        lemma_count_false_set(s.drop_last(), i);
    } else {
        assert(u.drop_last() =~= s.drop_last());
    }
}

/// `s` is a permutation of `0..s.len()`.
pub open spec fn is_permutation(s: Seq<usize>) -> bool {
    &&& forall|i: int| 0 <= i < s.len() ==> #[trigger] s[i] < s.len()
    &&& forall|i: int, j: int| 0 <= i < s.len() && 0 <= j < s.len() && i != j ==> #[trigger] s[i] != #[trigger] s[j]
}

/// `0, 1, ..., n - 1`.
pub open spec fn identity(n: nat) -> Seq<usize> {
    Seq::new(n, |i: int| i as usize)
}

/// `a` with the entries at the two positions of `t` exchanged.
pub open spec fn swap(a: Seq<usize>, t: (usize, usize)) -> Seq<usize> {
    a.update(t.0 as int, a[t.1 as int]).update(t.1 as int, a[t.0 as int])
}

/// `a` after each swap of `ts`, in order.
pub open spec fn apply_swaps(a: Seq<usize>, ts: Seq<(usize, usize)>) -> Seq<usize>
    decreases ts.len(),
{
    if ts.len() == 0 {
        a
    } else {
        swap(apply_swaps(a, ts.drop_last()), ts.last())
    }
}

/// Position `p` of a permutation `v` is settled: below `index`, or marked.
spec fn settled(v: Seq<usize>, marked: Seq<bool>, index: int, p: int) -> bool {
    p < index || marked[p]
}

/// The settled positions are closed under `v` and under its inverse.
spec fn settled_closed(v: Seq<usize>, marked: Seq<bool>, index: int) -> bool {
    &&& forall|p: int|
        0 <= p < v.len() && #[trigger] settled(v, marked, index, p) ==> settled(v, marked, index, v[p] as int)
    &&& forall|q: int|
        0 <= q < v.len() && settled(v, marked, index, #[trigger] v[q] as int) ==> settled(v, marked, index, q)
}

/// Position `p`, marked while following the cycle from `start`, was reached
/// from an earlier position of that cycle other than the current one.
spec fn reached_in_cycle(
    v: Seq<usize>,
    marked: Seq<bool>,
    before: Seq<bool>,
    start: int,
    current: int,
    p: int,
) -> bool {
    exists|q: int|
        0 <= q < v.len() && #[trigger] v[q] == p && q != current && (q == start || (marked[q] && !before[q]))
}

/// Following a cycle of `v` that starts at `start`, from position `value`:
/// the swaps `(value, v[value])`, `(v[value], v[v[value]])`, ... up to the
/// position whose image is `start`, and `marked` with every position reached
/// marked. It stops early at a marked position, or after `fuel` swaps.
pub open spec fn follow_cycle(
    v: Seq<usize>,
    start: int,
    value: int,
    marked: Seq<bool>,
    fuel: nat,
) -> (Seq<(usize, usize)>, Seq<bool>)
    decreases fuel,
{
    let next = v[value] as int;
    if fuel == 0 || next == start || marked[next] {
        (Seq::empty(), marked)
    } else {
        let rest = follow_cycle(v, start, next, marked.update(next, true), (fuel - 1) as nat);
        (seq![(value as usize, next as usize)] + rest.0, rest.1)
    }
}

/// The swaps of the cycles of `v` that start at `index` or later: each
/// position not yet marked starts a cycle, which is followed and marked.
pub open spec fn cycle_swaps_from(v: Seq<usize>, marked: Seq<bool>, index: nat) -> Seq<(usize, usize)>
    decreases v.len() - index,
{
    if index >= v.len() {
        Seq::empty()
    } else if marked[index as int] {
        cycle_swaps_from(v, marked, index + 1)
    } else {
        let c = follow_cycle(v, index as int, index as int, marked, v.len());
        c.0 + cycle_swaps_from(v, c.1, index + 1)
    }
}

/// The swaps of a permutation `v`, cycle by cycle: each cycle from its
/// smallest position, following `v` around it. A cycle of `m` positions
/// gives `m - 1` swaps.
pub open spec fn cycle_swaps(v: Seq<usize>) -> Seq<(usize, usize)> {
    cycle_swaps_from(v, Seq::new(v.len(), |i: int| false), 0)
}

/// No more positions are unmarked than there are positions.
proof fn lemma_count_false_bound(s: Seq<bool>)
    ensures
        count_false(s) <= s.len(),
    decreases s.len(),
{
    if s.len() > 0 {
        lemma_count_false_bound(s.drop_last());
    }
}

/// The swaps that carry `0, 1, ..., n - 1` to the permutation `vec`, cycle
/// by cycle: applied in order to the identity, they give `vec`, and each
/// exchanges a position with its image under `vec`.
pub fn compute_transpositions(vec: Vec<usize>) -> (r: Vec<(usize, usize)>)
    requires
        is_permutation(vec@),
    ensures
        r@ == cycle_swaps(vec@),
        apply_swaps(identity(vec@.len()), r@) == vec@,
        forall|k: int|
            0 <= k < r@.len() ==> (#[trigger] r@[k]).0 < vec@.len() && r@[k].1 < vec@.len() && r@[k].0
                != r@[k].1 && r@[k].1 == vec@[r@[k].0 as int],
{
    let n = vec.len();
    let ghost v = vec@;
    let mut transpositions: Vec<(usize, usize)> = Vec::new();
    let mut visited: Vec<bool> = Vec::new();
    let mut i: usize = 0;
    while i < n
        invariant
            i <= n,
            visited@.len() == i,
            forall|p: int| 0 <= p < i ==> !visited@[p],
        decreases n - i,
    {
        visited.push(false);
        i = i + 1;
    }
    assert(apply_swaps(identity(n as nat), transpositions@) == identity(n as nat));
    assert(visited@ =~= Seq::new(n as nat, |i: int| false));
    assert(transpositions@ + cycle_swaps_from(v, visited@, 0) =~= cycle_swaps(v));
    let mut index: usize = 0;
    while index < n
        invariant
            v == vec@,
            n == v.len(),
            is_permutation(v),
            visited@.len() == n,
            index <= n,
            apply_swaps(identity(n as nat), transpositions@).len() == n,
            forall|p: int|
                0 <= p < n && settled(v, visited@, index as int, p) ==> #[trigger] apply_swaps(
                    identity(n as nat),
                    transpositions@,
                )[p] == v[p],
            forall|p: int|
                0 <= p < n && !settled(v, visited@, index as int, p) ==> #[trigger] apply_swaps(
                    identity(n as nat),
                    transpositions@,
                )[p] == p,
            settled_closed(v, visited@, index as int),
            transpositions@ + cycle_swaps_from(v, visited@, index as nat) == cycle_swaps(v),
            forall|k: int|
                0 <= k < transpositions@.len() ==> (#[trigger] transpositions@[k]).0 < n
                    && transpositions@[k].1 < n && transpositions@[k].0 != transpositions@[k].1
                    && transpositions@[k].1 == v[transpositions@[k].0 as int],
        decreases n - index,
    {
        if !visited[index] {
            let ghost start = index as int;
            let ghost before = visited@;
            let ghost mut fuel: nat = n as nat;
            proof {
                lemma_count_false_bound(visited@);
            }
            let mut value = index;
            while vec[value] != index
                invariant
                    v == vec@,
                    n == v.len(),
                    is_permutation(v),
                    visited@.len() == n,
                    start == index,
                    index < n,
                    value < n,
                    before.len() == n,
                    !before[start],
                    !visited@[start],
                    settled_closed(v, before, start),
                    count_false(visited@) <= fuel,
                    transpositions@ + follow_cycle(v, start, value as int, visited@, fuel).0 + cycle_swaps_from(
                        v,
                        follow_cycle(v, start, value as int, visited@, fuel).1,
                        (start + 1) as nat,
                    ) == cycle_swaps(v),
                    forall|p: int| 0 <= p < n && before[p] ==> #[trigger] visited@[p],
                    !settled(v, before, start, value as int),
                    value == start || visited@[value as int],
                    value == start ==> visited@ == before,
                    forall|p: int|
                        0 <= p < n && #[trigger] visited@[p] && !before[p] ==> reached_in_cycle(
                            v,
                            visited@,
                            before,
                            start,
                            value as int,
                            p,
                        ),
                    forall|p: int|
                        0 <= p < n && (p == start || (#[trigger] visited@[p] && !before[p])) && p != value
                            ==> visited@[v[p] as int] && !before[v[p] as int],
                    apply_swaps(identity(n as nat), transpositions@).len() == n,
                    forall|p: int|
                        0 <= p < n && settled(v, before, start, p) ==> #[trigger] apply_swaps(
                            identity(n as nat),
                            transpositions@,
                        )[p] == v[p],
                    forall|p: int|
                        0 <= p < n && (p == start || (visited@[p] && !before[p])) && p != value
                            ==> #[trigger] apply_swaps(identity(n as nat), transpositions@)[p] == v[p],
                    apply_swaps(identity(n as nat), transpositions@)[value as int] == start,
                    forall|p: int|
                        0 <= p < n && !settled(v, visited@, start, p) && p != start && p != value
                            ==> #[trigger] apply_swaps(identity(n as nat), transpositions@)[p] == p,
                    forall|k: int|
                        0 <= k < transpositions@.len() ==> (#[trigger] transpositions@[k]).0 < n
                            && transpositions@[k].1 < n && transpositions@[k].0 != transpositions@[k].1
                            && transpositions@[k].1 == v[transpositions@[k].0 as int],
                decreases count_false(visited@),
            {
                let next = vec[value];
                assert(!visited@[next as int]) by {
                    if visited@[next as int] {
                        if before[next as int] {
                            assert(settled(v, before, start, v[value as int] as int));
                        } else {
                            assert(reached_in_cycle(v, visited@, before, start, value as int, next as int));
                        }
                    }
                }
                assert(next != value);
                let ghost a0 = apply_swaps(identity(n as nat), transpositions@);
                let ghost old_visited = visited@;
                let ghost old_t = transpositions@;
                let ghost f0 = follow_cycle(v, start, value as int, visited@, fuel);
                let ghost f1 = follow_cycle(v, start, next as int, visited@.update(next as int, true), (fuel - 1) as nat);
                proof {
                    lemma_count_false_set(visited@, next as int);
                }
                transpositions.push((value, next));
                assert(transpositions@.drop_last() =~= old_t);
                assert(apply_swaps(identity(n as nat), transpositions@) == swap(a0, (value, next)));
                visited.set(next, true);
                assert forall|p: int|
                    0 <= p < n && #[trigger] visited@[p] && !before[p] implies reached_in_cycle(
                        v,
                        visited@,
                        before,
                        start,
                        next as int,
                        p,
                    ) by {
                    if p == next {
                        assert(v[value as int] == p);
                    } else {
                        assert(reached_in_cycle(v, old_visited, before, start, value as int, p));
                        let q = choose|q: int|
                            0 <= q < v.len() && #[trigger] v[q] == p && q != value as int && (q == start || (
                            old_visited[q] && !before[q]));
                        assert(v[q] == p && q != next);
                    }
                }
                proof {
                    assert(f0.0 == seq![(value, next)] + f1.0 && f0.1 == f1.1);
                    assert(transpositions@ + f1.0 =~= old_t + f0.0);
                    fuel = (fuel - 1) as nat;
                }
                value = next;
            }
            let ghost after = index as int + 1;
            assert forall|p: int|
                0 <= p < n && #[trigger] settled(v, visited@, after, p) implies settled(
                v,
                visited@,
                after,
                v[p] as int,
            ) by {
                if settled(v, before, start, p) {
                    assert(settled(v, before, start, v[p] as int));
                }
            }
            assert forall|q: int|
                0 <= q < n && settled(v, visited@, after, #[trigger] v[q] as int) implies settled(
                v,
                visited@,
                after,
                q,
            ) by {
                let w = v[q] as int;
                if settled(v, before, start, w) {
                    assert(settled(v, before, start, v[q] as int));
                } else if w == start {
                    assert(v[value as int] == w);
                    assert(q == value);
                } else {
                    assert(visited@[w] && !before[w]);
                    assert(reached_in_cycle(v, visited@, before, start, value as int, w));
                    let q2 = choose|q2: int|
                        0 <= q2 < v.len() && #[trigger] v[q2] == w && q2 != value as int && (q2 == start || (
                        visited@[q2] && !before[q2]));
                    assert(q2 == q);
                }
            }
            assert(settled_closed(v, visited@, after));
        } else {
            assert forall|p: int| 0 <= p < n implies settled(v, visited@, index as int + 1, p) == settled(
                v,
                visited@,
                index as int,
                p,
            ) by {}
            let ghost after = index as int + 1;
            assert forall|p: int|
                0 <= p < n && #[trigger] settled(v, visited@, after, p) implies settled(
                v,
                visited@,
                after,
                v[p] as int,
            ) by {
                assert(settled(v, visited@, index as int, p));
            }
            assert forall|q: int|
                0 <= q < n && settled(v, visited@, after, #[trigger] v[q] as int) implies settled(
                v,
                visited@,
                after,
                q,
            ) by {
                assert(settled(v, visited@, index as int, v[q] as int));
            }
            assert(settled_closed(v, visited@, after));
        }
        index = index + 1;
    }
    assert(apply_swaps(identity(n as nat), transpositions@) =~= vec@);
    transpositions
}

/// Every row of `v` is at least as long as its first one.
pub open spec fn is_table<T>(v: Seq<Vec<T>>) -> bool {
    &&& v.len() > 0
    &&& forall|j: int| 0 <= j < v.len() ==> #[trigger] v[j]@.len() >= v[0]@.len()
}

/// The columns of `v` as rows: row `i` of the result holds the `i`-th entry
/// of each row of `v`, for each `i` below the length of the first row.
pub fn transpose<T: Copy>(v: Vec<Vec<T>>) -> (r: Vec<Vec<T>>)
    requires
        is_table(v@),
    ensures
        r@.len() == v@[0]@.len(),
        forall|i: int| 0 <= i < r@.len() ==> (#[trigger] r@[i])@.len() == v@.len(),
        forall|i: int, j: int| 0 <= i < r@.len() && 0 <= j < v@.len() ==> #[trigger] r@[i]@[j] == v@[j]@[i],
{
    let len = v[0].len();
    let mut r: Vec<Vec<T>> = Vec::new();
    let mut i: usize = 0;
    while i < len
        invariant
            is_table(v@),
            len == v@[0]@.len(),
            i <= len,
            r@.len() == i,
            forall|a: int| 0 <= a < i ==> (#[trigger] r@[a])@.len() == v@.len(),
            forall|a: int, j: int| 0 <= a < i && 0 <= j < v@.len() ==> #[trigger] r@[a]@[j] == v@[j]@[a],
        decreases len - i,
    {
        let mut column: Vec<T> = Vec::new();
        let mut j: usize = 0;
        while j < v.len()
            invariant
                is_table(v@),
                len == v@[0]@.len(),
                i < len,
                j <= v@.len(),
                column@.len() == j,
                forall|b: int| 0 <= b < j ==> column@[b] == v@[b]@[i as int],
            decreases v@.len() - j,
        {
            assert(v@[j as int]@.len() >= len);
            column.push(v[j][i]);
            j = j + 1;
        }
        r.push(column);
        i = i + 1;
    }
    r
}

} // verus!
