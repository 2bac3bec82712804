//! The PC algorithm for causal discovery: skeleton discovery by conditional
//! independence tests, then orientation of v-structures.
//!
//! The independence test itself works on observed data and is supplied by
//! the caller as a function of the two variables and the conditioning set;
//! everything else (which pairs are tested, with which conditioning sets,
//! which edges are removed and how the rest are oriented) is here.
use vstd::prelude::*;
use crate::models::gnn::{Graph, joined};

verus! {

/// Configuration of the search.
#[derive(Debug, Clone)]
pub struct PcAlgorithmConfig {
    /// Largest conditioning set (search depth)
    pub max_condition_set_size: usize,
    /// Stable variant (level by level rather than edge by edge)
    pub stable: bool,
}

impl PcAlgorithmConfig {
    /// Conditioning sets of up to 3 variables, stable variant.
    pub fn default() -> (c: PcAlgorithmConfig)
        ensures
            c.max_condition_set_size == 3,
            c.stable,
    {
        PcAlgorithmConfig { max_condition_set_size: 3, stable: true }
    }
}

/// `a` comes before `b` in lexicographic order.
pub open spec fn pair_lt(a: (usize, usize), b: (usize, usize)) -> bool {
    a.0 < b.0 || (a.0 == b.0 && a.1 < b.1)
}

/// The pairs are in strictly increasing lexicographic order (so no pair
/// occurs twice).
pub open spec fn strictly_sorted(v: Seq<(usize, usize)>) -> bool {
    forall|i: int, j: int| 0 <= i < j < v.len() ==> pair_lt(#[trigger] v[i], #[trigger] v[j])
}

/// An undirected edge list over `n` variables: strictly sorted pairs `(a, b)`
/// with `a < b < n`.
pub open spec fn is_pair_list(v: Seq<(usize, usize)>, n: nat) -> bool {
    &&& strictly_sorted(v)
    &&& forall|i: int| 0 <= i < v.len() ==> (#[trigger] v[i]).0 < v[i].1 && v[i].1 < n
}

/// Edge `e` is one of the two arrows `i -> k` and `j -> k` of the
/// v-structure `i -> k <- j`: `i < j` are variables below `n` that the
/// skeleton does not join, and `k`, a third variable below `n`, is adjacent to
/// both. Separating sets are not recorded, so `k` is taken to lie outside the
/// separating set of `i` and `j` in every case.
pub open spec fn forms_collider(skeleton: Seq<(usize, usize)>, n: nat, i: usize, j: usize, k: usize, e: (usize, usize)) -> bool {
    &&& i < j < n
    &&& k < n
    &&& k != i && k != j
    &&& !joined(skeleton, i, j)
    &&& joined(skeleton, i, k)
    &&& joined(skeleton, k, j)
    &&& e.1 == k
    &&& (e.0 == i || e.0 == j)
}

/// The arrows that orientation produces from `skeleton` over `n` variables:
/// those of its v-structures.
pub open spec fn is_oriented_edge(skeleton: Seq<(usize, usize)>, n: nat, e: (usize, usize)) -> bool {
    exists|i: usize, j: usize, k: usize| #[trigger] forms_collider(skeleton, n, i, j, k, e)
}

/// `(i2, j2, k2)` comes before `(i, j, k)` in lexicographic order.
pub open spec fn triple_lt(i2: usize, j2: usize, k2: usize, i: usize, j: usize, k: usize) -> bool {
    i2 < i || (i2 == i && (j2 < j || (j2 == j && k2 < k)))
}

/// `e` is an arrow of a v-structure `i2 -> k2 <- j2` with `(i2, j2, k2)`
/// before `(i, j, k)`.
pub open spec fn oriented_before(skeleton: Seq<(usize, usize)>, n: nat, i: usize, j: usize, k: usize, e: (usize, usize)) -> bool {
    exists|i2: usize, j2: usize, k2: usize| #[trigger] forms_collider(skeleton, n, i2, j2, k2, e) && triple_lt(i2, j2, k2, i, j, k)
}

/// The subsets of `size` elements of `s`, each as the subsequence of its
/// elements: those that take the first element (in the order of the rest),
/// then those that leave it out. For distinct elements this is every subset of
/// that size once, in lexicographic order of positions.
pub open spec fn combinations(s: Seq<usize>, size: nat) -> Seq<Seq<usize>>
    decreases s.len(),
{
    if size == 0 {
        seq![Seq::empty()]
    } else if s.len() == 0 {
        Seq::empty()
    } else {
        combinations(s.drop_first(), (size - 1) as nat).map_values(|c: Seq<usize>| seq![s[0]] + c)
            + combinations(s.drop_first(), size)
    }
}

/// The first `limit` elements of `v`, or all of them when there are fewer.
pub open spec fn take_at_most(v: Seq<Seq<usize>>, limit: nat) -> Seq<Seq<usize>> {
    if v.len() <= limit {
        v
    } else {
        v.take(limit as int)
    }
}

/// The subsets of `neighbors` that skeleton discovery tries as conditioning
/// sets of size `size`: the first ten of its subsets of that size (all of
/// them when there are at most ten); the empty set for size 0, none when
/// there are fewer neighbours than `size`.
pub open spec fn condition_sets(neighbors: Seq<usize>, size: nat) -> Seq<Seq<usize>> {
    take_at_most(combinations(neighbors, size), 10)
}

/// Each subset has `size` elements, all taken from `s`.
proof fn lemma_combinations_members(s: Seq<usize>, size: nat, c: int)
    requires
        0 <= c < combinations(s, size).len(),
    ensures
        combinations(s, size)[c].len() == size,
        forall|x: int| 0 <= x < size ==> s.contains(#[trigger] combinations(s, size)[c][x]),
    decreases s.len(),
{
    if size > 0 && s.len() > 0 {
        let rest = s.drop_first();
        let with = combinations(rest, (size - 1) as nat);
        let a = with.map_values(|v: Seq<usize>| seq![s[0]] + v);
        if c < a.len() {
            lemma_combinations_members(rest, (size - 1) as nat, c);
            assert(combinations(s, size)[c] == seq![s[0]] + with[c]);
            assert forall|x: int| 0 <= x < size implies s.contains(#[trigger] combinations(s, size)[c][x]) by {
                if x == 0 {
                    assert(s[0] == combinations(s, size)[c][x]);
                } else {
                    assert(combinations(s, size)[c][x] == with[c][x - 1]);
                    let q = choose|q: int| 0 <= q < rest.len() && rest[q] == with[c][x - 1];
                    assert(s[q + 1] == rest[q]);
                }
            }
        } else {
            lemma_combinations_members(rest, size, c - a.len());
            assert(combinations(s, size)[c] == combinations(rest, size)[c - a.len()]);
            assert forall|x: int| 0 <= x < size implies s.contains(#[trigger] combinations(s, size)[c][x]) by {
                let q = choose|q: int| 0 <= q < rest.len() && rest[q] == combinations(rest, size)[c - a.len()][x];
                assert(s[q + 1] == rest[q]);
            }
        }
    }
}

/// A sequence shorter than `size` has no subset of that size.
proof fn lemma_combinations_short(s: Seq<usize>, size: nat)
    requires
        s.len() < size,
    ensures
        combinations(s, size).len() == 0,
    decreases s.len(),
{
    if s.len() > 0 {
        lemma_combinations_short(s.drop_first(), (size - 1) as nat);
        lemma_combinations_short(s.drop_first(), size);
    }
}

/// Each conditioning set has `size` elements, all neighbours.
pub proof fn lemma_condition_sets_members(neighbors: Seq<usize>, size: nat, c: int)
    requires
        0 <= c < condition_sets(neighbors, size).len(),
    ensures
        condition_sets(neighbors, size)[c].len() == size,
        forall|x: int| 0 <= x < size ==> neighbors.contains(#[trigger] condition_sets(neighbors, size)[c][x]),
{
    assert(condition_sets(neighbors, size)[c] == combinations(neighbors, size)[c]);
    lemma_combinations_members(neighbors, size, c);
}

/// The neighbours of `i` along `edges` other than `j`, in edge order.
pub open spec fn other_neighbors(edges: Seq<(usize, usize)>, i: usize, j: usize) -> Seq<usize>
    decreases edges.len(),
{
    if edges.len() == 0 {
        Seq::empty()
    } else {
        let prefix = other_neighbors(edges.drop_last(), i, j);
        let (a, b) = edges.last();
        if a == i && b != j {
            prefix.push(b)
        } else if b == i && a != j {
            prefix.push(a)
        } else {
            prefix
        }
    }
}

/// The test declared `a` and `b` independent given some conditioning set of
/// at most `max_size` variables, all different from `a` and `b` and below `n`.
pub open spec fn separated<F: Fn(usize, usize, &[usize]) -> bool>(test: F, a: usize, b: usize, n: nat, max_size: nat) -> bool {
    exists|s: &[usize]| #[trigger] call_ensures(test, (a, b, s), true) && s@.len() <= max_size
        && forall|x: int| 0 <= x < s@.len() ==> #[trigger] s@[x] < n && s@[x] != a && s@[x] != b
}

/// The test declared `a` and `b` dependent given the empty set.
pub open spec fn dependent<F: Fn(usize, usize, &[usize]) -> bool>(test: F, a: usize, b: usize) -> bool {
    exists|s: &[usize]| #[trigger] call_ensures(test, (a, b, s), false) && s@.len() == 0
}

/// The test declared `a` and `b` dependent given the conditioning set `v`.
pub open spec fn tested_dependent<F: Fn(usize, usize, &[usize]) -> bool>(test: F, a: usize, b: usize, v: Seq<usize>) -> bool {
    exists|s: &[usize]| s@ == v && #[trigger] call_ensures(test, (a, b, s), false)
}

/// The test declared `a` and `b` independent given the conditioning set `v`.
pub open spec fn tested_independent<F: Fn(usize, usize, &[usize]) -> bool>(test: F, a: usize, b: usize, v: Seq<usize>) -> bool {
    exists|s: &[usize]| s@ == v && #[trigger] call_ensures(test, (a, b, s), true)
}

/// `test` answers as `oracle` does: whatever it returns for two variables and
/// a conditioning set is what `oracle` says of them.
pub open spec fn agrees<F: Fn(usize, usize, &[usize]) -> bool>(test: F, oracle: spec_fn(usize, usize, Seq<usize>) -> bool) -> bool {
    forall|a: usize, b: usize, s: &[usize], r: bool| #[trigger] call_ensures(test, (a, b, s), r) ==> r == oracle(a, b, s@)
}

/// `v` with every occurrence of `e` taken out, the rest in order.
pub open spec fn without(v: Seq<(usize, usize)>, e: (usize, usize)) -> Seq<(usize, usize)>
    decreases v.len(),
{
    if v.len() == 0 {
        v
    } else {
        let rest = without(v.drop_last(), e);
        if v.last() == e {
            rest
        } else {
            rest.push(v.last())
        }
    }
}

/// The pairs `(i, b)` with `i < b < n`, by increasing `b`.
pub open spec fn complete_row(i: nat, n: nat) -> Seq<(usize, usize)> {
    let len: nat = if i + 1 < n { (n - i - 1) as nat } else { 0 };
    Seq::new(len, |k: int| (i as usize, (i + 1 + k) as usize))
}

/// The rows of the variables below `i`, one after the other.
pub open spec fn complete_rows(i: nat, n: nat) -> Seq<(usize, usize)>
    decreases i,
{
    if i == 0 {
        Seq::empty()
    } else {
        complete_rows((i - 1) as nat, n) + complete_row((i - 1) as nat, n)
    }
}

/// The complete graph over `n` variables: every pair `(a, b)` with
/// `a < b < n`, in lexicographic order.
pub open spec fn complete_graph(n: nat) -> Seq<(usize, usize)> {
    complete_rows(n, n)
}

/// Some conditioning set of size `size` drawn from the other neighbours of
/// `i` along `edges` makes `oracle` declare `i` and `j` independent.
pub open spec fn some_set_independent(
    oracle: spec_fn(usize, usize, Seq<usize>) -> bool,
    edges: Seq<(usize, usize)>,
    i: usize,
    j: usize,
    size: nat,
) -> bool {
    let sets = condition_sets(other_neighbors(edges, i, j), size);
    exists|c: int| 0 <= c < sets.len() && oracle(i, j, #[trigger] sets[c])
}

/// The first `t` edges of one level tested in order, starting from the edges
/// present at the start of the level, `snapshot`: each is removed when some
/// conditioning set of size `size` drawn from the other neighbours of its
/// first end separates its two ends. The neighbours are those at the start of
/// the level when `stable` holds, else those of the edges as they then stand.
pub open spec fn level_pass(
    oracle: spec_fn(usize, usize, Seq<usize>) -> bool,
    snapshot: Seq<(usize, usize)>,
    t: nat,
    size: nat,
    stable: bool,
) -> Seq<(usize, usize)>
    decreases t,
{
    if t == 0 {
        snapshot
    } else {
        let prev = level_pass(oracle, snapshot, (t - 1) as nat, size, stable);
        let (i, j) = snapshot[t - 1];
        let source = if stable { snapshot } else { prev };
        if some_set_independent(oracle, source, i, j, size) {
            without(prev, (i, j))
        } else {
            prev
        }
    }
}

/// The levels for conditioning sets of size `size` up to `max`, one after the
/// other, starting from `edges`; each level tests every edge present at its
/// start.
pub open spec fn levels_from(
    oracle: spec_fn(usize, usize, Seq<usize>) -> bool,
    edges: Seq<(usize, usize)>,
    size: nat,
    max: nat,
    stable: bool,
) -> Seq<(usize, usize)>
    decreases max + 1 - size,
{
    if size > max {
        edges
    } else {
        levels_from(oracle, level_pass(oracle, edges, edges.len(), size, stable), size + 1, max, stable)
    }
}

/// The skeleton that discovery finds over `n` variables with conditioning sets
/// of up to `max` variables, when the independence test answers as `oracle`
/// does: every level, from the complete graph on, with neighbour lists taken
/// at the start of each level when `stable` holds.
pub open spec fn pc_skeleton(oracle: spec_fn(usize, usize, Seq<usize>) -> bool, n: nat, max: nat, stable: bool) -> Seq<(usize, usize)> {
    levels_from(oracle, complete_graph(n), 0, max, stable)
}

/// Taking out a pair that does not occur changes nothing.
proof fn lemma_without_absent(v: Seq<(usize, usize)>, e: (usize, usize))
    requires
        !v.contains(e),
    ensures
        without(v, e) == v,
    decreases v.len(),
{
    if v.len() > 0 {
        assert(!v.drop_last().contains(e)) by {
            if v.drop_last().contains(e) {
                let q = choose|q: int| 0 <= q < v.drop_last().len() && v.drop_last()[q] == e;
                assert(v[q] == e);
            }
        }
        lemma_without_absent(v.drop_last(), e);
        assert(v.last() != e) by {
            assert(v[v.len() - 1] == v.last());
        }
        assert(v.drop_last().push(v.last()) =~= v);
    }
}

/// Taking out a pair that occurs once, at index `k`, removes that index.
proof fn lemma_without_at(v: Seq<(usize, usize)>, k: int, e: (usize, usize))
    requires
        0 <= k < v.len(),
        v[k] == e,
        forall|q: int| 0 <= q < v.len() && q != k ==> v[q] != e,
    ensures
        without(v, e) == v.remove(k),
    decreases v.len(),
{
    let rest = v.drop_last();
    if k == v.len() - 1 {
        assert(!rest.contains(e)) by {
            if rest.contains(e) {
                let q = choose|q: int| 0 <= q < rest.len() && rest[q] == e;
                assert(v[q] == e);
            }
        }
        lemma_without_absent(rest, e);
        assert(rest =~= v.remove(k));
    } else {
        assert(rest[k] == e);
        lemma_without_at(rest, k, e);
        assert(v.last() != e) by {
            assert(v[v.len() - 1] == v.last());
        }
        assert(rest.remove(k).push(v.last()) =~= v.remove(k));
    }
}

/// A level in which no test declares independence removes nothing.
proof fn lemma_level_pass_keeps(oracle: spec_fn(usize, usize, Seq<usize>) -> bool, snapshot: Seq<(usize, usize)>, t: nat, size: nat, stable: bool)
    requires
        forall|a: usize, b: usize, s: Seq<usize>| !#[trigger] oracle(a, b, s),
    ensures
        level_pass(oracle, snapshot, t, size, stable) == snapshot,
    decreases t,
{
    if t > 0 {
        lemma_level_pass_keeps(oracle, snapshot, (t - 1) as nat, size, stable);
    }
}

/// Levels in which no test declares independence remove nothing.
proof fn lemma_levels_keep(oracle: spec_fn(usize, usize, Seq<usize>) -> bool, edges: Seq<(usize, usize)>, size: nat, max: nat, stable: bool)
    requires
        forall|a: usize, b: usize, s: Seq<usize>| !#[trigger] oracle(a, b, s),
    ensures
        levels_from(oracle, edges, size, max, stable) == edges,
    decreases max + 1 - size,
{
    if size <= max {
        lemma_level_pass_keeps(oracle, edges, edges.len(), size, stable);
        lemma_levels_keep(oracle, edges, size + 1, max, stable);
    }
}

/// When the test never declares two variables independent, skeleton
/// discovery keeps every edge of the complete graph.
pub proof fn lemma_never_independent_keeps_complete_graph(oracle: spec_fn(usize, usize, Seq<usize>) -> bool, n: nat, max: nat, stable: bool)
    requires
        forall|a: usize, b: usize, s: Seq<usize>| !#[trigger] oracle(a, b, s),
    ensures
        pc_skeleton(oracle, n, max, stable) == complete_graph(n),
{
    lemma_levels_keep(oracle, complete_graph(n), 0, max, stable);
}

/// The complete graph over at most `usize::MAX` variables is an edge list:
/// its pairs are strictly increasing and join two different variables.
proof fn lemma_complete_rows_sorted(i: nat, n: nat)
    requires
        i <= n <= usize::MAX,
    ensures
        is_pair_list(complete_rows(i, n), n),
        forall|k: int| 0 <= k < complete_rows(i, n).len() ==> (#[trigger] complete_rows(i, n)[k]).0 < i,
    decreases i,
{
    if i > 0 {
        let prev = complete_rows((i - 1) as nat, n);
        let row = complete_row((i - 1) as nat, n);
        lemma_complete_rows_sorted((i - 1) as nat, n);
        let all = prev + row;
        assert(all == complete_rows(i, n));
        assert forall|k: int| 0 <= k < row.len() implies (#[trigger] row[k]).0 == i - 1 && row[k].1 == i + k && row[k].1 < n by {}
        assert forall|a: int, b: int| 0 <= a < b < all.len() implies pair_lt(#[trigger] all[a], #[trigger] all[b]) by {
            if b < prev.len() {
                assert(all[a] == prev[a] && all[b] == prev[b]);
            } else if a < prev.len() {
                assert(all[a] == prev[a] && all[b] == row[b - prev.len()]);
            } else {
                assert(all[a] == row[a - prev.len()] && all[b] == row[b - prev.len()]);
            }
        }
        assert forall|k: int| 0 <= k < all.len() implies (#[trigger] all[k]).0 < all[k].1 && all[k].1 < n && all[k].0 < i by {
            if k < prev.len() {
                assert(all[k] == prev[k]);
            } else {
                assert(all[k] == row[k - prev.len()]);
            }
        }
    }
}

/// A level at conditioning-set size 0 in which every test declares
/// independence removes the edges of a strictly sorted list one by one, from
/// the front.
proof fn lemma_level_pass_drops(oracle: spec_fn(usize, usize, Seq<usize>) -> bool, snapshot: Seq<(usize, usize)>, t: nat, stable: bool)
    requires
        forall|a: usize, b: usize, s: Seq<usize>| #[trigger] oracle(a, b, s),
        strictly_sorted(snapshot),
        t <= snapshot.len(),
    ensures
        level_pass(oracle, snapshot, t, 0, stable) == snapshot.skip(t as int),
    decreases t,
{
    if t > 0 {
        lemma_level_pass_drops(oracle, snapshot, (t - 1) as nat, stable);
        let prev = snapshot.skip(t - 1);
        let (i, j) = snapshot[t - 1];
        let source = if stable { snapshot } else { prev };
        let sets = condition_sets(other_neighbors(source, i, j), 0);
        assert(oracle(i, j, sets[0]));
        assert(some_set_independent(oracle, source, i, j, 0));
        assert(prev[0] == (i, j));
        assert forall|q: int| 0 <= q < prev.len() && q != 0 implies prev[q] != (i, j) by {
            assert(prev[q] == snapshot[t - 1 + q]);
            assert(pair_lt(snapshot[t - 1], snapshot[t - 1 + q]));
        }
        lemma_without_at(prev, 0, (i, j));
        assert(prev.remove(0) =~= snapshot.skip(t as int));
    }
}

/// Levels over no edge leave no edge.
proof fn lemma_levels_of_nothing(oracle: spec_fn(usize, usize, Seq<usize>) -> bool, size: nat, max: nat, stable: bool)
    ensures
        levels_from(oracle, Seq::empty(), size, max, stable) == Seq::<(usize, usize)>::empty(),
    decreases max + 1 - size,
{
    if size <= max {
        assert(level_pass(oracle, Seq::<(usize, usize)>::empty(), 0, size, stable) == Seq::<(usize, usize)>::empty());
        lemma_levels_of_nothing(oracle, size + 1, max, stable);
    }
}

/// When the test declares every two variables independent, skeleton
/// discovery removes every edge (all of them at the first level, with the
/// empty conditioning set).
pub proof fn lemma_always_independent_removes_every_edge(oracle: spec_fn(usize, usize, Seq<usize>) -> bool, n: nat, max: nat, stable: bool)
    requires
        forall|a: usize, b: usize, s: Seq<usize>| #[trigger] oracle(a, b, s),
        n <= usize::MAX,
    ensures
        pc_skeleton(oracle, n, max, stable) == Seq::<(usize, usize)>::empty(),
{
    let g = complete_graph(n);
    lemma_complete_rows_sorted(n, n);
    lemma_level_pass_drops(oracle, g, g.len(), stable);
    assert(g.skip(g.len() as int) =~= Seq::<(usize, usize)>::empty());
    lemma_levels_of_nothing(oracle, 1, max, stable);
}

/// Orientation only directs edges of the skeleton: every arrow `x -> k` it
/// produces joins two variables that are adjacent in the skeleton, and the
/// arrow never points back at its own source.
pub proof fn lemma_oriented_edges_in_skeleton(skeleton: Seq<(usize, usize)>, n: nat, e: (usize, usize))
    requires
        is_oriented_edge(skeleton, n, e),
    ensures
        joined(skeleton, e.0, e.1),
        e.0 != e.1,
        e.1 < n,
{
    let (i, j, k) = choose|i: usize, j: usize, k: usize| #[trigger] forms_collider(skeleton, n, i, j, k, e);
    if e.0 == j {
        let q = choose|q: int| 0 <= q < skeleton.len() && (skeleton[q] == (k, j) || skeleton[q] == (j, k));
        assert(skeleton[q] == (e.0, e.1) || skeleton[q] == (e.1, e.0));
    }
}

/// Orientation finds every v-structure: whenever two variables `i < j` below
/// `n` are not adjacent and a third variable `k` below `n` is adjacent to
/// both, whatever its index, both arrows `i -> k` and `j -> k` are produced.
pub proof fn lemma_orientation_complete(skeleton: Seq<(usize, usize)>, n: nat, i: usize, j: usize, k: usize)
    requires
        i < j < n,
        k < n,
        k != i,
        k != j,
        !joined(skeleton, i, j),
        joined(skeleton, i, k),
        joined(skeleton, k, j),
    ensures
        is_oriented_edge(skeleton, n, (i, k)),
        is_oriented_edge(skeleton, n, (j, k)),
{
    assert(forms_collider(skeleton, n, i, j, k, (i, k)));
    assert(forms_collider(skeleton, n, i, j, k, (j, k)));
}

/// Every arrow `x -> k` that orientation produces belongs to an unshielded
/// v-structure: some other variable `y` adjacent to `k` is not adjacent to
/// `x`.
pub proof fn lemma_oriented_edge_has_unshielded_partner(skeleton: Seq<(usize, usize)>, n: nat, e: (usize, usize))
    requires
        is_oriented_edge(skeleton, n, e),
    ensures
        exists|y: usize| y != e.0 && y < n && joined(skeleton, y, e.1) && !#[trigger] joined(skeleton, e.0, y),
{
    let (i, j, k) = choose|i: usize, j: usize, k: usize| #[trigger] forms_collider(skeleton, n, i, j, k, e);
    if e.0 == i {
        let q = choose|q: int| 0 <= q < skeleton.len() && (skeleton[q] == (k, j) || skeleton[q] == (j, k));
        assert(joined(skeleton, j, k));
        assert(!joined(skeleton, i, j));
    } else {
        let q = choose|q: int| 0 <= q < skeleton.len() && (skeleton[q] == (i, k) || skeleton[q] == (k, i));
        assert(joined(skeleton, i, k));
        assert(!joined(skeleton, j, i)) by {
            if joined(skeleton, j, i) {
                let r = choose|r: int| 0 <= r < skeleton.len() && (skeleton[r] == (j, i) || skeleton[r] == (i, j));
            }
        }
    }
}

/// Whether `skeleton` joins `a` and `b`, in either direction.
fn has_edge(skeleton: &Vec<(usize, usize)>, a: usize, b: usize) -> (r: bool)
    ensures
        r == joined(skeleton@, a, b),
{
    let n = skeleton.len();
    for p in 0..n
        invariant
            n == skeleton@.len(),
            forall|q: int| 0 <= q < p ==> skeleton@[q] != (a, b) && skeleton@[q] != (b, a),
    {
        let (x, y) = skeleton[p];
        if (x == a && y == b) || (x == b && y == a) {
            assert(skeleton@[p as int] == (a, b) || skeleton@[p as int] == (b, a));
            return true;
        }
    }
    false
}

/// Inserts `e` into a strictly sorted list, unless it is there already.
fn insert_sorted(v: &mut Vec<(usize, usize)>, e: (usize, usize))
    requires
        strictly_sorted(old(v)@),
    ensures
        strictly_sorted(final(v)@),
        forall|x: (usize, usize)| final(v)@.contains(x) <==> (old(v)@.contains(x) || x == e),
{
    let n = v.len();
    let mut pos: usize = 0;
    while pos < n && (v[pos].0 < e.0 || (v[pos].0 == e.0 && v[pos].1 < e.1))
        invariant
            n == v@.len(),
            v@ == old(v)@,
            pos <= n,
            forall|q: int| 0 <= q < pos ==> pair_lt(v@[q], e),
        decreases n - pos,
    {
        pos = pos + 1;
    }
    if pos < n && v[pos].0 == e.0 && v[pos].1 == e.1 {
        assert(v@[pos as int] == e);
        assert(v@.contains(e));
        return;
    }
    let ghost before = v@;
    v.insert(pos, e);
    assert forall|i: int, j: int| 0 <= i < j < v@.len() implies pair_lt(#[trigger] v@[i], #[trigger] v@[j]) by {
        if j < pos {
        } else if j == pos {
        } else if i < pos {
            assert(pair_lt(before[i], e));
        } else if i == pos {
            assert(pos < n && !pair_lt(before[pos as int], e) && before[pos as int] != e);
            if j > pos + 1 {
                assert(pair_lt(before[pos as int], before[j - 1]));
            }
        } else {
            assert(pair_lt(before[i - 1], before[j - 1]));
        }
    }
    assert(before == old(v)@);
    assert forall|x: (usize, usize)| #[trigger] v@.contains(x) <==> (old(v)@.contains(x) || x == e) by {
        if v@.contains(x) {
            let k = choose|k: int| 0 <= k < v@.len() && v@[k] == x;
            if k < pos {
                assert(before[k] == x);
            } else if k > pos {
                assert(before[k - 1] == x);
            }
        }
        if before.contains(x) {
            let k = choose|k: int| 0 <= k < before.len() && before[k] == x;
            if k < pos {
                assert(v@[k] == x);
            } else {
                assert(v@[k + 1] == x);
            }
        }
        if x == e {
            assert(v@[pos as int] == e);
        }
    }
}

/// Every neighbour of `i` other than `j` is joined to `i`.
pub proof fn lemma_other_neighbors(edges: Seq<(usize, usize)>, i: usize, j: usize, x: usize)
    requires
        other_neighbors(edges, i, j).contains(x),
    ensures
        x != j,
        joined(edges, i, x),
    decreases edges.len(),
{
    let prefix = edges.drop_last();
    let ns = other_neighbors(edges, i, j);
    let k = choose|k: int| 0 <= k < ns.len() && ns[k] == x;
    if k < other_neighbors(prefix, i, j).len() {
        assert(other_neighbors(prefix, i, j)[k] == x);
        lemma_other_neighbors(prefix, i, j, x);
        let q = choose|q: int| 0 <= q < prefix.len() && (prefix[q] == (i, x) || prefix[q] == (x, i));
        assert(edges[q] == prefix[q]);
    } else {
        assert(edges[edges.len() - 1] == edges.last());
    }
}

/// The other neighbours of `i` are exactly the variables other than `j` that
/// some edge joins to `i`, in either position of the pair.
pub proof fn lemma_other_neighbors_exact(edges: Seq<(usize, usize)>, i: usize, j: usize, x: usize)
    ensures
        other_neighbors(edges, i, j).contains(x) <==> (joined(edges, i, x) && x != j),
    decreases edges.len(),
{
    if other_neighbors(edges, i, j).contains(x) {
        lemma_other_neighbors(edges, i, j, x);
    }
    if joined(edges, i, x) && x != j {
        let prefix = edges.drop_last();
        let q = choose|q: int| 0 <= q < edges.len() && (edges[q] == (i, x) || edges[q] == (x, i));
        if q < edges.len() - 1 {
            assert(prefix[q] == edges[q]);
            lemma_other_neighbors_exact(prefix, i, j, x);
            let ns = other_neighbors(prefix, i, j);
            let r = choose|r: int| 0 <= r < ns.len() && ns[r] == x;
            assert(other_neighbors(edges, i, j)[r] == x);
        } else {
            assert(edges.last() == edges[q]);
            let ns = other_neighbors(edges, i, j);
            assert(ns[ns.len() - 1] == x);
        }
    }
}

/// A variable joined to `i` in an edge list over `n` variables is another
/// variable below `n`.
pub proof fn lemma_joined_in_pair_list(edges: Seq<(usize, usize)>, n: nat, i: usize, x: usize)
    requires
        is_pair_list(edges, n),
        joined(edges, i, x),
    ensures
        x < n,
        x != i,
{
    let q = choose|q: int| 0 <= q < edges.len() && (edges[q] == (i, x) || edges[q] == (x, i));
    assert(edges[q].0 < edges[q].1 && edges[q].1 < n);
}

/// The neighbours of `i` other than `j`, in edge order.
fn neighbors_except(edges: &Vec<(usize, usize)>, i: usize, j: usize) -> (r: Vec<usize>)
    ensures
        r@ == other_neighbors(edges@, i, j),
{
    let mut r: Vec<usize> = Vec::new();
    let n = edges.len();
    for p in 0..n
        invariant
            n == edges@.len(),
            r@ == other_neighbors(edges@.take(p as int), i, j),
    {
        assert(edges@.take(p + 1).drop_last() =~= edges@.take(p as int));
        let (a, b) = edges[p];
        if a == i && b != j {
            r.push(b);
        } else if b == i && a != j {
            r.push(a);
        }
    }
    assert(edges@.take(n as int) =~= edges@);
    r
}

/// Removes `e` from a strictly sorted list, if it is there.
fn remove_pair(v: &mut Vec<(usize, usize)>, e: (usize, usize))
    requires
        strictly_sorted(old(v)@),
    ensures
        strictly_sorted(final(v)@),
        final(v)@ == without(old(v)@, e),
        forall|x: (usize, usize)| #[trigger] final(v)@.contains(x) <==> (old(v)@.contains(x) && x != e),
{
    let n = v.len();
    let mut k: usize = 0;
    while k < n && (v[k].0 != e.0 || v[k].1 != e.1)
        invariant
            n == v@.len(),
            v@ == old(v)@,
            k <= n,
            forall|q: int| 0 <= q < k ==> v@[q] != e,
        decreases n - k,
    {
        k = k + 1;
    }
    if k == n {
        assert forall|x: (usize, usize)| #[trigger] v@.contains(x) <==> (old(v)@.contains(x) && x != e) by {}
        proof {
            lemma_without_absent(v@, e);
        }
        return;
    }
    let ghost before = v@;
    assert(before[k as int] == e);
    proof {
        assert forall|q: int| 0 <= q < before.len() && q != k implies before[q] != e by {
            if q < k {
                assert(pair_lt(before[q], before[k as int]));
            } else {
                assert(pair_lt(before[k as int], before[q]));
            }
        }
        lemma_without_at(before, k as int, e);
    }
    v.remove(k);
    assert(before == old(v)@);
    assert forall|i: int, j: int| 0 <= i < j < v@.len() implies pair_lt(#[trigger] v@[i], #[trigger] v@[j]) by {
        if j < k {
            assert(pair_lt(before[i], before[j]));
        } else if i < k {
            assert(pair_lt(before[i], before[j + 1]));
        } else {
            assert(pair_lt(before[i + 1], before[j + 1]));
        }
    }
    assert forall|x: (usize, usize)| #[trigger] v@.contains(x) <==> (old(v)@.contains(x) && x != e) by {
        if v@.contains(x) {
            let q = choose|q: int| 0 <= q < v@.len() && v@[q] == x;
            if q < k {
                assert(before[q] == x);
                assert(pair_lt(before[q], before[k as int]));
            } else {
                assert(before[q + 1] == x);
                assert(pair_lt(before[k as int], before[q + 1]));
            }
        }
        if old(v)@.contains(x) && x != e {
            let q = choose|q: int| 0 <= q < before.len() && before[q] == x;
            if q < k {
                assert(v@[q] == x);
            } else {
                assert(q != k);
                assert(v@[q - 1] == x);
            }
        }
    }
}

/// All pairs `(a, b)` with `a < b < n`, in lexicographic order.
fn complete_pairs(n: usize) -> (v: Vec<(usize, usize)>)
    ensures
        is_pair_list(v@, n as nat),
        v@ == complete_graph(n as nat),
        forall|a: usize, b: usize| a < b < n ==> v@.contains((a, b)),
{
    let mut v: Vec<(usize, usize)> = Vec::new();
    for i in 0..n
        invariant
            is_pair_list(v@, n as nat),
            v@ == complete_rows(i as nat, n as nat),
            forall|k: int| 0 <= k < v@.len() ==> (#[trigger] v@[k]).0 < i,
            forall|a: usize, b: usize| a < b < n && a < i ==> v@.contains((a, b)),
    {
        let mut j: usize = i + 1;
        while j < n
            invariant
                i < n,
                i + 1 <= j <= n,
                is_pair_list(v@, n as nat),
                v@ == complete_rows(i as nat, n as nat) + complete_row(i as nat, n as nat).take(j - i - 1),
                forall|k: int| 0 <= k < v@.len() ==> pair_lt(#[trigger] v@[k], (i, j)),
                forall|k: int| 0 <= k < v@.len() ==> (#[trigger] v@[k]).0 <= i,
                forall|a: usize, b: usize| a < b < n && (a < i || (a == i && b < j)) ==> v@.contains((a, b)),
            decreases n - j,
        {
            let ghost before = v@;
            v.push((i, j));
            assert(complete_row(i as nat, n as nat)[j - i - 1] == (i, j));
            assert(v@ =~= complete_rows(i as nat, n as nat) + complete_row(i as nat, n as nat).take(j + 1 - i - 1));
            assert forall|a: usize, b: usize| a < b < n && (a < i || (a == i && b < j + 1)) implies v@.contains((a, b)) by {
                if a == i && b == j {
                    assert(v@[before.len() as int] == (a, b));
                } else {
                    assert(before.contains((a, b)));
                    let k = choose|k: int| 0 <= k < before.len() && before[k] == (a, b);
                    assert(v@[k] == (a, b));
                }
            }
            j = j + 1;
        }
        assert(complete_row(i as nat, n as nat).take(n - i - 1) =~= complete_row(i as nat, n as nat));
        assert(v@ == complete_rows((i + 1) as nat, n as nat));
    }
    v
}

/// The first `limit` subsets of `size` elements of `neighbors[start..]`, in
/// the order of `combinations`.
fn combinations_from(neighbors: &[usize], start: usize, size: usize, limit: usize) -> (r: Vec<Vec<usize>>)
    requires
        start <= neighbors@.len(),
    ensures
        r@.map_values(|v: Vec<usize>| v@) == take_at_most(combinations(neighbors@.skip(start as int), size as nat), limit as nat),
    decreases neighbors@.len() - start,
{
    let ghost tail = neighbors@.skip(start as int);
    let ghost all = combinations(tail, size as nat);
    if limit == 0 {
        let r: Vec<Vec<usize>> = Vec::new();
        assert(r@.map_values(|v: Vec<usize>| v@) =~= take_at_most(all, 0));
        return r;
    }
    if size == 0 {
        let mut r: Vec<Vec<usize>> = Vec::new();
        r.push(Vec::new());
        assert(r@.map_values(|v: Vec<usize>| v@) =~= take_at_most(all, limit as nat));
        return r;
    }
    if neighbors.len() - start < size {
        proof {
            lemma_combinations_short(tail, size as nat);
        }
        let r: Vec<Vec<usize>> = Vec::new();
        assert(r@.map_values(|v: Vec<usize>| v@) =~= take_at_most(all, limit as nat));
        return r;
    }
    let first = neighbors[start];
    let ghost rest = neighbors@.skip(start + 1);
    assert(tail.drop_first() =~= rest);
    assert(tail[0] == first);
    let ghost with = combinations(rest, (size - 1) as nat);
    let ghost a = with.map_values(|c: Seq<usize>| seq![first] + c);
    let ghost b = combinations(rest, size as nat);
    assert(all == a + b);
    let with_first = combinations_from(neighbors, start + 1, size - 1, limit);
    let ghost wt = take_at_most(with, limit as nat);
    let mut r: Vec<Vec<usize>> = Vec::new();
    let count = with_first.len();
    for q in 0..count
        invariant
            count == with_first@.len(),
            with_first@.map_values(|v: Vec<usize>| v@) == wt,
            r@.len() == q,
            forall|x: int| 0 <= x < q ==> (#[trigger] r@[x])@ == seq![first] + wt[x],
    {
        let mut v: Vec<usize> = Vec::new();
        v.push(first);
        let inner = &with_first[q];
        let m = inner.len();
        for t in 0..m
            invariant
                m == inner@.len(),
                v@ == seq![first] + inner@.take(t as int),
        {
            v.push(inner[t]);
            assert(inner@.take(t + 1) =~= inner@.take(t as int).push(inner@[t as int]));
            assert(v@ =~= seq![first] + inner@.take(t + 1));
        }
        assert(inner@.take(m as int) =~= inner@);
        assert(inner@ == wt[q as int]);
        r.push(v);
    }
    assert(take_at_most(a, limit as nat).len() == wt.len());
    assert forall|x: int| 0 <= x < wt.len() implies #[trigger] take_at_most(a, limit as nat)[x] == seq![first] + wt[x] by {
        assert(wt[x] == with[x]);
        assert(a[x] == seq![first] + with[x]);
    }
    assert(r@.map_values(|v: Vec<usize>| v@) =~= take_at_most(a, limit as nat));
    if r.len() < limit {
        assert(a.len() == with.len());
        assert(r@.len() == a.len());
        let more = combinations_from(neighbors, start + 1, size, limit - r.len());
        let ghost bt = take_at_most(b, (limit - r@.len()) as nat);
        let ghost before = r@.map_values(|v: Vec<usize>| v@);
        let mcount = more.len();
        for q in 0..mcount
            invariant
                mcount == more@.len(),
                more@.map_values(|v: Vec<usize>| v@) == bt,
                r@.map_values(|v: Vec<usize>| v@) == a + bt.take(q as int),
                a.len() < limit,
        {
            let c = more[q].clone();
            proof {
                assert(c@ == more@[q as int]@);
                assert(bt[q as int] == c@);
            }
            let ghost old_map = r@.map_values(|v: Vec<usize>| v@);
            r.push(c);
            assert(r@.map_values(|v: Vec<usize>| v@) =~= old_map.push(c@));
            assert(bt.take(q + 1) =~= bt.take(q as int).push(bt[q as int]));
            assert(r@.map_values(|v: Vec<usize>| v@) =~= a + bt.take(q + 1));
        }
        assert(bt.take(mcount as int) =~= bt);
        assert(take_at_most(a + b, limit as nat) =~= a + bt);
    } else {
        assert(take_at_most(a + b, limit as nat) =~= take_at_most(a, limit as nat));
    }
    r
}

/// What causal discovery found.
#[derive(Debug)]
pub struct CausalDiscoveryResult {
    /// The causal graph (the oriented arrows over the variables)
    pub graph: Graph,
    /// Skeleton edges (undirected)
    pub skeleton_edges: Vec<(usize, usize)>,
    /// Oriented edges
    pub oriented_edges: Vec<(usize, usize)>,
    /// Variable names
    pub variable_names: Vec<String>,
    /// Number of variables
    pub num_variables: usize,
}

/// The search.
pub struct PcAlgorithm {
    /// Configuration
    pub config: PcAlgorithmConfig,
}

impl PcAlgorithm {
    /// A search with the given configuration.
    pub fn new(config: PcAlgorithmConfig) -> (pc: PcAlgorithm)
        ensures
            pc.config == config,
    {
        PcAlgorithm { config }
    }

    /// A search with the default configuration.
    pub fn default() -> (pc: PcAlgorithm)
        ensures
            pc.config.max_condition_set_size == 3,
            pc.config.stable,
    {
        Self::new(PcAlgorithmConfig::default())
    }

    /// The conditioning sets of size `size` drawn from `neighbors`: its
    /// subsets of that size, in lexicographic order of positions, at most ten
    /// of them (the empty set for size 0, none when there are too few
    /// neighbours).
    pub fn generate_condition_sets(&self, neighbors: &[usize], size: usize) -> (sets: Vec<Vec<usize>>)
        ensures
            sets@.map_values(|s: Vec<usize>| s@) == condition_sets(neighbors@, size as nat),
    {
        let sets = combinations_from(neighbors, 0, size, 10);
        assert(neighbors@.skip(0) =~= neighbors@);
        sets
    }

    /// Skeleton discovery: starts from the complete graph over `num_vars`
    /// variables and, level by level for conditioning sets of size 0 up to
    /// the maximum, removes each edge `a - b` for which `test(a, b, s)`
    /// declares independence given some conditioning set `s` drawn from the
    /// current other neighbours of `a`.
    pub fn discover_skeleton<F: Fn(usize, usize, &[usize]) -> bool>(&self, num_vars: usize, test: &F) -> (skeleton: Vec<(usize, usize)>)
        requires
            self.config.max_condition_set_size < usize::MAX,
            forall|a: usize, b: usize, s: &[usize]| call_requires(*test, (a, b, s)),
        ensures
            is_pair_list(skeleton@, num_vars as nat),
            forall|a: usize, b: usize| a < b < num_vars && !skeleton@.contains((a, b)) ==>
                separated(*test, a, b, num_vars as nat, self.config.max_condition_set_size as nat),
            forall|k: int| 0 <= k < skeleton@.len() ==> dependent(*test, (#[trigger] skeleton@[k]).0, skeleton@[k].1),
            forall|oracle: spec_fn(usize, usize, Seq<usize>) -> bool| #[trigger] agrees(*test, oracle) ==>
                skeleton@ == pc_skeleton(oracle, num_vars as nat, self.config.max_condition_set_size as nat, self.config.stable),
    {
        let ghost n = num_vars as nat;
        let max = self.config.max_condition_set_size;
        let mut edges = complete_pairs(num_vars);
        let mut condition_size: usize = 0;
        while condition_size <= max
            invariant
                max == self.config.max_condition_set_size,
                max < usize::MAX,
                n == num_vars,
                condition_size <= max + 1,
                forall|a: usize, b: usize, s: &[usize]| call_requires(*test, (a, b, s)),
                is_pair_list(edges@, n),
                forall|a: usize, b: usize| a < b < num_vars && !edges@.contains((a, b)) ==>
                    separated(*test, a, b, n, max as nat),
                condition_size > 0 ==> forall|k: int| 0 <= k < edges@.len() ==>
                    dependent(*test, (#[trigger] edges@[k]).0, edges@[k].1),
                forall|oracle: spec_fn(usize, usize, Seq<usize>) -> bool| #[trigger] agrees(*test, oracle) ==>
                    levels_from(oracle, edges@, condition_size as nat, max as nat, self.config.stable) == pc_skeleton(oracle, n, max as nat, self.config.stable),
            decreases max + 1 - condition_size,
        {
            // The edges present at the start of the level, in order.
            let mut edges_to_test: Vec<(usize, usize)> = Vec::new();
            for k in 0..edges.len()
                invariant
                    edges_to_test@ == edges@.take(k as int),
            {
                edges_to_test.push(edges[k]);
                assert(edges_to_test@ =~= edges@.take(k + 1));
            }
            assert(edges_to_test@ =~= edges@);
            let ghost snapshot = edges@;
            let count = edges_to_test.len();
            for t in 0..count
                invariant
                    max == self.config.max_condition_set_size,
                    max < usize::MAX,
                    n == num_vars,
                    condition_size <= max,
                    count == snapshot.len(),
                    edges_to_test@ == snapshot,
                    is_pair_list(snapshot, n),
                    forall|a: usize, b: usize, s: &[usize]| call_requires(*test, (a, b, s)),
                    is_pair_list(edges@, n),
                    forall|x: (usize, usize)| #[trigger] edges@.contains(x) ==> snapshot.contains(x),
                    forall|a: usize, b: usize| a < b < num_vars && !edges@.contains((a, b)) ==>
                        separated(*test, a, b, n, max as nat),
                    condition_size > 0 ==> forall|k: int| 0 <= k < edges@.len() ==>
                        dependent(*test, (#[trigger] edges@[k]).0, edges@[k].1),
                    condition_size == 0 ==> forall|q: int| 0 <= q < t && #[trigger] edges@.contains(snapshot[q]) ==>
                        dependent(*test, snapshot[q].0, snapshot[q].1),
                    forall|oracle: spec_fn(usize, usize, Seq<usize>) -> bool| #[trigger] agrees(*test, oracle) ==>
                        levels_from(oracle, snapshot, condition_size as nat, max as nat, self.config.stable) == pc_skeleton(oracle, n, max as nat, self.config.stable),
                    forall|oracle: spec_fn(usize, usize, Seq<usize>) -> bool| #[trigger] agrees(*test, oracle) ==>
                        edges@ == level_pass(oracle, snapshot, t as nat, condition_size as nat, self.config.stable),
            {
                let (i, j) = edges_to_test[t];
                assert(snapshot[t as int].0 < snapshot[t as int].1 && snapshot[t as int].1 < n);
                let ghost edges_before = edges@;
                let ghost source = if self.config.stable { snapshot } else { edges_before };
                let neighbors_i = if self.config.stable {
                    neighbors_except(&edges_to_test, i, j)
                } else {
                    neighbors_except(&edges, i, j)
                };
                let sets = self.generate_condition_sets(neighbors_i.as_slice(), condition_size);
                let ghost set_views = sets@.map_values(|s: Vec<usize>| s@);
                assert forall|c: int, x: int| 0 <= c < set_views.len() && 0 <= x < set_views[c].len() implies
                    #[trigger] set_views[c][x] < n && set_views[c][x] != i && set_views[c][x] != j && set_views[c].len() == condition_size by {
                    lemma_condition_sets_members(neighbors_i@, condition_size as nat, c);
                    let v = set_views[c][x];
                    assert(other_neighbors(source, i, j).contains(v));
                    lemma_other_neighbors(source, i, j, v);
                    lemma_joined_in_pair_list(source, n, i, v);
                }
                let mut c: usize = 0;
                let mut removed = false;
                while c < sets.len() && !removed
                    invariant
                        max == self.config.max_condition_set_size,
                        n == num_vars,
                        condition_size <= max,
                        i < j < num_vars,
                        set_views == sets@.map_values(|s: Vec<usize>| s@),
                        set_views == condition_sets(neighbors_i@, condition_size as nat),
                        forall|c2: int, x: int| 0 <= c2 < set_views.len() && 0 <= x < set_views[c2].len() ==>
                            #[trigger] set_views[c2][x] < n && set_views[c2][x] != i && set_views[c2][x] != j && set_views[c2].len() == condition_size,
                        c <= sets@.len(),
                        forall|a: usize, b: usize, s: &[usize]| call_requires(*test, (a, b, s)),
                        !removed ==> edges@ == edges_before,
                        strictly_sorted(edges_before),
                        removed ==> forall|x: (usize, usize)| #[trigger] edges@.contains(x) <==> (edges_before.contains(x) && x != (i, j)),
                        removed ==> strictly_sorted(edges@),
                        removed ==> separated(*test, i, j, n, max as nat),
                        neighbors_i@ == other_neighbors(source, i, j),
                        removed ==> edges@ == without(edges_before, (i, j)),
                        removed ==> exists|c2: int| 0 <= c2 < set_views.len() && tested_independent(*test, i, j, #[trigger] set_views[c2]),
                        !removed ==> forall|c2: int| 0 <= c2 < c ==> tested_dependent(*test, i, j, #[trigger] set_views[c2]),
                    decreases sets@.len() - c,
                {
                    let slice = sets[c].as_slice();
                    assert(slice@ == set_views[c as int]);
                    let independent = test(i, j, slice);
                    if independent {
                        remove_pair(&mut edges, (i, j));
                        removed = true;
                        assert(separated(*test, i, j, n, max as nat)) by {
                            assert forall|x: int| 0 <= x < slice@.len() implies #[trigger] slice@[x] < n && slice@[x] != i && slice@[x] != j by {
                                assert(set_views[c as int][x] == slice@[x]);
                            }
                            assert(0 <= c < set_views.len());
                            lemma_condition_sets_members(neighbors_i@, condition_size as nat, c as int);
                            assert(set_views[c as int].len() == condition_size);
                            assert(slice@.len() <= max);
                            assert(call_ensures(*test, (i, j, slice), true));
                        }
                        assert(tested_independent(*test, i, j, set_views[c as int]));
                    } else {
                        assert(call_ensures(*test, (i, j, slice), false));
                        assert(tested_dependent(*test, i, j, set_views[c as int]));
                    }
                    c = c + 1;
                }
                if !removed && condition_size == 0 {
                    proof {
                        assert(set_views.len() == 1 && set_views[0].len() == 0);
                        assert(tested_dependent(*test, i, j, set_views[0]));
                        let s0 = choose|s: &[usize]| s@ == set_views[0] && #[trigger] call_ensures(*test, (i, j, s), false);
                        assert(dependent(*test, i, j));
                    }
                }
                assert forall|oracle: spec_fn(usize, usize, Seq<usize>) -> bool| #[trigger] agrees(*test, oracle) implies
                    edges@ == level_pass(oracle, snapshot, (t + 1) as nat, condition_size as nat, self.config.stable) by {
                    assert(edges_before == level_pass(oracle, snapshot, t as nat, condition_size as nat, self.config.stable));
                    assert(snapshot[t as int] == (i, j));
                    if removed {
                        let c2 = choose|c2: int| 0 <= c2 < set_views.len() && tested_independent(*test, i, j, #[trigger] set_views[c2]);
                        let s2 = choose|s: &[usize]| s@ == set_views[c2] && #[trigger] call_ensures(*test, (i, j, s), true);
                        assert(oracle(i, j, set_views[c2]));
                        assert(some_set_independent(oracle, source, i, j, condition_size as nat));
                    } else {
                        assert(!some_set_independent(oracle, source, i, j, condition_size as nat)) by {
                            let sets_v = condition_sets(other_neighbors(source, i, j), condition_size as nat);
                            assert forall|c2: int| 0 <= c2 < sets_v.len() implies !oracle(i, j, #[trigger] sets_v[c2]) by {
                                assert(tested_dependent(*test, i, j, set_views[c2]));
                                let s2 = choose|s: &[usize]| s@ == set_views[c2] && #[trigger] call_ensures(*test, (i, j, s), false);
                            }
                        }
                    }
                }
                // The edge list is still a pair list over n, inside the snapshot.
                assert forall|k: int| 0 <= k < edges@.len() implies (#[trigger] edges@[k]).0 < edges@[k].1 && edges@[k].1 < n by {
                    assert(edges@.contains(edges@[k]));
                    if removed {
                        assert(edges_before.contains(edges@[k]));
                    }
                }
                assert forall|x: (usize, usize)| #[trigger] edges@.contains(x) implies snapshot.contains(x) by {
                    if removed {
                        assert(edges_before.contains(x));
                    }
                }
                assert forall|a: usize, b: usize| a < b < num_vars && !edges@.contains((a, b)) implies
                    separated(*test, a, b, n, max as nat) by {
                    if removed && edges_before.contains((a, b)) {
                        assert((a, b) == (i, j));
                    }
                }
                if condition_size > 0 {
                    assert forall|k: int| 0 <= k < edges@.len() implies dependent(*test, (#[trigger] edges@[k]).0, edges@[k].1) by {
                        assert(edges@.contains(edges@[k]));
                        if removed {
                            assert(edges_before.contains(edges@[k]));
                        }
                        let q = choose|q: int| 0 <= q < edges_before.len() && edges_before[q] == edges@[k];
                        assert(dependent(*test, edges_before[q].0, edges_before[q].1));
                    }
                } else {
                    assert forall|q: int| 0 <= q < t + 1 && #[trigger] edges@.contains(snapshot[q]) implies
                        dependent(*test, snapshot[q].0, snapshot[q].1) by {
                        if q < t {
                            if removed {
                                assert(edges_before.contains(snapshot[q]));
                            }
                        } else {
                            assert(snapshot[q] == (i, j));
                        }
                    }
                }
            }
            if condition_size == 0 {
                assert forall|k: int| 0 <= k < edges@.len() implies dependent(*test, (#[trigger] edges@[k]).0, edges@[k].1) by {
                    assert(edges@.contains(edges@[k]));
                    let q = choose|q: int| 0 <= q < snapshot.len() && snapshot[q] == edges@[k];
                    assert(edges@.contains(snapshot[q]));
                }
            }
            assert forall|oracle: spec_fn(usize, usize, Seq<usize>) -> bool| #[trigger] agrees(*test, oracle) implies
                levels_from(oracle, edges@, (condition_size + 1) as nat, max as nat, self.config.stable) == pc_skeleton(oracle, n, max as nat, self.config.stable) by {
                assert(edges@ == level_pass(oracle, snapshot, snapshot.len(), condition_size as nat, self.config.stable));
            }
            condition_size = condition_size + 1;
        }
        edges
    }

    /// Infers a causal graph over the named variables: discovers the
    /// skeleton with `test`, orients it, and builds the graph of the arrows.
    pub fn infer_causal_graph<F: Fn(usize, usize, &[usize]) -> bool>(&self, variable_names: &[String], test: &F) -> (r: CausalDiscoveryResult)
        requires
            self.config.max_condition_set_size < usize::MAX,
            forall|a: usize, b: usize, s: &[usize]| call_requires(*test, (a, b, s)),
        ensures
            r.num_variables == variable_names@.len(),
            r.variable_names@ == variable_names@,
            is_pair_list(r.skeleton_edges@, r.num_variables as nat),
            forall|a: usize, b: usize| a < b < r.num_variables && !r.skeleton_edges@.contains((a, b)) ==>
                separated(*test, a, b, r.num_variables as nat, self.config.max_condition_set_size as nat),
            forall|k: int| 0 <= k < r.skeleton_edges@.len() ==>
                dependent(*test, (#[trigger] r.skeleton_edges@[k]).0, r.skeleton_edges@[k].1),
            forall|oracle: spec_fn(usize, usize, Seq<usize>) -> bool| #[trigger] agrees(*test, oracle) ==>
                r.skeleton_edges@ == pc_skeleton(oracle, r.num_variables as nat, self.config.max_condition_set_size as nat, self.config.stable),
            strictly_sorted(r.oriented_edges@),
            forall|e: (usize, usize)| r.oriented_edges@.contains(e) <==>
                is_oriented_edge(r.skeleton_edges@, r.num_variables as nat, e),
            r.graph.num_nodes == r.num_variables,
            r.graph.edges@ == r.oriented_edges@,
            r.graph.node_dim == 32,
            r.graph.wf(),
    {
        let num_vars = variable_names.len();
        let skeleton = self.discover_skeleton(num_vars, test);
        let oriented_edges = self.orient_edges(&skeleton, num_vars);
        let mut graph = Graph::empty(32);
        for k in 0..num_vars
            invariant
                graph.num_nodes == k,
                graph.edges@.len() == 0,
                graph.node_dim == 32,
        {
            graph.add_node();
        }
        let count = oriented_edges.len();
        for p in 0..count
            invariant
                count == oriented_edges@.len(),
                graph.num_nodes == num_vars,
                graph.node_dim == 32,
                graph.edges@ == oriented_edges@.take(p as int),
                is_pair_list(skeleton@, num_vars as nat),
                forall|e: (usize, usize)| oriented_edges@.contains(e) <==> is_oriented_edge(skeleton@, num_vars as nat, e),
        {
            let (src, dst) = oriented_edges[p];
            proof {
                assert(oriented_edges@.contains((src, dst)));
                let (a, b, k) = choose|a: usize, b: usize, k: usize| #[trigger] forms_collider(skeleton@, num_vars as nat, a, b, k, (src, dst));
            }
            graph.add_edge(src, dst);
            assert(graph.edges@ =~= oriented_edges@.take(p + 1));
        }
        assert(graph.edges@ =~= oriented_edges@);
        assert(graph.wf()) by {
            assert forall|i: int| 0 <= i < graph.edges@.len() implies
                (#[trigger] graph.edges@[i]).0 < graph.num_nodes && graph.edges@[i].1 < graph.num_nodes by {
                let e = graph.edges@[i];
                assert(oriented_edges@.contains(e));
                let (a, b, k) = choose|a: usize, b: usize, k: usize| #[trigger] forms_collider(skeleton@, num_vars as nat, a, b, k, e);
            }
        }
        let mut names: Vec<String> = Vec::new();
        for k in 0..num_vars
            invariant
                num_vars == variable_names@.len(),
                names@ == variable_names@.take(k as int),
        {
            names.push(variable_names[k].clone());
            assert(names@ =~= variable_names@.take(k + 1));
        }
        assert(names@ =~= variable_names@);
        CausalDiscoveryResult {
            graph,
            skeleton_edges: skeleton,
            oriented_edges,
            variable_names: names,
            num_variables: num_vars,
        }
    }

    /// Orients the skeleton by its v-structures: for each pair of variables
    /// `i < j` that the skeleton does not join and each other variable `k`
    /// adjacent to both, the arrows `i -> k` and `j -> k`. The arrows come out
    /// sorted, each once.
    pub fn orient_edges(&self, skeleton: &Vec<(usize, usize)>, num_vars: usize) -> (oriented: Vec<(usize, usize)>)
        ensures
            strictly_sorted(oriented@),
            forall|e: (usize, usize)| oriented@.contains(e) <==> is_oriented_edge(skeleton@, num_vars as nat, e),
    {
        let ghost sk = skeleton@;
        let ghost n = num_vars as nat;
        let mut oriented: Vec<(usize, usize)> = Vec::new();
        for i in 0..num_vars
            invariant
                sk == skeleton@,
                n == num_vars,
                strictly_sorted(oriented@),
                forall|e: (usize, usize)| oriented@.contains(e) <==> oriented_before(sk, n, i, 0, 0, e),
        {
            assert forall|e: (usize, usize)| oriented@.contains(e) <==> oriented_before(sk, n, i, (i + 1) as usize, 0, e) by {
                if oriented_before(sk, n, i, (i + 1) as usize, 0, e) {
                    let (i2, j2, k2) = choose|i2: usize, j2: usize, k2: usize| #[trigger] forms_collider(sk, n, i2, j2, k2, e) && triple_lt(i2, j2, k2, i, (i + 1) as usize, 0);
                    assert(triple_lt(i2, j2, k2, i, 0, 0));
                }
                if oriented_before(sk, n, i, 0, 0, e) {
                    let (i2, j2, k2) = choose|i2: usize, j2: usize, k2: usize| #[trigger] forms_collider(sk, n, i2, j2, k2, e) && triple_lt(i2, j2, k2, i, 0, 0);
                    assert(triple_lt(i2, j2, k2, i, (i + 1) as usize, 0));
                }
            }
            for j in (i + 1)..num_vars
                invariant
                    sk == skeleton@,
                    n == num_vars,
                    i < num_vars,
                    strictly_sorted(oriented@),
                    forall|e: (usize, usize)| oriented@.contains(e) <==> oriented_before(sk, n, i, j, 0, e),
            {
                if !has_edge(skeleton, i, j) {
                    for k in 0..num_vars
                        invariant
                            sk == skeleton@,
                            n == num_vars,
                            i < j < num_vars,
                            !joined(sk, i, j),
                            strictly_sorted(oriented@),
                            forall|e: (usize, usize)| oriented@.contains(e) <==> oriented_before(sk, n, i, j, k, e),
                    {
                        let found = k != i && k != j && has_edge(skeleton, i, k) && has_edge(skeleton, k, j);
                        if found {
                            insert_sorted(&mut oriented, (i, k));
                            insert_sorted(&mut oriented, (j, k));
                        }
                        assert forall|e: (usize, usize)| oriented@.contains(e) <==> oriented_before(sk, n, i, j, (k + 1) as usize, e) by {
                            if found {
                                assert(forms_collider(sk, n, i, j, k, (i, k)));
                                assert(forms_collider(sk, n, i, j, k, (j, k)));
                                if e == (i, k) || e == (j, k) {
                                    assert(triple_lt(i, j, k, i, j, (k + 1) as usize));
                                }
                            }
                            if oriented_before(sk, n, i, j, (k + 1) as usize, e) {
                                let (i2, j2, k2) = choose|i2: usize, j2: usize, k2: usize| #[trigger] forms_collider(sk, n, i2, j2, k2, e) && triple_lt(i2, j2, k2, i, j, (k + 1) as usize);
                                if !triple_lt(i2, j2, k2, i, j, k) {
                                    assert(i2 == i && j2 == j && k2 == k);
                                }
                            }
                            if oriented_before(sk, n, i, j, k, e) {
                                let (i2, j2, k2) = choose|i2: usize, j2: usize, k2: usize| #[trigger] forms_collider(sk, n, i2, j2, k2, e) && triple_lt(i2, j2, k2, i, j, k);
                                assert(triple_lt(i2, j2, k2, i, j, (k + 1) as usize));
                            }
                        }
                    }
                }
                assert forall|e: (usize, usize)| oriented@.contains(e) <==> oriented_before(sk, n, i, (j + 1) as usize, 0, e) by {
                    if oriented_before(sk, n, i, (j + 1) as usize, 0, e) {
                        let (i2, j2, k2) = choose|i2: usize, j2: usize, k2: usize| #[trigger] forms_collider(sk, n, i2, j2, k2, e) && triple_lt(i2, j2, k2, i, (j + 1) as usize, 0);
                        if !triple_lt(i2, j2, k2, i, j, 0) {
                            assert(i2 == i && j2 == j);
                            assert(!joined(sk, i, j));
                            assert(triple_lt(i2, j2, k2, i, j, num_vars));
                        }
                    }
                    if oriented_before(sk, n, i, j, num_vars, e) {
                        let (i2, j2, k2) = choose|i2: usize, j2: usize, k2: usize| #[trigger] forms_collider(sk, n, i2, j2, k2, e) && triple_lt(i2, j2, k2, i, j, num_vars);
                        assert(triple_lt(i2, j2, k2, i, (j + 1) as usize, 0));
                    }
                    if oriented_before(sk, n, i, j, 0, e) {
                        let (i2, j2, k2) = choose|i2: usize, j2: usize, k2: usize| #[trigger] forms_collider(sk, n, i2, j2, k2, e) && triple_lt(i2, j2, k2, i, j, 0);
                        assert(triple_lt(i2, j2, k2, i, (j + 1) as usize, 0));
                    }
                }
            }
            assert forall|e: (usize, usize)| oriented@.contains(e) <==> oriented_before(sk, n, (i + 1) as usize, 0, 0, e) by {
                if oriented_before(sk, n, (i + 1) as usize, 0, 0, e) {
                    let (i2, j2, k2) = choose|i2: usize, j2: usize, k2: usize| #[trigger] forms_collider(sk, n, i2, j2, k2, e) && triple_lt(i2, j2, k2, (i + 1) as usize, 0, 0);
                    assert(triple_lt(i2, j2, k2, i, num_vars, 0));
                }
                if oriented_before(sk, n, i, num_vars, 0, e) {
                    let (i2, j2, k2) = choose|i2: usize, j2: usize, k2: usize| #[trigger] forms_collider(sk, n, i2, j2, k2, e) && triple_lt(i2, j2, k2, i, num_vars, 0);
                    assert(triple_lt(i2, j2, k2, (i + 1) as usize, 0, 0));
                }
            }
        }
        assert forall|e: (usize, usize)| oriented@.contains(e) <==> is_oriented_edge(sk, n, e) by {
            if is_oriented_edge(sk, n, e) {
                let (i2, j2, k2) = choose|i2: usize, j2: usize, k2: usize| #[trigger] forms_collider(sk, n, i2, j2, k2, e);
                assert(triple_lt(i2, j2, k2, num_vars, 0, 0));
            }
        }
        oriented
    }
}

} // verus!
