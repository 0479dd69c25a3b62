//! Connected components of an undirected graph on the nodes `0..n`.

use vstd::prelude::*;

verus! {

/// An edge: the two nodes that it joins.
pub type Edge = (usize, usize);

/// Both ends of every edge are nodes.
pub open spec fn edges_in_range(n: int, edges: Seq<Edge>) -> bool {
    forall|k: int| 0 <= k < edges.len() ==> (#[trigger] edges[k]).0 < n && edges[k].1 < n
}

/// The edge `e` joins `a` and `b`, in either direction.
pub open spec fn joins(e: Edge, a: int, b: int) -> bool {
    (e.0 == a && e.1 == b) || (e.0 == b && e.1 == a)
}

/// Some edge joins `a` and `b`.
pub open spec fn adjacent(edges: Seq<Edge>, a: int, b: int) -> bool {
    exists|k: int| 0 <= k < edges.len() && joins(#[trigger] edges[k], a, b)
}

/// No edge joins a node to itself, and no two edges join the same nodes.
pub open spec fn is_simple(edges: Seq<Edge>) -> bool {
    &&& forall|k: int| 0 <= k < edges.len() ==> (#[trigger] edges[k]).0 != edges[k].1
    &&& forall|k: int, l: int|
        0 <= k < l < edges.len() ==> !joins(
            #[trigger] edges[l],
            (#[trigger] edges[k]).0 as int,
            edges[k].1 as int,
        )
}

/// `path` leads from `a` to `b` along edges.
pub open spec fn is_walk(edges: Seq<Edge>, path: Seq<int>, a: int, b: int) -> bool {
    &&& path.len() >= 1
    &&& path[0] == a
    &&& path[path.len() - 1] == b
    &&& forall|i: int| 0 <= i < path.len() - 1 ==> adjacent(edges, #[trigger] path[i], path[i + 1])
}

/// `a` and `b` lie in one component: a walk leads from one to the other.
pub open spec fn connected(edges: Seq<Edge>, a: int, b: int) -> bool {
    exists|path: Seq<int>| is_walk(edges, path, a, b)
}

/// `a` is a member of `party`.
pub open spec fn in_party(party: Seq<usize>, a: int) -> bool {
    exists|t: int| 0 <= t < party.len() && #[trigger] party[t] == a
}

/// Some party of `parties` holds both `a` and `b`.
pub open spec fn together(parties: Seq<Seq<usize>>, a: int, b: int) -> bool {
    exists|p: int|
        0 <= p < parties.len() && in_party(#[trigger] parties[p], a) && in_party(parties[p], b)
}

/// `parties` are the components of the graph that have two nodes or more:
/// every party has at least two members, all of them nodes; the members of
/// a party are connected; no node stands twice, in one party or in two; and
/// two different nodes that are connected stand in one party.
pub open spec fn is_party_list(n: int, edges: Seq<Edge>, parties: Seq<Seq<usize>>) -> bool {
    &&& forall|p: int| 0 <= p < parties.len() ==> (#[trigger] parties[p]).len() >= 2
    &&& forall|p: int, t: int|
        0 <= p < parties.len() && 0 <= t < parties[p].len() ==> (#[trigger] parties[p][t]) < n
    &&& forall|p: int, s: int, t: int|
        0 <= p < parties.len() && 0 <= s < parties[p].len() && 0 <= t < parties[p].len()
            ==> connected(edges, #[trigger] parties[p][s] as int, #[trigger] parties[p][t] as int)
    &&& forall|p: int, s: int, q: int, t: int|
        0 <= p < parties.len() && 0 <= s < parties[p].len() && 0 <= q < parties.len() && 0 <= t
            < parties[q].len() && #[trigger] parties[p][s] == #[trigger] parties[q][t] ==> p == q
            && s == t
    &&& forall|a: int, b: int|
        0 <= a < n && 0 <= b < n && a != b && #[trigger] connected(edges, a, b) ==> together(
            parties,
            a,
            b,
        )
}

/// The members of each party ascend, and the parties stand in the order of
/// their first members.
pub open spec fn in_canonical_order(parties: Seq<Seq<usize>>) -> bool {
    &&& forall|p: int, s: int, t: int|
        0 <= p < parties.len() && 0 <= s < t < parties[p].len() ==> (#[trigger] parties[p][s])
            < #[trigger] parties[p][t]
    &&& forall|p: int, q: int|
        0 <= p < q < parties.len() && parties[p].len() > 0 && parties[q].len() > 0
            ==> (#[trigger] parties[p])[0] < (#[trigger] parties[q])[0]
}

/// Every node is connected to itself.
pub proof fn lemma_connected_reflexive(edges: Seq<Edge>, a: int)
    ensures
        connected(edges, a, a),
{
    assert(is_walk(edges, seq![a], a, a));
}

/// Two nodes that an edge joins are connected.
pub proof fn lemma_adjacent_connected(edges: Seq<Edge>, a: int, b: int)
    requires
        adjacent(edges, a, b),
    ensures
        connected(edges, a, b),
{
    let path = seq![a, b];
    assert forall|i: int| 0 <= i < path.len() - 1 implies adjacent(
        edges,
        #[trigger] path[i],
        path[i + 1],
    ) by {
        assert(i == 0);
    }
    assert(is_walk(edges, path, a, b));
}

/// An edge joins its ends in either order.
pub proof fn lemma_adjacent_symmetric(edges: Seq<Edge>, a: int, b: int)
    requires
        adjacent(edges, a, b),
    ensures
        adjacent(edges, b, a),
{
    let k = choose|k: int| 0 <= k < edges.len() && joins(#[trigger] edges[k], a, b);
    assert(joins(edges[k], b, a));
}

/// If `a` is connected to `b`, then `b` is connected to `a`.
pub proof fn lemma_connected_symmetric(edges: Seq<Edge>, a: int, b: int)
    requires
        connected(edges, a, b),
    ensures
        connected(edges, b, a),
{
    let path = choose|path: Seq<int>| is_walk(edges, path, a, b);
    let back = Seq::new(path.len(), |i: int| path[path.len() - 1 - i]);
    assert forall|i: int| 0 <= i < back.len() - 1 implies adjacent(
        edges,
        #[trigger] back[i],
        back[i + 1],
    ) by {
        let j = path.len() - 2 - i;
        assert(adjacent(edges, path[j], path[j + 1]));
        lemma_adjacent_symmetric(edges, path[j], path[j + 1]);
    }
    assert(is_walk(edges, back, b, a));
}

/// If `a` is connected to `b` and `b` to `c`, then `a` is connected to `c`.
pub proof fn lemma_connected_transitive(edges: Seq<Edge>, a: int, b: int, c: int)
    requires
        connected(edges, a, b),
        connected(edges, b, c),
    ensures
        connected(edges, a, c),
{
    let first = choose|path: Seq<int>| is_walk(edges, path, a, b);
    let second = choose|path: Seq<int>| is_walk(edges, path, b, c);
    let path = first + second.skip(1);
    assert forall|i: int| 0 <= i < path.len() - 1 implies adjacent(
        edges,
        #[trigger] path[i],
        path[i + 1],
    ) by {
        if i < first.len() - 1 {
            assert(adjacent(edges, first[i], first[i + 1]));
        } else {
            let j = i - (first.len() - 1);
            assert(adjacent(edges, second[j], second[j + 1]));
            assert(path[i] == second[j]);
            assert(path[i + 1] == second[j + 1]);
        }
    }
    assert(is_walk(edges, path, a, c));
}

/// Two graphs that join the same pairs of nodes connect the same pairs of
/// nodes.
pub proof fn lemma_same_edges_same_components(first: Seq<Edge>, second: Seq<Edge>, a: int, b: int)
    requires
        forall|x: int, y: int| adjacent(first, x, y) == adjacent(second, x, y),
    ensures
        connected(first, a, b) == connected(second, a, b),
{
    if connected(first, a, b) {
        let path = choose|path: Seq<int>| is_walk(first, path, a, b);
        assert forall|i: int| 0 <= i < path.len() - 1 implies adjacent(
            second,
            #[trigger] path[i],
            path[i + 1],
        ) by {
            assert(adjacent(first, path[i], path[i + 1]));
        }
        assert(is_walk(second, path, a, b));
    }
    if connected(second, a, b) {
        let path = choose|path: Seq<int>| is_walk(second, path, a, b);
        assert forall|i: int| 0 <= i < path.len() - 1 implies adjacent(
            first,
            #[trigger] path[i],
            path[i + 1],
        ) by {
            assert(adjacent(second, path[i], path[i + 1]));
        }
        assert(is_walk(first, path, a, b));
    }
}

/// Two lists of parties of one graph part its nodes alike: two nodes stand
/// together in the one exactly if they stand together in the other.
pub proof fn lemma_party_lists_agree(
    n: int,
    edges: Seq<Edge>,
    first: Seq<Seq<usize>>,
    second: Seq<Seq<usize>>,
    a: int,
    b: int,
)
    requires
        is_party_list(n, edges, first),
        is_party_list(n, edges, second),
    ensures
        together(first, a, b) == together(second, a, b),
{
    if a != b {
        lemma_together_is_connected(n, edges, first, a, b);
        lemma_together_is_connected(n, edges, second, a, b);
    } else {
        lemma_in_some_party(n, edges, first, a);
        lemma_in_some_party(n, edges, second, a);
    }
}

/// A node stands in a party exactly if it is a node of the graph and
/// connected to another one.
pub proof fn lemma_in_some_party(n: int, edges: Seq<Edge>, parties: Seq<Seq<usize>>, a: int)
    requires
        is_party_list(n, edges, parties),
    ensures
        together(parties, a, a) == (0 <= a < n && exists|b: int|
            0 <= b < n && b != a && #[trigger] connected(edges, a, b)),
{
    if together(parties, a, a) {
        let p = choose|p: int|
            0 <= p < parties.len() && in_party(#[trigger] parties[p], a) && in_party(
                parties[p],
                a,
            );
        let s = choose|t: int| 0 <= t < parties[p].len() && #[trigger] parties[p][t] == a;
        assert(parties[p][s] < n);
        lemma_parties_partition(n, edges, parties, a);
    }
    if 0 <= a < n && exists|b: int| 0 <= b < n && b != a && #[trigger] connected(edges, a, b) {
        let b = choose|b: int| 0 <= b < n && b != a && #[trigger] connected(edges, a, b);
        assert(together(parties, a, b));
    }
}

/// Two different nodes stand in one party exactly if they are nodes of the
/// graph and connected.
pub proof fn lemma_together_is_connected(
    n: int,
    edges: Seq<Edge>,
    parties: Seq<Seq<usize>>,
    a: int,
    b: int,
)
    requires
        is_party_list(n, edges, parties),
        a != b,
    ensures
        together(parties, a, b) == (0 <= a < n && 0 <= b < n && connected(edges, a, b)),
{
    if together(parties, a, b) {
        let p = choose|p: int|
            0 <= p < parties.len() && in_party(#[trigger] parties[p], a) && in_party(
                parties[p],
                b,
            );
        let s = choose|t: int| 0 <= t < parties[p].len() && #[trigger] parties[p][t] == a;
        let t = choose|t: int| 0 <= t < parties[p].len() && #[trigger] parties[p][t] == b;
        assert(connected(edges, parties[p][s] as int, parties[p][t] as int));
        assert(parties[p][s] < n && parties[p][t] < n);
    }
}

/// The parties and the nodes that stand alone make up the nodes, and no
/// node belongs to two parties: a node of the graph either stands in exactly
/// one party, at one place, or is connected to no node but itself.
pub proof fn lemma_parties_partition(n: int, edges: Seq<Edge>, parties: Seq<Seq<usize>>, a: int)
    requires
        is_party_list(n, edges, parties),
        0 <= a < n,
    ensures
        (exists|p: int| 0 <= p < parties.len() && in_party(#[trigger] parties[p], a)) != (forall|
            b: int,
        |
            0 <= b < n && #[trigger] connected(edges, a, b) ==> b == a),
        forall|p: int, q: int|
            0 <= p < parties.len() && 0 <= q < parties.len() && in_party(
                #[trigger] parties[p],
                a,
            ) && in_party(#[trigger] parties[q], a) ==> p == q,
        forall|p: int, t: int|
            0 <= p < parties.len() && 0 <= t < parties[p].len() ==> 0 <= (
            #[trigger] parties[p][t]) < n,
{
    assert forall|p: int, q: int|
        0 <= p < parties.len() && 0 <= q < parties.len() && in_party(#[trigger] parties[p], a)
            && in_party(#[trigger] parties[q], a) implies p == q by {
        let s = choose|t: int| 0 <= t < parties[p].len() && #[trigger] parties[p][t] == a;
        let t = choose|t: int| 0 <= t < parties[q].len() && #[trigger] parties[q][t] == a;
        assert(parties[p][s] == parties[q][t]);
    }
    if exists|p: int| 0 <= p < parties.len() && in_party(#[trigger] parties[p], a) {
        let p = choose|p: int| 0 <= p < parties.len() && in_party(#[trigger] parties[p], a);
        let s = choose|t: int| 0 <= t < parties[p].len() && #[trigger] parties[p][t] == a;
        let t = if s == 0 {
            1int
        } else {
            0int
        };
        assert(parties[p].len() >= 2);
        let b = parties[p][t] as int;
        assert(connected(edges, parties[p][s] as int, parties[p][t] as int));
        assert(b != a) by {
            if b == a {
                assert(parties[p][s] == parties[p][t]);
            }
        }
        assert(parties[p][t] < n);
    } else {
        assert forall|b: int| 0 <= b < n && #[trigger] connected(edges, a, b) implies b == a by {
            if b != a {
                assert(together(parties, a, b));
            }
        }
    }
}

/// The members of `party` ascend.
pub open spec fn ascends(party: Seq<usize>) -> bool {
    forall|s: int, t: int| 0 <= s < t < party.len() ==> #[trigger] party[s] < #[trigger] party[t]
}

/// Two ascending lists with the same members are the same list.
pub proof fn lemma_ascending_lists_equal(first: Seq<usize>, second: Seq<usize>)
    requires
        ascends(first),
        ascends(second),
        forall|x: int| in_party(first, x) == in_party(second, x),
    ensures
        first == second,
    decreases first.len(),
{
    if first.len() == 0 {
        if second.len() > 0 {
            assert(in_party(second, second[0] as int));
            let t = choose|t: int| 0 <= t < first.len() && #[trigger] first[t] == second[0];
        }
        assert(first =~= second);
    } else {
        let top = first[first.len() - 1];
        assert(in_party(first, top as int));
        let at = choose|t: int| 0 <= t < second.len() && #[trigger] second[t] == top;
        let other = second[second.len() - 1];
        assert(in_party(second, other as int));
        let back = choose|t: int| 0 <= t < first.len() && #[trigger] first[t] == other;
        assert(top == other) by {
            if at < second.len() - 1 {
                assert(second[at] < second[second.len() - 1]);
            }
            if back < first.len() - 1 {
                assert(first[back] < first[first.len() - 1]);
            }
        }
        let a = first.drop_last();
        let b = second.drop_last();
        assert forall|x: int| in_party(a, x) == in_party(b, x) by {
            if in_party(a, x) {
                let t = choose|t: int| 0 <= t < a.len() && #[trigger] a[t] == x;
                assert(first[t] == x);
                assert(first[t] < first[first.len() - 1]);
                assert(in_party(first, x));
                let u = choose|u: int| 0 <= u < second.len() && #[trigger] second[u] == x;
                assert(b[u] == x);
            }
            if in_party(b, x) {
                let t = choose|t: int| 0 <= t < b.len() && #[trigger] b[t] == x;
                assert(second[t] == x);
                assert(second[t] < second[second.len() - 1]);
                assert(in_party(second, x));
                let u = choose|u: int| 0 <= u < first.len() && #[trigger] first[u] == x;
                assert(a[u] == x);
            }
        }
        assert(ascends(a)) by {
            assert forall|s: int, t: int| 0 <= s < t < a.len() implies #[trigger] a[s]
                < #[trigger] a[t] by {
                assert(first[s] < first[t]);
            }
        }
        assert(ascends(b)) by {
            assert forall|s: int, t: int| 0 <= s < t < b.len() implies #[trigger] b[s]
                < #[trigger] b[t] by {
                assert(second[s] < second[t]);
            }
        }
        lemma_ascending_lists_equal(a, b);
        assert(first =~= a.push(top));
        assert(second =~= b.push(other));
    }
}

/// Each party of one list is a party of any other list of the same graph,
/// and stands there no earlier than in its own list.
proof fn lemma_party_found(
    n: int,
    edges: Seq<Edge>,
    first: Seq<Seq<usize>>,
    second: Seq<Seq<usize>>,
    p: int,
) -> (q: int)
    requires
        is_party_list(n, edges, first),
        in_canonical_order(first),
        is_party_list(n, edges, second),
        in_canonical_order(second),
        0 <= p < first.len(),
    ensures
        p <= q < second.len(),
        second[q] == first[p],
    decreases p,
{
    let party = first[p];
    let a = party[0] as int;
    let b = party[1] as int;
    assert(party.len() >= 2);
    assert(a != b) by {
        if a == b {
            assert(first[p][0] == first[p][1]);
        }
    }
    assert(first[p][0] < n && first[p][1] < n);
    assert(connected(edges, first[p][0] as int, first[p][1] as int));
    assert(together(second, a, b));
    let q = choose|q: int|
        0 <= q < second.len() && in_party(#[trigger] second[q], a) && in_party(second[q], b);
    let qa = choose|t: int| 0 <= t < second[q].len() && #[trigger] second[q][t] == a;
    assert forall|x: int| in_party(party, x) == in_party(second[q], x) by {
        if in_party(party, x) && x != a {
            let t = choose|t: int| 0 <= t < party.len() && #[trigger] party[t] == x;
            assert(first[p][t] < n);
            assert(connected(edges, first[p][0] as int, first[p][t] as int));
            assert(together(second, a, x));
            let r = choose|r: int|
                0 <= r < second.len() && in_party(#[trigger] second[r], a) && in_party(
                    second[r],
                    x,
                );
            let ra = choose|t: int| 0 <= t < second[r].len() && #[trigger] second[r][t] == a;
            assert(second[r][ra] == second[q][qa]);
        }
        if in_party(second[q], x) && x != a {
            let t = choose|t: int| 0 <= t < second[q].len() && #[trigger] second[q][t] == x;
            assert(second[q][t] < n);
            assert(connected(edges, second[q][qa] as int, second[q][t] as int));
            assert(together(first, a, x));
            let r = choose|r: int|
                0 <= r < first.len() && in_party(#[trigger] first[r], a) && in_party(first[r], x);
            let ra = choose|t: int| 0 <= t < first[r].len() && #[trigger] first[r][t] == a;
            assert(first[r][ra] == first[p][0]);
        }
        if x == a {
            assert(party[0] == a);
        }
    }
    assert(ascends(party)) by {
        assert forall|s: int, t: int| 0 <= s < t < party.len() implies #[trigger] party[s]
            < #[trigger] party[t] by {
            assert(first[p][s] < first[p][t]);
        }
    }
    assert(ascends(second[q])) by {
        assert forall|s: int, t: int| 0 <= s < t < second[q].len() implies #[trigger] second[q][s]
            < #[trigger] second[q][t] by {}
    }
    lemma_ascending_lists_equal(party, second[q]);
    if p > 0 {
        let before = lemma_party_found(n, edges, first, second, p - 1);
        assert(first[p - 1].len() >= 2 && first[p].len() >= 2);
        assert(first[p - 1][0] < first[p][0]);
        if q <= before {
            if q < before {
                assert(second[q].len() >= 2 && second[before].len() >= 2);
                assert(second[q][0] < second[before][0]);
            }
        }
    }
    q
}

/// The parties of a graph, in their canonical order, are one list and no
/// other: whoever computes them, and from whichever list of the same edges.
pub proof fn lemma_party_list_unique(
    n: int,
    edges: Seq<Edge>,
    parties: Seq<Seq<usize>>,
    other_edges: Seq<Edge>,
    other_parties: Seq<Seq<usize>>,
)
    requires
        forall|x: int, y: int| adjacent(edges, x, y) == adjacent(other_edges, x, y),
        is_party_list(n, edges, parties),
        in_canonical_order(parties),
        is_party_list(n, other_edges, other_parties),
        in_canonical_order(other_parties),
    ensures
        parties == other_parties,
{
    assert forall|x: int, y: int| connected(edges, x, y) == connected(other_edges, x, y) by {
        lemma_same_edges_same_components(edges, other_edges, x, y);
    }
    assert(is_party_list(n, edges, other_parties));
    assert forall|p: int| 0 <= p < parties.len() implies p < other_parties.len()
        && #[trigger] other_parties[p] == parties[p] by {
        let q = lemma_party_found(n, edges, parties, other_parties, p);
        let back = lemma_party_found(n, edges, other_parties, parties, q);
        assert(parties[back].len() >= 2);
        assert(parties[back][0] == parties[p][0]);
    }
    if other_parties.len() > 0 {
        let last = other_parties.len() - 1;
        let p = lemma_party_found(n, edges, other_parties, parties, last);
    }
    if parties.len() > 0 {
        let last = parties.len() - 1;
        assert(other_parties[last] == parties[last]);
    }
    assert(parties.len() == other_parties.len());
    assert forall|p: int| 0 <= p < parties.len() implies parties[p] == other_parties[p] by {
        assert(other_parties[p] == parties[p]);
    }
    assert(parties =~= other_parties);
}

/// Every node's parent is the node itself or an earlier node.
spec fn is_forest(parent: Seq<usize>) -> bool {
    forall|i: int| 0 <= i < parent.len() ==> #[trigger] parent[i] <= i
}

/// The node that the parents of `i` lead to.
spec fn root(parent: Seq<usize>, i: int) -> int
    decreases i,
{
    if 0 <= i < parent.len() && parent[i] < i {
        root(parent, parent[i] as int)
    } else {
        i
    }
}

proof fn lemma_root_is_root(parent: Seq<usize>, i: int)
    requires
        is_forest(parent),
        0 <= i < parent.len(),
    ensures
        0 <= root(parent, i) <= i,
        parent[root(parent, i)] == root(parent, i),
        root(parent, root(parent, i)) == root(parent, i),
    decreases i,
{
    if parent[i] < i {
        lemma_root_is_root(parent, parent[i] as int);
    }
}

/// Where every node is connected to its parent, it is connected to its root.
proof fn lemma_root_connected(edges: Seq<Edge>, parent: Seq<usize>, i: int)
    requires
        is_forest(parent),
        0 <= i < parent.len(),
        forall|j: int| 0 <= j < parent.len() ==> connected(edges, j, #[trigger] parent[j] as int),
    ensures
        connected(edges, i, root(parent, i)),
    decreases i,
{
    if parent[i] < i {
        lemma_root_connected(edges, parent, parent[i] as int);
        lemma_connected_transitive(edges, i, parent[i] as int, root(parent, i));
    } else {
        lemma_connected_reflexive(edges, i);
    }
}

/// Hanging the root `hi` under the root `lo` moves the nodes of `hi` to
/// `lo` and leaves every other node with its root.
proof fn lemma_link(parent: Seq<usize>, hi: int, lo: int, i: int)
    requires
        is_forest(parent),
        0 <= lo < hi < parent.len(),
        parent[hi] == hi,
        parent[lo] == lo,
        0 <= i < parent.len(),
    ensures
        root(parent.update(hi, lo as usize), i) == if root(parent, i) == hi {
            lo
        } else {
            root(parent, i)
        },
    decreases i,
{
    let linked = parent.update(hi, lo as usize);
    if i == hi {
        assert(root(linked, lo) == lo);
    } else if parent[i] < i {
        lemma_link(parent, hi, lo, parent[i] as int);
    }
}

/// Where the two ends of every edge have one root, so have the two ends of
/// every walk.
proof fn lemma_walk_keeps_root(edges: Seq<Edge>, parent: Seq<usize>, path: Seq<int>, a: int, b: int)
    requires
        is_walk(edges, path, a, b),
        forall|k: int|
            0 <= k < edges.len() ==> root(parent, (#[trigger] edges[k]).0 as int) == root(
                parent,
                edges[k].1 as int,
            ),
    ensures
        root(parent, a) == root(parent, b),
    decreases path.len(),
{
    if path.len() > 1 {
        let before = path.drop_last();
        let m = path[path.len() - 2];
        assert forall|i: int| 0 <= i < before.len() - 1 implies adjacent(
            edges,
            #[trigger] before[i],
            before[i + 1],
        ) by {
            assert(adjacent(edges, path[i], path[i + 1]));
        }
        assert(is_walk(edges, before, a, m));
        lemma_walk_keeps_root(edges, parent, before, a, m);
        assert(adjacent(edges, path[path.len() - 2], path[path.len() - 2 + 1]));
        let k = choose|k: int| 0 <= k < edges.len() && joins(#[trigger] edges[k], m, b);
    }
}

fn find_root(parent: &Vec<usize>, i: usize) -> (r: usize)
    requires
        is_forest(parent@),
        i < parent@.len(),
    ensures
        r == root(parent@, i as int),
        r <= i,
        parent@[r as int] == r,
{
    let mut x: usize = i;
    while parent[x] != x
        invariant
            is_forest(parent@),
            x <= i < parent@.len(),
            root(parent@, x as int) == root(parent@, i as int),
        decreases x,
    {
        x = parent[x];
    }
    x
}

/// For each node the first node of its component: two nodes have one label
/// exactly if they are connected.
pub fn label_components(n: usize, edges: &Vec<Edge>) -> (labels: Vec<usize>)
    requires
        edges_in_range(n as int, edges@),
    ensures
        labels@.len() == n,
        forall|a: int| 0 <= a < n ==> (#[trigger] labels@[a]) <= a && labels@[labels@[a] as int]
            == labels@[a],
        forall|a: int, b: int|
            0 <= a < n && 0 <= b < n ==> (#[trigger] labels@[a] == #[trigger] labels@[b])
                == connected(edges@, a, b),
{
    let mut parent: Vec<usize> = Vec::new();
    let mut i: usize = 0;
    while i < n
        invariant
            0 <= i <= n,
            parent@.len() == i,
            forall|j: int| 0 <= j < i ==> #[trigger] parent@[j] == j,
        decreases n - i,
    {
        parent.push(i);
        i += 1;
    }
    proof {
        assert forall|j: int| 0 <= j < parent@.len() implies connected(
            edges@,
            j,
            #[trigger] parent@[j] as int,
        ) by {
            lemma_connected_reflexive(edges@, j);
        }
    }
    let mut k: usize = 0;
    while k < edges.len()
        invariant
            0 <= k <= edges@.len(),
            parent@.len() == n,
            edges_in_range(n as int, edges@),
            is_forest(parent@),
            forall|j: int| 0 <= j < n ==> connected(edges@, j, #[trigger] parent@[j] as int),
            forall|j: int|
                0 <= j < k ==> root(parent@, (#[trigger] edges@[j]).0 as int) == root(
                    parent@,
                    edges@[j].1 as int,
                ),
        decreases edges@.len() - k,
    {
        let (u, v) = edges[k];
        let ru = find_root(&parent, u);
        let rv = find_root(&parent, v);
        if ru != rv {
            let (hi, lo) = if ru > rv {
                (ru, rv)
            } else {
                (rv, ru)
            };
            let ghost before = parent@;
            proof {
                assert(adjacent(edges@, u as int, v as int)) by {
                    assert(joins(edges@[k as int], u as int, v as int));
                }
                lemma_adjacent_connected(edges@, u as int, v as int);
                lemma_root_connected(edges@, before, u as int);
                lemma_root_connected(edges@, before, v as int);
                lemma_connected_symmetric(edges@, u as int, ru as int);
                lemma_connected_transitive(edges@, ru as int, u as int, v as int);
                lemma_connected_transitive(edges@, ru as int, v as int, rv as int);
                lemma_connected_symmetric(edges@, ru as int, rv as int);
            }
            parent.set(hi, lo);
            proof {
                assert(parent@ == before.update(hi as int, lo));
                assert forall|j: int| 0 <= j <= k implies root(
                    parent@,
                    (#[trigger] edges@[j]).0 as int,
                ) == root(parent@, edges@[j].1 as int) by {
                    lemma_link(before, hi as int, lo as int, edges@[j].0 as int);
                    lemma_link(before, hi as int, lo as int, edges@[j].1 as int);
                }
            }
        }
        k += 1;
    }
    let mut labels: Vec<usize> = Vec::new();
    let mut a: usize = 0;
    while a < n
        invariant
            0 <= a <= n,
            parent@.len() == n,
            is_forest(parent@),
            labels@.len() == a,
            forall|j: int| 0 <= j < a ==> #[trigger] labels@[j] == root(parent@, j),
        decreases n - a,
    {
        let r = find_root(&parent, a);
        labels.push(r);
        a += 1;
    }
    proof {
        assert forall|a: int| 0 <= a < n implies (#[trigger] labels@[a]) <= a
            && labels@[labels@[a] as int] == labels@[a] by {
            lemma_root_is_root(parent@, a);
        }
        assert forall|a: int, b: int| 0 <= a < n && 0 <= b < n implies (#[trigger] labels@[a]
            == #[trigger] labels@[b]) == connected(edges@, a, b) by {
            lemma_root_connected(edges@, parent@, a);
            lemma_root_connected(edges@, parent@, b);
            if labels@[a] == labels@[b] {
                lemma_connected_symmetric(edges@, b, root(parent@, b));
                lemma_connected_transitive(edges@, a, root(parent@, a), b);
            }
            if connected(edges@, a, b) {
                let path = choose|path: Seq<int>| is_walk(edges@, path, a, b);
                lemma_walk_keeps_root(edges@, parent@, path, a, b);
            }
        }
    }
    labels
}

/// Whether an edge joins `a` and `b`.
pub fn has_edge(edges: &Vec<Edge>, a: usize, b: usize) -> (r: bool)
    ensures
        r == adjacent(edges@, a as int, b as int),
{
    let mut k: usize = 0;
    while k < edges.len()
        invariant
            0 <= k <= edges@.len(),
            forall|l: int| 0 <= l < k ==> !joins(#[trigger] edges@[l], a as int, b as int),
        decreases edges@.len() - k,
    {
        let (u, v) = edges[k];
        if (u == a && v == b) || (u == b && v == a) {
            assert(joins(edges@[k as int], a as int, b as int));
            return true;
        }
        k += 1;
    }
    false
}

/// The members of each party of a list.
pub open spec fn members(parties: Seq<Vec<usize>>) -> Seq<Seq<usize>> {
    parties.map_values(|party: Vec<usize>| party@)
}

/// The nodes `0..i`, each in the bucket of its label, in ascending order.
spec fn sorted_into(buckets: Seq<Vec<usize>>, labels: Seq<usize>, i: int) -> bool {
    &&& buckets.len() == labels.len()
    &&& forall|r: int, t: int|
        0 <= r < buckets.len() && 0 <= t < buckets[r]@.len() ==> (#[trigger] buckets[r]@[t]) < i
            && labels[buckets[r]@[t] as int] == r
    &&& forall|r: int, s: int, t: int|
        0 <= r < buckets.len() && 0 <= s < t < buckets[r]@.len() ==> (#[trigger] buckets[r]@[s])
            < #[trigger] buckets[r]@[t]
    &&& forall|x: int| 0 <= x < i ==> in_party(buckets[#[trigger] labels[x] as int]@, x)
}

/// The components of the graph on the nodes `0..n` that have two nodes or
/// more. The members of a party ascend, and the parties stand in the order
/// of their first members.
pub fn find_parties(n: usize, edges: &Vec<Edge>) -> (parties: Vec<Vec<usize>>)
    requires
        edges_in_range(n as int, edges@),
    ensures
        is_party_list(n as int, edges@, members(parties@)),
        in_canonical_order(members(parties@)),
{
    let labels = label_components(n, edges);
    let mut buckets: Vec<Vec<usize>> = Vec::new();
    let mut i: usize = 0;
    while i < n
        invariant
            0 <= i <= n,
            buckets@.len() == i,
            forall|j: int| 0 <= j < i ==> (#[trigger] buckets@[j])@.len() == 0,
        decreases n - i,
    {
        buckets.push(Vec::new());
        i += 1;
    }
    i = 0;
    while i < n
        invariant
            0 <= i <= n,
            labels@.len() == n,
            forall|a: int| 0 <= a < n ==> (#[trigger] labels@[a]) <= a,
            sorted_into(buckets@, labels@, i as int),
        decreases n - i,
    {
        let label = labels[i];
        let ghost before = buckets@;
        buckets[label].push(i);
        proof {
            assert(buckets@[label as int]@ == before[label as int]@.push(i));
            assert forall|r: int| 0 <= r < n && r != label implies buckets@[r] == before[r] by {}
            assert forall|x: int| 0 <= x < i + 1 implies in_party(
                buckets@[#[trigger] labels@[x] as int]@,
                x,
            ) by {
                let r = labels@[x] as int;
                if x == i {
                    assert(buckets@[r]@[before[r]@.len() as int] == x);
                } else {
                    assert(in_party(before[r]@, x));
                    let t = choose|t: int| 0 <= t < before[r]@.len() && #[trigger] before[r]@[t] == x;
                    assert(buckets@[r]@[t] == x);
                }
            }
            assert forall|r: int, t: int|
                0 <= r < buckets@.len() && 0 <= t < buckets@[r]@.len() implies (
            #[trigger] buckets@[r]@[t]) < i + 1 && labels@[buckets@[r]@[t] as int] == r by {
                if r == label && t < before[r]@.len() {
                    assert(buckets@[r]@[t] == before[r]@[t]);
                } else if r != label {
                    assert(buckets@[r]@[t] == before[r]@[t]);
                }
            }
            assert forall|r: int, s: int, t: int|
                0 <= r < buckets@.len() && 0 <= s < t < buckets@[r]@.len() implies (
            #[trigger] buckets@[r]@[s]) < #[trigger] buckets@[r]@[t] by {
                if r == label {
                    assert(buckets@[r]@[s] == before[r]@[s]);
                    if t < before[r]@.len() {
                        assert(buckets@[r]@[t] == before[r]@[t]);
                    }
                } else {
                    assert(buckets@[r]@[s] == before[r]@[s]);
                    assert(buckets@[r]@[t] == before[r]@[t]);
                }
            }
        }
        i += 1;
    }
    let ghost all = buckets@;
    let ghost mut origin: Seq<int> = Seq::empty();
    let mut parties: Vec<Vec<usize>> = Vec::new();
    let mut r: usize = 0;
    while r < n
        invariant
            0 <= r <= n,
            all.len() == n,
            buckets@.len() == n,
            forall|j: int| r <= j < n ==> #[trigger] buckets@[j] == all[j],
            origin.len() == parties@.len(),
            forall|p: int|
                0 <= p < origin.len() ==> 0 <= (#[trigger] origin[p]) < r && parties@[p]@
                    == all[origin[p]]@ && all[origin[p]]@.len() >= 2,
            forall|p: int, q: int|
                0 <= p < q < origin.len() ==> (#[trigger] origin[p]) < #[trigger] origin[q],
            forall|j: int|
                0 <= j < r && (#[trigger] all[j])@.len() >= 2 ==> exists|p: int|
                    0 <= p < origin.len() && #[trigger] origin[p] == j,
        decreases n - r,
    {
        if buckets[r].len() >= 2 {
            let mut party: Vec<usize> = Vec::new();
            std::mem::swap(&mut party, &mut buckets[r]);
            let ghost before = origin;
            proof {
                origin = origin.push(r as int);
                assert forall|j: int|
                    0 <= j < r + 1 && (#[trigger] all[j])@.len() >= 2 implies exists|p: int|
                    0 <= p < origin.len() && #[trigger] origin[p] == j by {
                    if j < r {
                        let p = choose|p: int| 0 <= p < before.len() && #[trigger] before[p] == j;
                        assert(origin[p] == j);
                    } else {
                        assert(origin[before.len() as int] == j);
                    }
                }
            }
            parties.push(party);
        }
        r += 1;
    }
    proof {
        let list = members(parties@);
        assert(sorted_into(all, labels@, n as int));
        assert forall|p: int| 0 <= p < list.len() implies list[p] == all[origin[p]]@ by {}
        // The first member of a party is the label of its members.
        assert forall|p: int| 0 <= p < list.len() implies (#[trigger] list[p])[0] == origin[p] by {
            let o = origin[p];
            let x = all[o]@[0] as int;
            assert(labels@[x] == o);
            assert(labels@[labels@[x] as int] == labels@[x]);
            assert(in_party(all[labels@[o] as int]@, o));
            let t = choose|t: int| 0 <= t < all[o]@.len() && #[trigger] all[o]@[t] == o;
            if t > 0 {
                assert(all[o]@[0] < all[o]@[t]);
                assert(labels@[x] <= x);
            }
        }
        assert forall|p: int, s: int, t: int|
            0 <= p < list.len() && 0 <= s < list[p].len() && 0 <= t < list[p].len() implies connected(
            edges@,
            #[trigger] list[p][s] as int,
            #[trigger] list[p][t] as int,
        ) by {
            let o = origin[p];
            assert(labels@[all[o]@[s] as int] == o);
            assert(labels@[all[o]@[t] as int] == o);
        }
        assert forall|p: int, s: int, q: int, t: int|
            0 <= p < list.len() && 0 <= s < list[p].len() && 0 <= q < list.len() && 0 <= t
                < list[q].len() && #[trigger] list[p][s] == #[trigger] list[q][t] implies p == q
            && s == t by {
            assert(labels@[all[origin[p]]@[s] as int] == origin[p]);
            assert(labels@[all[origin[q]]@[t] as int] == origin[q]);
            if p < q {
                assert(origin[p] < origin[q]);
            }
            if q < p {
                assert(origin[q] < origin[p]);
            }
            if s < t {
                assert(all[origin[p]]@[s] < all[origin[p]]@[t]);
            }
            if t < s {
                assert(all[origin[p]]@[t] < all[origin[p]]@[s]);
            }
        }
        assert forall|a: int, b: int|
            0 <= a < n && 0 <= b < n && a != b && #[trigger] connected(
                edges@,
                a,
                b,
            ) implies together(list, a, b) by {
            assert(labels@[a] == labels@[b]);
            let o = labels@[a] as int;
            assert(in_party(all[labels@[a] as int]@, a));
            assert(in_party(all[labels@[b] as int]@, b));
            let s = choose|t: int| 0 <= t < all[o]@.len() && #[trigger] all[o]@[t] == a;
            let t = choose|t: int| 0 <= t < all[o]@.len() && #[trigger] all[o]@[t] == b;
            assert(s != t);
            assert(all[o]@.len() >= 2);
            let p = choose|p: int| 0 <= p < origin.len() && #[trigger] origin[p] == o;
            assert(list[p] == all[o]@);
            assert(in_party(list[p], a));
            assert(in_party(list[p], b));
        }
        assert forall|p: int, t: int| 0 <= p < list.len() && 0 <= t < list[p].len() implies (
        #[trigger] list[p][t]) < n by {
            assert(all[origin[p]]@[t] < n);
        }
        assert forall|p: int, s: int, t: int|
            0 <= p < list.len() && 0 <= s < t < list[p].len() implies (#[trigger] list[p][s])
            < #[trigger] list[p][t] by {
            assert(all[origin[p]]@[s] < all[origin[p]]@[t]);
        }
        assert forall|p: int, q: int|
            0 <= p < q < list.len() && list[p].len() > 0 && list[q].len() > 0 implies (
        #[trigger] list[p])[0] < (#[trigger] list[q])[0] by {
            assert(origin[p] < origin[q]);
        }
    }
    parties
}

} // verus!
