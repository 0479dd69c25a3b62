//! The friendship graph as a `petgraph` graph, for whoever draws it.

use crate::components::{edges_in_range, is_simple, joins, Edge};
use crate::text::texts;
use petgraph::stable_graph::{NodeIndex, StableGraph};
use petgraph::Undirected;
use vstd::prelude::*;

verus! {

/// `petgraph::stable_graph::StableGraph`: carried, filled through the
/// functions below and never looked into.
#[verifier::external_type_specification]
#[verifier::external_body]
#[verifier::reject_recursive_types(N)]
#[verifier::reject_recursive_types(E)]
#[verifier::reject_recursive_types(Ty)]
#[verifier::reject_recursive_types(Ix)]
pub struct ExStableGraph<N, E, Ty, Ix>(StableGraph<N, E, Ty, Ix>);

/// `petgraph::Undirected`: the marker of graphs whose edges have no
/// direction.
#[verifier::external_type_specification]
#[verifier::external_body]
pub struct ExUndirected(Undirected);

/// A graph of players: the nodes bear identities, the edges bear nothing
/// and have no direction. Nodes and edges are counted in `usize`, so that
/// adding one never fails for want of indices.
pub type PlayerGraph = StableGraph<String, (), Undirected, usize>;

/// The nodes of a graph: for the index of each node that is in the graph,
/// the identity it bears.
pub uninterp spec fn graph_nodes(graph: PlayerGraph) -> Map<int, Seq<char>>;

/// The edges of a graph: the pairs of node indices that an edge joins, each
/// as the edge holds it, source first.
pub uninterp spec fn graph_edges(graph: PlayerGraph) -> Set<(int, int)>;

/// No nodes.
pub open spec fn no_nodes() -> Map<int, Seq<char>> {
    Map::empty()
}

/// No edges.
pub open spec fn no_edges() -> Set<(int, int)> {
    Set::empty()
}

/// `StableGraph::default`: a graph without nodes and edges.
#[verifier::external_body]
fn graph_new() -> (graph: PlayerGraph)
    ensures
        graph_nodes(graph) == no_nodes(),
        graph_edges(graph) == no_edges(),
{
    StableGraph::default()
}

/// `StableGraph::add_node`: puts a node with the weight `weight` into the
/// graph, at an index that no node of the graph has, and tells the index.
/// The edges stay.
#[verifier::external_body]
fn graph_add_node(graph: &mut PlayerGraph, weight: String) -> (node: usize)
    ensures
        !graph_nodes(*old(graph)).contains_key(node as int),
        graph_nodes(*final(graph)) == graph_nodes(*old(graph)).insert(node as int, weight@),
        graph_edges(*final(graph)) == graph_edges(*old(graph)),
{
    graph.add_node(weight).index()
}

/// `StableGraph::update_edge` between two nodes of the graph: where an edge
/// joins them already, in either direction, nothing changes; else an edge
/// from `a` to `b` is added. The nodes stay.
#[verifier::external_body]
fn graph_update_edge(graph: &mut PlayerGraph, a: usize, b: usize)
    requires
        graph_nodes(*old(graph)).contains_key(a as int),
        graph_nodes(*old(graph)).contains_key(b as int),
    ensures
        graph_nodes(*final(graph)) == graph_nodes(*old(graph)),
        graph_edges(*final(graph)) == if graph_edges(*old(graph)).contains((a as int, b as int))
            || graph_edges(*old(graph)).contains((b as int, a as int)) {
            graph_edges(*old(graph))
        } else {
            graph_edges(*old(graph)).insert((a as int, b as int))
        },
{
    graph.update_edge(NodeIndex::new(a), NodeIndex::new(b), ());
}

/// The pairs of graph nodes that the first `count` edges of `links` join,
/// where `index_of` gives the graph node of each place.
pub open spec fn drawn_edges(links: Seq<Edge>, index_of: Seq<usize>, count: int) -> Set<(int, int)> {
    Set::new(
        |pair: (int, int)|
            exists|k: int|
                0 <= k < count && index_of[(#[trigger] links[k]).0 as int] == pair.0
                    && index_of[links[k].1 as int] == pair.1,
    )
}

/// The graph with the nodes `nodes` and the edges `edges` shows the players
/// `players` and their links `links`: `index_of` gives, for each player, a
/// node of its own, which bears the player's identity; there are no other
/// nodes; and the edges are the links, from node to node.
pub open spec fn draws(
    nodes: Map<int, Seq<char>>,
    edges: Set<(int, int)>,
    index_of: Seq<usize>,
    players: Seq<Seq<char>>,
    links: Seq<Edge>,
) -> bool {
    &&& index_of.len() == players.len()
    &&& forall|i: int|
        0 <= i < index_of.len() ==> nodes.contains_key(#[trigger] index_of[i] as int)
            && nodes[index_of[i] as int] == players[i]
    &&& forall|i: int, j: int|
        0 <= i < j < index_of.len() ==> #[trigger] index_of[i] != #[trigger] index_of[j]
    &&& forall|k: int| #[trigger]
        nodes.contains_key(k) ==> exists|i: int| 0 <= i < index_of.len() && #[trigger] index_of[i] == k
    &&& edges == drawn_edges(links, index_of, links.len() as int)
}

/// Builds the graph of `players` and `links`: a node for each player, in
/// their order, and an edge for each link. Hands out the graph and, for
/// each player, the index of the player's node.
pub(crate) fn draw_graph(players: &Vec<String>, links: &Vec<Edge>) -> (r: (
    PlayerGraph,
    Vec<usize>,
))
    requires
        edges_in_range(players@.len() as int, links@),
        is_simple(links@),
    ensures
        draws(graph_nodes(r.0), graph_edges(r.0), r.1@, texts(players@), links@),
{
    let mut graph = graph_new();
    let mut index_of: Vec<usize> = Vec::new();
    let mut i: usize = 0;
    while i < players.len()
        invariant
            0 <= i <= players@.len(),
            index_of@.len() == i,
            graph_edges(graph) == no_edges(),
            forall|j: int|
                0 <= j < i ==> graph_nodes(graph).contains_key(#[trigger] index_of@[j] as int)
                    && graph_nodes(graph)[index_of@[j] as int] == players@[j]@,
            forall|j: int, l: int| 0 <= j < l < i ==> #[trigger] index_of@[j] != #[trigger] index_of@[l],
            forall|k: int| #[trigger]
                graph_nodes(graph).contains_key(k) ==> exists|j: int|
                    0 <= j < i && #[trigger] index_of@[j] == k,
        decreases players@.len() - i,
    {
        let ghost before = index_of@;
        let ghost nodes_before = graph_nodes(graph);
        let node = graph_add_node(&mut graph, players[i].clone());
        index_of.push(node);
        proof {
            assert forall|j: int| 0 <= j < i + 1 implies graph_nodes(graph).contains_key(
                #[trigger] index_of@[j] as int,
            ) && graph_nodes(graph)[index_of@[j] as int] == players@[j]@ by {
                if j < i {
                    assert(index_of@[j] == before[j]);
                    assert(nodes_before.contains_key(before[j] as int));
                }
            }
            assert forall|j: int, l: int| 0 <= j < l < i + 1 implies #[trigger] index_of@[j]
                != #[trigger] index_of@[l] by {
                assert(index_of@[j] == before[j]);
                assert(nodes_before.contains_key(before[j] as int));
                if l < i {
                    assert(index_of@[l] == before[l]);
                }
            }
            assert forall|k: int| #[trigger] graph_nodes(graph).contains_key(k) implies exists|
                j: int,
            |
                0 <= j < i + 1 && #[trigger] index_of@[j] == k by {
                if k == node {
                    assert(index_of@[i as int] == k);
                } else {
                    assert(nodes_before.contains_key(k));
                    let j = choose|j: int| 0 <= j < i && #[trigger] before[j] == k;
                    assert(index_of@[j] == k);
                }
            }
        }
        i += 1;
    }
    proof {
        assert(graph_edges(graph) =~= drawn_edges(links@, index_of@, 0));
    }
    let mut e: usize = 0;
    while e < links.len()
        invariant
            0 <= e <= links@.len(),
            index_of@.len() == players@.len(),
            edges_in_range(players@.len() as int, links@),
            is_simple(links@),
            forall|j: int|
                0 <= j < index_of@.len() ==> graph_nodes(graph).contains_key(
                    #[trigger] index_of@[j] as int,
                ) && graph_nodes(graph)[index_of@[j] as int] == players@[j]@,
            forall|j: int, l: int|
                0 <= j < l < index_of@.len() ==> #[trigger] index_of@[j] != #[trigger] index_of@[l],
            forall|k: int| #[trigger]
                graph_nodes(graph).contains_key(k) ==> exists|j: int|
                    0 <= j < index_of@.len() && #[trigger] index_of@[j] == k,
            graph_edges(graph) == drawn_edges(links@, index_of@, e as int),
        decreases links@.len() - e,
    {
        let (u, v) = links[e];
        let a = index_of[u];
        let b = index_of[v];
        let ghost before = graph_edges(graph);
        proof {
            assert(links@[e as int].0 != links@[e as int].1);
            if before.contains((a as int, b as int)) || before.contains((b as int, a as int)) {
                let k = choose|k: int|
                    0 <= k < e && ((index_of@[(#[trigger] links@[k]).0 as int] == a
                        && index_of@[links@[k].1 as int] == b) || (index_of@[links@[k].0 as int] == b
                        && index_of@[links@[k].1 as int] == a));
                let x = links@[k].0;
                let y = links@[k].1;
                assert(x < index_of@.len() && y < index_of@.len());
                if index_of@[x as int] == a {
                    assert(x == u) by {
                        if x < u {
                            assert(index_of@[x as int] != index_of@[u as int]);
                        }
                        if u < x {
                            assert(index_of@[u as int] != index_of@[x as int]);
                        }
                    }
                    assert(y == v) by {
                        if y < v {
                            assert(index_of@[y as int] != index_of@[v as int]);
                        }
                        if v < y {
                            assert(index_of@[v as int] != index_of@[y as int]);
                        }
                    }
                } else {
                    assert(x == v) by {
                        if x < v {
                            assert(index_of@[x as int] != index_of@[v as int]);
                        }
                        if v < x {
                            assert(index_of@[v as int] != index_of@[x as int]);
                        }
                    }
                    assert(y == u) by {
                        if y < u {
                            assert(index_of@[y as int] != index_of@[u as int]);
                        }
                        if u < y {
                            assert(index_of@[u as int] != index_of@[y as int]);
                        }
                    }
                }
                assert(joins(links@[e as int], links@[k].0 as int, links@[k].1 as int));
                assert(false);
            }
        }
        graph_update_edge(&mut graph, a, b);
        proof {
            assert(graph_edges(graph) == before.insert((a as int, b as int)));
            assert forall|pair: (int, int)|
                before.insert((a as int, b as int)).contains(pair) == drawn_edges(
                    links@,
                    index_of@,
                    e + 1,
                ).contains(pair) by {
                if before.contains(pair) {
                    let k = choose|k: int|
                        0 <= k < e && index_of@[(#[trigger] links@[k]).0 as int] == pair.0
                            && index_of@[links@[k].1 as int] == pair.1;
                    assert(0 <= k < e + 1);
                }
                if pair == (a as int, b as int) {
                    assert(index_of@[links@[e as int].0 as int] == pair.0);
                }
                if drawn_edges(links@, index_of@, e + 1).contains(pair) {
                    let k = choose|k: int|
                        0 <= k < e + 1 && index_of@[(#[trigger] links@[k]).0 as int] == pair.0
                            && index_of@[links@[k].1 as int] == pair.1;
                    if k < e {
                        assert(before.contains(pair));
                    }
                }
            }
            assert(graph_edges(graph) =~= drawn_edges(links@, index_of@, e + 1));
        }
        e += 1;
    }
    (graph, index_of)
}

} // verus!
