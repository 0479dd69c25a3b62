//! Parties: the players of a match who are friends, or friends of friends.
//!
//! The players are the nodes of a graph. Two of them are joined where the
//! friends list of one names the other. A party is a component of that graph
//! with two players or more.

use crate::color::Color;
use crate::components::{
    adjacent, connected, edges_in_range, find_parties, has_edge, in_canonical_order, in_party,
    is_party_list, is_simple, joins, lemma_party_list_unique, lemma_same_edges_same_components,
    members, Edge,
};
use crate::friend_graph::{draw_graph, draws, graph_edges, graph_nodes, PlayerGraph};
use crate::player::Player;
use crate::steamid::{steamid_64_to_32, steamid_64_to_32_spec, FormatError};
use crate::text::{lemma_texts_push, texts};
use vstd::prelude::*;
use vstd::string::StringExecFns;

verus! {

/// How many colours there are to tell parties apart.
pub const PALETTE_SIZE: usize = 21;

/// The sign of a party that the user belongs to: a black star.
pub const OWN_PARTY: char = '\u{2605}';

/// The sign of any other party: a black square.
pub const OTHER_PARTY: char = '\u{25A0}';

/// The colours that tell parties apart.
pub open spec fn palette(i: int) -> Color {
    if i == 0 {
        Color::rgb(230, 25, 75)
    } else if i == 1 {
        Color::rgb(60, 180, 75)
    } else if i == 2 {
        Color::rgb(255, 225, 25)
    } else if i == 3 {
        Color::rgb(0, 130, 200)
    } else if i == 4 {
        Color::rgb(245, 130, 48)
    } else if i == 5 {
        Color::rgb(145, 30, 180)
    } else if i == 6 {
        Color::rgb(70, 240, 240)
    } else if i == 7 {
        Color::rgb(240, 50, 230)
    } else if i == 8 {
        Color::rgb(210, 245, 60)
    } else if i == 9 {
        Color::rgb(250, 190, 212)
    } else if i == 10 {
        Color::rgb(0, 128, 128)
    } else if i == 11 {
        Color::rgb(220, 190, 255)
    } else if i == 12 {
        Color::rgb(170, 110, 40)
    } else if i == 13 {
        Color::rgb(255, 250, 200)
    } else if i == 14 {
        Color::rgb(128, 0, 0)
    } else if i == 15 {
        Color::rgb(170, 255, 195)
    } else if i == 16 {
        Color::rgb(128, 128, 0)
    } else if i == 17 {
        Color::rgb(255, 215, 180)
    } else if i == 18 {
        Color::rgb(0, 0, 128)
    } else if i == 19 {
        Color::rgb(128, 128, 128)
    } else {
        Color::rgb(255, 255, 255)
    }
}

/// The colour of the party with the index `i`: the colours come round again
/// after `PALETTE_SIZE` parties.
pub fn palette_color(i: usize) -> (color: Color)
    ensures
        color == palette(i as int % 21),
{
    let k: usize = i % PALETTE_SIZE;
    if k == 0 {
        Color::from_rgb(230, 25, 75)
    } else if k == 1 {
        Color::from_rgb(60, 180, 75)
    } else if k == 2 {
        Color::from_rgb(255, 225, 25)
    } else if k == 3 {
        Color::from_rgb(0, 130, 200)
    } else if k == 4 {
        Color::from_rgb(245, 130, 48)
    } else if k == 5 {
        Color::from_rgb(145, 30, 180)
    } else if k == 6 {
        Color::from_rgb(70, 240, 240)
    } else if k == 7 {
        Color::from_rgb(240, 50, 230)
    } else if k == 8 {
        Color::from_rgb(210, 245, 60)
    } else if k == 9 {
        Color::from_rgb(250, 190, 212)
    } else if k == 10 {
        Color::from_rgb(0, 128, 128)
    } else if k == 11 {
        Color::from_rgb(220, 190, 255)
    } else if k == 12 {
        Color::from_rgb(170, 110, 40)
    } else if k == 13 {
        Color::from_rgb(255, 250, 200)
    } else if k == 14 {
        Color::from_rgb(128, 0, 0)
    } else if k == 15 {
        Color::from_rgb(170, 255, 195)
    } else if k == 16 {
        Color::from_rgb(128, 128, 0)
    } else if k == 17 {
        Color::from_rgb(255, 215, 180)
    } else if k == 18 {
        Color::from_rgb(0, 0, 128)
    } else if k == 19 {
        Color::from_rgb(128, 128, 128)
    } else {
        Color::from_rgb(255, 255, 255)
    }
}

/// The identities of the players of a roster, in its order.
pub open spec fn identities(roster: Seq<Player>) -> Seq<Seq<char>> {
    roster.map_values(|player: Player| player.steamid32@)
}

/// `ids` without the repetitions: each of them where it stands first.
pub open spec fn first_occurrences(ids: Seq<Seq<char>>) -> Seq<Seq<char>>
    decreases ids.len(),
{
    if ids.len() == 0 {
        Seq::empty()
    } else {
        let before = first_occurrences(ids.drop_last());
        if before.contains(ids.last()) {
            before
        } else {
            before.push(ids.last())
        }
    }
}

/// The friends list of the player at place `i` of the roster names, at its
/// place `j`, the long form of `id`.
pub open spec fn names_friend(roster: Seq<Player>, i: int, j: int, id: Seq<char>) -> bool {
    &&& 0 <= i < roster.len()
    &&& roster[i].friends() matches Some(list)
    &&& 0 <= j < list.len()
    &&& steamid_64_to_32_spec(list[j].steamid@) == Ok::<Seq<char>, FormatError>(id)
}

/// A player of the roster with the identity `x` has `y` on the friends list.
pub open spec fn lists_friend(roster: Seq<Player>, x: Seq<char>, y: Seq<char>) -> bool {
    exists|i: int, j: int| #[trigger] names_friend(roster, i, j, y) && roster[i].steamid32@ == x
}

/// One of `x` and `y` has the other on the friends list.
pub open spec fn befriended(roster: Seq<Player>, x: Seq<char>, y: Seq<char>) -> bool {
    lists_friend(roster, x, y) || lists_friend(roster, y, x)
}

/// What `Parties::update` makes of a roster: the nodes are the identities
/// of the roster, each where it stands first; two different nodes are
/// joined, by one edge, exactly where one of the two players has the other
/// on the friends list; and the groups are the parties of that graph, in
/// their canonical order.
pub open spec fn is_rebuilt_from(
    roster: Seq<Player>,
    nodes: Seq<Seq<char>>,
    links: Seq<Edge>,
    groups: Seq<Seq<usize>>,
) -> bool {
    &&& nodes == first_occurrences(identities(roster))
    &&& edges_in_range(nodes.len() as int, links)
    &&& is_simple(links)
    &&& forall|a: int, b: int|
        0 <= a < nodes.len() && 0 <= b < nodes.len() ==> (#[trigger] adjacent(links, a, b) <==> a
            != b && befriended(roster, nodes[a], nodes[b]))
    &&& is_party_list(nodes.len() as int, links, groups)
    &&& in_canonical_order(groups)
}

/// Rebuilding from one roster twice gives the same nodes and the same
/// parties, member for member and in the same order, whatever edge lists
/// the two runs went through.
pub proof fn lemma_rebuild_deterministic(
    roster: Seq<Player>,
    nodes: Seq<Seq<char>>,
    links: Seq<Edge>,
    groups: Seq<Seq<usize>>,
    nodes_again: Seq<Seq<char>>,
    links_again: Seq<Edge>,
    groups_again: Seq<Seq<usize>>,
)
    requires
        is_rebuilt_from(roster, nodes, links, groups),
        is_rebuilt_from(roster, nodes_again, links_again, groups_again),
    ensures
        nodes == nodes_again,
        groups == groups_again,
        forall|a: int, b: int| connected(links, a, b) == connected(links_again, a, b),
{
    let n = nodes.len() as int;
    assert forall|x: int, y: int| adjacent(links, x, y) == adjacent(links_again, x, y) by {
        if adjacent(links, x, y) {
            let k = choose|k: int| 0 <= k < links.len() && joins(#[trigger] links[k], x, y);
            assert(0 <= x < n && 0 <= y < n);
        }
        if adjacent(links_again, x, y) {
            let k = choose|k: int|
                0 <= k < links_again.len() && joins(#[trigger] links_again[k], x, y);
            assert(0 <= x < n && 0 <= y < n);
        }
    }
    assert forall|x: int, y: int| connected(links, x, y) == connected(links_again, x, y) by {
        lemma_same_edges_same_components(links, links_again, x, y);
    }
    lemma_party_list_unique(n, links, groups, links_again, groups_again);
}

/// The edge `e` joins the nodes of `x` and `y`.
spec fn joins_ids(nodes: Seq<Seq<char>>, e: Edge, x: Seq<char>, y: Seq<char>) -> bool {
    (nodes[e.0 as int] == x && nodes[e.1 as int] == y) || (nodes[e.0 as int] == y
        && nodes[e.1 as int] == x)
}

/// Some edge joins the nodes of `x` and `y`.
spec fn linked(nodes: Seq<Seq<char>>, edges: Seq<Edge>, x: Seq<char>, y: Seq<char>) -> bool {
    exists|k: int| 0 <= k < edges.len() && joins_ids(nodes, #[trigger] edges[k], x, y)
}

/// `first_occurrences` keeps every identity, each once.
pub proof fn lemma_first_occurrences(ids: Seq<Seq<char>>)
    ensures
        first_occurrences(ids).no_duplicates(),
        forall|id: Seq<char>|
            #![trigger first_occurrences(ids).contains(id)]
            #![trigger ids.contains(id)]
            first_occurrences(ids).contains(id) <==> ids.contains(id),
    decreases ids.len(),
{
    if ids.len() > 0 {
        let before = first_occurrences(ids.drop_last());
        let all = first_occurrences(ids);
        lemma_first_occurrences(ids.drop_last());
        assert forall|id: Seq<char>| all.contains(id) <==> ids.contains(id) by {
            if all.contains(id) {
                let k = choose|k: int| 0 <= k < all.len() && all[k] == id;
                if k < before.len() {
                    assert(before[k] == id);
                    assert(before.contains(id));
                    let m = choose|m: int|
                        0 <= m < ids.drop_last().len() && ids.drop_last()[m] == id;
                    assert(ids[m] == id);
                } else {
                    assert(ids[ids.len() - 1] == id);
                }
            }
            if ids.contains(id) {
                let m = choose|m: int| 0 <= m < ids.len() && ids[m] == id;
                if m < ids.len() - 1 {
                    assert(ids.drop_last()[m] == id);
                    assert(before.contains(id));
                    let k = choose|k: int| 0 <= k < before.len() && before[k] == id;
                    assert(all[k] == id);
                } else if before.contains(id) {
                } else {
                    assert(all[before.len() as int] == id);
                }
            }
        }
    }
}

/// The place of `id` in `list`, if it is there.
fn find_index(list: &Vec<String>, id: &String) -> (r: Option<usize>)
    ensures
        match r {
            Some(i) => i < list@.len() && list@[i as int]@ == id@,
            None => !texts(list@).contains(id@),
        },
{
    let mut i: usize = 0;
    while i < list.len()
        invariant
            0 <= i <= list@.len(),
            forall|j: int| 0 <= j < i ==> (#[trigger] list@[j])@ != id@,
        decreases list@.len() - i,
    {
        if list[i] == *id {
            return Some(i);
        }
        i += 1;
    }
    None
}

/// Which party the node `node` stands in, if it stands in one.
fn find_party(parties: &Vec<Vec<usize>>, node: usize) -> (r: Option<usize>)
    ensures
        match r {
            Some(p) => p < parties@.len() && in_party(members(parties@)[p as int], node as int),
            None => forall|p: int|
                0 <= p < parties@.len() ==> !in_party(#[trigger] members(parties@)[p], node as int),
        },
{
    let mut p: usize = 0;
    while p < parties.len()
        invariant
            0 <= p <= parties@.len(),
            forall|q: int| 0 <= q < p ==> !in_party(#[trigger] members(parties@)[q], node as int),
        decreases parties@.len() - p,
    {
        let party = &parties[p];
        let mut t: usize = 0;
        while t < party.len()
            invariant
                0 <= t <= party@.len(),
                0 <= p < parties@.len(),
                party@ == members(parties@)[p as int],
                forall|s: int| 0 <= s < t ==> #[trigger] party@[s] != node,
            decreases party@.len() - t,
        {
            if party[t] == node {
                return Some(p);
            }
            t += 1;
        }
        p += 1;
    }
    None
}

/// Who in the match plays with whom.
pub struct Parties {
    players: Vec<String>,
    edges: Vec<Edge>,
    parties: Vec<Vec<usize>>,
}

impl Default for Parties {
    fn default() -> (parties: Parties)
        ensures
            parties.nodes().len() == 0,
            parties.links().len() == 0,
            parties.groups().len() == 0,
    {
        Parties::new()
    }
}

impl Parties {
    #[verifier::type_invariant]
    spec fn inv(self) -> bool {
        &&& texts(self.players@).no_duplicates()
        &&& edges_in_range(self.players@.len() as int, self.edges@)
        &&& is_simple(self.edges@)
        &&& is_party_list(self.players@.len() as int, self.edges@, members(self.parties@))
        &&& in_canonical_order(members(self.parties@))
    }

    /// The identities of the players, each once: the nodes of the graph.
    pub closed spec fn nodes(&self) -> Seq<Seq<char>> {
        texts(self.players@)
    }

    /// The edges of the graph, each between two places of `nodes`.
    pub closed spec fn links(&self) -> Seq<Edge> {
        self.edges@
    }

    /// The parties, each as the places of its members in `nodes`.
    pub closed spec fn groups(&self) -> Seq<Seq<usize>> {
        members(self.parties@)
    }

    /// The party with the index `party` has a member with the identity
    /// `steamid`.
    pub open spec fn holds(&self, party: int, steamid: Seq<char>) -> bool {
        &&& 0 <= party < self.groups().len()
        &&& exists|t: int|
            0 <= t < self.groups()[party].len() && self.nodes()[(
            #[trigger] self.groups()[party][t]) as int] == steamid
    }

    /// No players and no parties.
    pub fn new() -> (parties: Parties)
        ensures
            parties.nodes().len() == 0,
            parties.links().len() == 0,
            parties.groups().len() == 0,
    {
        let parties = Parties { players: Vec::new(), edges: Vec::new(), parties: Vec::new() };
        proof {
            assert(members(parties.parties@) =~= Seq::<Seq<usize>>::empty());
            lemma_no_edges_no_walks();
            assert(texts(parties.players@) =~= Seq::<Seq<char>>::empty());
        }
        parties
    }

    /// Forgets the players and the parties.
    pub fn clear(&mut self)
        ensures
            final(self).nodes().len() == 0,
            final(self).links().len() == 0,
            final(self).groups().len() == 0,
    {
        *self = Parties::new();
    }

    /// The identities of the players, each once, in the order of the roster.
    pub fn players(&self) -> (list: &Vec<String>)
        ensures
            texts(list@) == self.nodes(),
    {
        &self.players
    }

    /// The edges of the graph, each between two places of `players`.
    pub fn edges(&self) -> (list: &Vec<Edge>)
        ensures
            list@ == self.links(),
    {
        &self.edges
    }

    /// The parties, each as the places of its members in `players`.
    pub fn parties(&self) -> (list: &Vec<Vec<usize>>)
        ensures
            members(list@) == self.groups(),
    {
        &self.parties
    }

    /// The players and their friendships as a graph for viewers, and for
    /// each player, in the order of `players`, the index of the player's
    /// node in that graph.
    pub fn graph(&self) -> (r: (PlayerGraph, Vec<usize>))
        ensures
            draws(graph_nodes(r.0), graph_edges(r.0), r.1@, self.nodes(), self.links()),
    {
        proof {
            use_type_invariant(self);
        }
        draw_graph(&self.players, &self.edges)
    }

    /// Takes the players of `roster` as the nodes, joins two of them where
    /// the friends list of one names the other, and finds the parties anew.
    ///
    /// A player without a friends list adds no edge. A friend whose identity
    /// has no short form, or who is not on the roster, adds none either, and
    /// two players are joined by one edge however often they name each
    /// other.
    pub fn update(&mut self, roster: &Vec<Player>)
        ensures
            is_rebuilt_from(roster@, final(self).nodes(), final(self).links(), final(self).groups()),
            final(self).nodes().no_duplicates(),
            forall|id: Seq<char>|
                final(self).nodes().contains(id) <==> identities(roster@).contains(id),
    {
        let ghost ids = identities(roster@);
        let mut players: Vec<String> = Vec::new();
        let mut i: usize = 0;
        proof {
            assert(ids.take(0) =~= Seq::<Seq<char>>::empty());
            assert(texts(players@) =~= Seq::<Seq<char>>::empty());
        }
        while i < roster.len()
            invariant
                0 <= i <= roster@.len(),
                ids == identities(roster@),
                texts(players@) == first_occurrences(ids.take(i as int)),
            decreases roster@.len() - i,
        {
            let id = &roster[i].steamid32;
            proof {
                assert(ids.take(i + 1).drop_last() =~= ids.take(i as int));
                assert(ids.take(i + 1).last() == id@);
            }
            match find_index(&players, id) {
                Some(place) => {
                    proof {
                        assert(texts(players@)[place as int] == id@);
                    }
                },
                None => {
                    let copy = id.clone();
                    proof {
                        lemma_texts_push(players@, copy);
                    }
                    players.push(copy);
                },
            }
            i += 1;
        }
        let ghost nodes = texts(players@);
        proof {
            assert(ids.take(roster@.len() as int) =~= ids);
            lemma_first_occurrences(ids);
        }
        let n = players.len();
        let mut edges: Vec<Edge> = Vec::new();
        i = 0;
        while i < roster.len()
            invariant
                0 <= i <= roster@.len(),
                n == players@.len(),
                nodes == texts(players@),
                nodes.no_duplicates(),
                ids == identities(roster@),
                forall|id: Seq<char>| nodes.contains(id) <==> ids.contains(id),
                edges_in_range(n as int, edges@),
                is_simple(edges@),
                forall|k: int|
                    0 <= k < edges@.len() ==> befriended(
                        roster@,
                        nodes[(#[trigger] edges@[k]).0 as int],
                        nodes[edges@[k].1 as int],
                    ),
                forall|p: int, j: int, y: Seq<char>|
                    0 <= p < i && #[trigger] names_friend(roster@, p, j, y) && nodes.contains(y)
                        && y != roster@[p].steamid32@ ==> linked(
                        nodes,
                        edges@,
                        roster@[p].steamid32@,
                        y,
                    ),
            decreases roster@.len() - i,
        {
            let player = &roster[i];
            proof {
                assert(ids[i as int] == player.steamid32@);
                assert(ids.contains(player.steamid32@));
            }
            match (player.friends_list(), find_index(&players, &player.steamid32)) {
                (Some(friends), Some(u)) => {
                    let ghost x = player.steamid32@;
                    assert(nodes[u as int] == x);
                    let mut j: usize = 0;
                    while j < friends.len()
                        invariant
                            0 <= j <= friends@.len(),
                            0 <= i < roster@.len(),
                            roster@[i as int].friends() == Some(friends@),
                            x == roster@[i as int].steamid32@,
                            u < n,
                            nodes[u as int] == x,
                            n == players@.len(),
                            nodes == texts(players@),
                            nodes.no_duplicates(),
                            edges_in_range(n as int, edges@),
                            is_simple(edges@),
                            forall|k: int|
                                0 <= k < edges@.len() ==> befriended(
                                    roster@,
                                    nodes[(#[trigger] edges@[k]).0 as int],
                                    nodes[edges@[k].1 as int],
                                ),
                            forall|p: int, m: int, y: Seq<char>|
                                0 <= p < i && #[trigger] names_friend(roster@, p, m, y)
                                    && nodes.contains(y) && y != roster@[p].steamid32@ ==> linked(
                                    nodes,
                                    edges@,
                                    roster@[p].steamid32@,
                                    y,
                                ),
                            forall|m: int, y: Seq<char>|
                                0 <= m < j && #[trigger] names_friend(roster@, i as int, m, y)
                                    && nodes.contains(y) && y != x ==> linked(nodes, edges@, x, y),
                        decreases friends@.len() - j,
                    {
                        let ghost before = edges@;
                        match steamid_64_to_32(friends[j].steamid.as_str()) {
                            Ok(id) => {
                                match find_index(&players, &id) {
                                    Some(v) => {
                                        proof {
                                            assert(names_friend(
                                                roster@,
                                                i as int,
                                                j as int,
                                                nodes[v as int],
                                            ));
                                            assert(lists_friend(
                                                roster@,
                                                nodes[u as int],
                                                nodes[v as int],
                                            ));
                                        }
                                        if u != v {
                                            if !has_edge(&edges, u, v) {
                                                edges.push((u, v));
                                                proof {
                                                    let k = before.len() as int;
                                                    assert(edges@[k] == (u, v));
                                                    assert(joins_ids(nodes, edges@[k], x, id@));
                                                    assert forall|l: int, m: int|
                                                        0 <= l < m < edges@.len() implies !joins(
                                                        #[trigger] edges@[m],
                                                        (#[trigger] edges@[l]).0 as int,
                                                        edges@[l].1 as int,
                                                    ) by {
                                                        if m == k {
                                                            assert(edges@[l] == before[l]);
                                                            if joins(
                                                                edges@[m],
                                                                edges@[l].0 as int,
                                                                edges@[l].1 as int,
                                                            ) {
                                                                assert(joins(
                                                                    before[l],
                                                                    u as int,
                                                                    v as int,
                                                                ));
                                                            }
                                                        } else {
                                                            assert(edges@[l] == before[l]);
                                                            assert(edges@[m] == before[m]);
                                                        }
                                                    }
                                                }
                                            } else {
                                                proof {
                                                    let k = choose|k: int|
                                                        0 <= k < before.len() && joins(
                                                            #[trigger] before[k],
                                                            u as int,
                                                            v as int,
                                                        );
                                                    assert(joins_ids(nodes, edges@[k], x, id@));
                                                }
                                            }
                                            assert(linked(nodes, edges@, x, id@));
                                        }
                                    },
                                    None => {},
                                }
                            },
                            Err(_) => {},
                        }
                        proof {
                            assert forall|k: int| 0 <= k < before.len() implies edges@[k]
                                == before[k] by {}
                            assert forall|p: int, m: int, y: Seq<char>|
                                0 <= p < i && #[trigger] names_friend(roster@, p, m, y)
                                    && nodes.contains(y) && y != roster@[p].steamid32@ implies linked(
                                nodes,
                                edges@,
                                roster@[p].steamid32@,
                                y,
                            ) by {
                                lemma_linked_stays(nodes, before, edges@, roster@[p].steamid32@, y);
                            }
                            assert forall|m: int, y: Seq<char>|
                                0 <= m < j + 1 && #[trigger] names_friend(roster@, i as int, m, y)
                                    && nodes.contains(y) && y != x implies linked(
                                nodes,
                                edges@,
                                x,
                                y,
                            ) by {
                                if m < j {
                                    lemma_linked_stays(nodes, before, edges@, x, y);
                                }
                            }
                        }
                        j += 1;
                    }
                },
                _ => {},
            }
            i += 1;
        }
        let parties = find_parties(n, &edges);
        proof {
            assert forall|a: int, b: int| 0 <= a < n && 0 <= b < n implies (#[trigger] adjacent(
                edges@,
                a,
                b,
            ) <==> a != b && befriended(roster@, nodes[a], nodes[b])) by {
                if adjacent(edges@, a, b) {
                    let k = choose|k: int| 0 <= k < edges@.len() && joins(#[trigger] edges@[k], a, b);
                    assert(befriended(
                        roster@,
                        nodes[edges@[k].0 as int],
                        nodes[edges@[k].1 as int],
                    ));
                }
                if a != b && lists_friend(roster@, nodes[a], nodes[b]) {
                    lemma_linked_is_adjacent(roster@, nodes, edges@, a, b);
                }
                if a != b && lists_friend(roster@, nodes[b], nodes[a]) {
                    lemma_linked_is_adjacent(roster@, nodes, edges@, b, a);
                    let k = choose|k: int| 0 <= k < edges@.len() && joins(#[trigger] edges@[k], b, a);
                    assert(joins(edges@[k], a, b));
                }
            }
        }
        *self = Parties { players, edges, parties };
    }

    /// The party that the player with the identity `steamid` stands in, if
    /// there is one. There is never more than one.
    pub fn party_of(&self, steamid: &str) -> (r: Option<usize>)
        ensures
            match r {
                Some(party) => self.holds(party as int, steamid@),
                None => forall|party: int| !self.holds(party, steamid@),
            },
            forall|p: int, q: int| self.holds(p, steamid@) && self.holds(q, steamid@) ==> p == q,
    {
        proof {
            use_type_invariant(self);
            self.lemma_one_party(steamid@);
        }
        let id = String::from_str(steamid);
        match find_index(&self.players, &id) {
            Some(node) => match find_party(&self.parties, node) {
                Some(party) => {
                    proof {
                        let t = choose|t: int|
                            0 <= t < self.groups()[party as int].len()
                                && #[trigger] self.groups()[party as int][t] == node;
                        assert(self.nodes()[node as int] == steamid@);
                        assert(self.nodes()[self.groups()[party as int][t] as int] == steamid@);
                    }
                    Some(party)
                },
                None => {
                    proof {
                        assert forall|party: int| !self.holds(party, steamid@) by {
                            if self.holds(party, steamid@) {
                                let t = choose|t: int|
                                    0 <= t < self.groups()[party].len() && self.nodes()[(
                                    #[trigger] self.groups()[party][t]) as int] == steamid@;
                                assert(self.groups()[party][t] < self.nodes().len());
                                assert(self.nodes()[node as int] == steamid@);
                                assert(self.groups()[party][t] == node);
                                assert(in_party(self.groups()[party], node as int));
                            }
                        }
                    }
                    None
                },
            },
            None => {
                proof {
                    assert forall|party: int| !self.holds(party, steamid@) by {
                        if self.holds(party, steamid@) {
                            let t = choose|t: int|
                                0 <= t < self.groups()[party].len() && self.nodes()[(
                                #[trigger] self.groups()[party][t]) as int] == steamid@;
                            assert(self.groups()[party][t] < self.nodes().len());
                        }
                    }
                }
                None
            },
        }
    }

    /// How the player `p` is marked in a list of players: nothing where the
    /// player stands in no party; else the sign of the party, which tells
    /// whether the user `user` stands in it too, and the party's colour.
    pub fn get_player_party_indicator(&self, p: &Player, user: &str) -> (r: Option<(char, Color)>)
        ensures
            match r {
                Some((sign, color)) => exists|party: int|
                    #![trigger self.holds(party, p.steamid32@)]
                    self.holds(party, p.steamid32@) && sign == (if self.holds(party, user@) {
                        OWN_PARTY
                    } else {
                        OTHER_PARTY
                    }) && color == palette(party % 21),
                None => forall|party: int| !self.holds(party, p.steamid32@),
            },
    {
        match self.party_of(p.steamid32.as_str()) {
            Some(party) => {
                let sign = match self.party_of(user) {
                    Some(own) => if own == party {
                        OWN_PARTY
                    } else {
                        OTHER_PARTY
                    },
                    None => OTHER_PARTY,
                };
                Some((sign, palette_color(party)))
            },
            None => None,
        }
    }

    /// An identity stands in one party at most.
    proof fn lemma_one_party(self, steamid: Seq<char>)
        requires
            self.inv(),
        ensures
            forall|p: int, q: int| self.holds(p, steamid) && self.holds(q, steamid) ==> p == q,
    {
        assert forall|p: int, q: int| self.holds(p, steamid) && self.holds(q, steamid) implies p
            == q by {
            let s = choose|t: int|
                0 <= t < self.groups()[p].len() && self.nodes()[(
                #[trigger] self.groups()[p][t]) as int] == steamid;
            let t = choose|t: int|
                0 <= t < self.groups()[q].len() && self.nodes()[(
                #[trigger] self.groups()[q][t]) as int] == steamid;
            let a = self.groups()[p][s];
            let b = self.groups()[q][t];
            assert(a < self.nodes().len() && b < self.nodes().len());
            assert(self.nodes()[a as int] == self.nodes()[b as int]);
            assert(a == b);
        }
    }
}

/// A graph without nodes has no parties.
proof fn lemma_no_edges_no_walks()
    ensures
        is_party_list(0, Seq::<Edge>::empty(), Seq::<Seq<usize>>::empty()),
        in_canonical_order(Seq::<Seq<usize>>::empty()),
        is_simple(Seq::<Edge>::empty()),
{
}

/// A link stays when edges are added.
proof fn lemma_linked_stays(
    nodes: Seq<Seq<char>>,
    before: Seq<Edge>,
    after: Seq<Edge>,
    x: Seq<char>,
    y: Seq<char>,
)
    requires
        linked(nodes, before, x, y),
        before.len() <= after.len(),
        forall|k: int| 0 <= k < before.len() ==> after[k] == before[k],
    ensures
        linked(nodes, after, x, y),
{
    let k = choose|k: int| 0 <= k < before.len() && joins_ids(nodes, #[trigger] before[k], x, y);
    assert(joins_ids(nodes, after[k], x, y));
}

/// Where every friend on the roster is linked, two different nodes of
/// which one lists the other are adjacent.
proof fn lemma_linked_is_adjacent(
    roster: Seq<Player>,
    nodes: Seq<Seq<char>>,
    edges: Seq<Edge>,
    a: int,
    b: int,
)
    requires
        nodes.no_duplicates(),
        0 <= a < nodes.len(),
        0 <= b < nodes.len(),
        a != b,
        edges_in_range(nodes.len() as int, edges),
        lists_friend(roster, nodes[a], nodes[b]),
        forall|p: int, j: int, y: Seq<char>|
            0 <= p < roster.len() && #[trigger] names_friend(roster, p, j, y) && nodes.contains(y)
                && y != roster[p].steamid32@ ==> linked(nodes, edges, roster[p].steamid32@, y),
    ensures
        adjacent(edges, a, b),
{
    let (i, j) = choose|i: int, j: int| #[trigger]
        names_friend(roster, i, j, nodes[b]) && roster[i].steamid32@ == nodes[a];
    assert(nodes.contains(nodes[b]));
    assert(linked(nodes, edges, nodes[a], nodes[b]));
    let k = choose|k: int|
        0 <= k < edges.len() && joins_ids(nodes, #[trigger] edges[k], nodes[a], nodes[b]);
    assert(edges[k].0 < nodes.len() && edges[k].1 < nodes.len());
    if nodes[edges[k].0 as int] == nodes[a] {
        assert(edges[k].0 == a);
        assert(edges[k].1 == b);
    } else {
        assert(edges[k].0 == b);
        assert(edges[k].1 == a);
    }
    assert(joins(edges[k], a, b));
}

} // verus!
