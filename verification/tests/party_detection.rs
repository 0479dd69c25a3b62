use bot_kicker::color::Color;
use bot_kicker::components::{find_parties, has_edge, label_components};
use bot_kicker::parties::{palette_color, Parties, OTHER_PARTY, OWN_PARTY, PALETTE_SIZE};
use bot_kicker::player::Player;
use bot_kicker::steamapi::{AccountInfo, Friend, NetworkError, PlatformBans, Summary};

fn long_form(account: u64) -> String {
    format!("{}", 76561197960265728u64 + account)
}

fn info_with_friends(friends: Option<Result<Vec<Friend>, NetworkError>>) -> AccountInfo {
    AccountInfo {
        summary: Summary {
            steamid: String::new(),
            communityvisibilitystate: 3,
            personaname: String::new(),
            profileurl: String::new(),
            avatarmedium: String::new(),
            timecreated: None,
        },
        bans: PlatformBans {
            community_banned: false,
            vac_banned: false,
            number_of_vac_bans: 0,
            days_since_last_ban: 0,
            number_of_game_bans: 0,
            economy_ban: String::from("none"),
        },
        friends,
        sourcebans: None,
    }
}

fn friend(steamid64: &str) -> Friend {
    Friend { steamid: String::from(steamid64), relationship: String::from("friend"), friend_since: 0 }
}

/// A player with the account number `account` whose friends list names the
/// accounts `friends`.
fn player(account: u64, friends: Option<&[u64]>) -> Player {
    let mut p = Player::new(&format!("U:1:{}", account), "name");
    if let Some(list) = friends {
        let friends = list.iter().map(|a| friend(&long_form(*a))).collect();
        p.account_info = Some(Ok(info_with_friends(Some(Ok(friends)))));
    }
    p
}

fn party_names(parties: &Parties) -> Vec<Vec<String>> {
    parties
        .parties()
        .iter()
        .map(|party| party.iter().map(|node| parties.players()[*node].clone()).collect())
        .collect()
}

#[test]
fn one_party_of_two_and_one_alone() {
    let a = player(1, Some(&[2]));
    let b = player(2, Some(&[77]));
    let c = player(3, None);
    let roster = vec![a, b, c];
    let mut parties = Parties::new();
    parties.update(&roster);
    assert_eq!(party_names(&parties), vec![vec!["U:1:1", "U:1:2"]]);
    assert!(parties.get_player_party_indicator(&roster[2], "U:1:1").is_none());
    assert!(parties.get_player_party_indicator(&roster[0], "U:1:3").is_some());
    assert!(parties.get_player_party_indicator(&roster[1], "U:1:3").is_some());
    assert_eq!(parties.party_of("U:1:1"), Some(0));
    assert_eq!(parties.party_of("U:1:2"), Some(0));
    assert_eq!(parties.party_of("U:1:3"), None);
    assert_eq!(parties.party_of("U:1:4"), None);
}

#[test]
fn new_and_cleared_parties_are_empty() {
    let mut parties = Parties::new();
    assert!(parties.players().is_empty());
    assert!(parties.edges().is_empty());
    assert!(parties.parties().is_empty());
    parties.update(&vec![player(1, Some(&[2])), player(2, None)]);
    assert_eq!(parties.parties().len(), 1);
    parties.clear();
    assert!(parties.players().is_empty());
    assert!(parties.edges().is_empty());
    assert!(parties.parties().is_empty());
    assert!(parties.get_player_party_indicator(&player(1, None), "U:1:2").is_none());
}

#[test]
fn update_starts_afresh() {
    let mut parties = Parties::new();
    parties.update(&vec![player(1, Some(&[2])), player(2, None)]);
    parties.update(&vec![player(1, Some(&[2])), player(3, None)]);
    assert_eq!(parties.players(), &vec![String::from("U:1:1"), String::from("U:1:3")]);
    assert!(parties.edges().is_empty());
    assert!(parties.parties().is_empty());
}

#[test]
fn friends_of_friends_form_one_party() {
    // 1 - 2 - 3 in a chain, 4 - 5 a second party, 6 alone
    let roster = vec![
        player(1, Some(&[2])),
        player(4, Some(&[5])),
        player(2, None),
        player(3, Some(&[2])),
        player(6, Some(&[])),
        player(5, None),
    ];
    let mut parties = Parties::new();
    parties.update(&roster);
    assert_eq!(
        party_names(&parties),
        vec![vec!["U:1:1", "U:1:2", "U:1:3"], vec!["U:1:4", "U:1:5"]]
    );
    assert_eq!(parties.parties(), &vec![vec![0, 2, 3], vec![1, 5]]);
}

#[test]
fn parties_and_loners_make_up_the_roster() {
    let roster = vec![
        player(1, Some(&[2, 9])),
        player(2, Some(&[1])),
        player(3, None),
        player(4, Some(&[5, 6])),
        player(5, None),
        player(6, Some(&[4])),
        player(7, Some(&[8])),
    ];
    let mut parties = Parties::new();
    parties.update(&roster);
    let mut seen = vec![0usize; parties.players().len()];
    for party in parties.parties() {
        assert!(party.len() >= 2);
        for node in party {
            seen[*node] += 1;
        }
    }
    // no player stands in two parties; those in none are 3 and 7
    assert_eq!(seen, vec![1, 1, 0, 1, 1, 1, 0]);
    assert_eq!(parties.players().len(), roster.len());
}

#[test]
fn rebuilding_twice_gives_the_same_parties() {
    let roster = vec![
        player(5, Some(&[1])),
        player(1, None),
        player(2, Some(&[3])),
        player(3, Some(&[2, 4])),
        player(4, None),
    ];
    let mut first = Parties::new();
    first.update(&roster);
    let mut second = Parties::new();
    second.update(&vec![player(9, Some(&[8])), player(8, None)]);
    second.update(&roster);
    assert_eq!(first.players(), second.players());
    assert_eq!(first.parties(), second.parties());
    assert_eq!(first.parties(), &vec![vec![0, 1], vec![2, 3, 4]]);
}

#[test]
fn two_players_are_joined_by_one_edge() {
    let roster = vec![player(1, Some(&[2, 2, 1])), player(2, Some(&[1]))];
    let mut parties = Parties::new();
    parties.update(&roster);
    assert_eq!(parties.edges(), &vec![(0, 1)]);
    assert_eq!(parties.parties(), &vec![vec![0, 1]]);
}

#[test]
fn friend_outside_the_roster_or_without_short_form_joins_nobody() {
    let mut a = player(1, None);
    a.account_info = Some(Ok(info_with_friends(Some(Ok(vec![
        friend("not a number"),
        friend("123"),
        friend(&long_form(99)),
        friend("U:1:2"),
    ])))));
    let roster = vec![a, player(2, None)];
    let mut parties = Parties::new();
    parties.update(&roster);
    assert!(parties.edges().is_empty());
    assert!(parties.parties().is_empty());
}

#[test]
fn lookup_without_friends_joins_nobody() {
    let mut a = player(1, None);
    a.account_info = Some(Ok(info_with_friends(None)));
    let mut b = player(2, None);
    b.account_info =
        Some(Ok(info_with_friends(Some(Err(NetworkError { message: String::from("x") })))));
    let mut c = player(3, None);
    c.account_info = Some(Err(NetworkError { message: String::from("x") }));
    let mut parties = Parties::new();
    parties.update(&vec![a, b, c]);
    assert_eq!(parties.players().len(), 3);
    assert!(parties.parties().is_empty());
}

#[test]
fn an_identity_is_one_node_however_often_it_stands_on_the_roster() {
    let roster = vec![
        player(1, Some(&[2])),
        player(2, None),
        player(1, Some(&[3])),
        player(3, None),
    ];
    let mut parties = Parties::new();
    parties.update(&roster);
    assert_eq!(
        parties.players(),
        &vec![String::from("U:1:1"), String::from("U:1:2"), String::from("U:1:3")]
    );
    assert_eq!(parties.parties(), &vec![vec![0, 1, 2]]);
}

#[test]
fn indicator_tells_the_users_own_party() {
    let roster = vec![
        player(1, Some(&[2])),
        player(2, None),
        player(3, Some(&[4])),
        player(4, None),
        player(5, None),
    ];
    let mut parties = Parties::new();
    parties.update(&roster);
    let first = Color { r: 230, g: 25, b: 75 };
    let second = Color { r: 60, g: 180, b: 75 };
    assert_eq!(parties.get_player_party_indicator(&roster[0], "U:1:2"), Some((OWN_PARTY, first)));
    assert_eq!(parties.get_player_party_indicator(&roster[1], "U:1:2"), Some((OWN_PARTY, first)));
    assert_eq!(parties.get_player_party_indicator(&roster[2], "U:1:2"), Some((OTHER_PARTY, second)));
    assert_eq!(parties.get_player_party_indicator(&roster[3], "U:1:5"), Some((OTHER_PARTY, second)));
    assert_eq!(parties.get_player_party_indicator(&roster[3], "nobody"), Some((OTHER_PARTY, second)));
    assert_eq!(parties.get_player_party_indicator(&roster[4], "U:1:5"), None);
    assert_eq!(OWN_PARTY, '★');
    assert_eq!(OTHER_PARTY, '■');
}

#[test]
fn palette_comes_round_again() {
    assert_eq!(PALETTE_SIZE, 21);
    assert_eq!(palette_color(0), Color { r: 230, g: 25, b: 75 });
    assert_eq!(palette_color(1), Color { r: 60, g: 180, b: 75 });
    assert_eq!(palette_color(2), Color { r: 255, g: 225, b: 25 });
    assert_eq!(palette_color(10), Color { r: 0, g: 128, b: 128 });
    assert_eq!(palette_color(19), Color { r: 128, g: 128, b: 128 });
    assert_eq!(palette_color(20), Color { r: 255, g: 255, b: 255 });
    assert_eq!(palette_color(21), palette_color(0));
    assert_eq!(palette_color(43), palette_color(1));
    let mut all: Vec<Color> = (0..21).map(palette_color).collect();
    all.dedup();
    assert_eq!(all.len(), 21);
}

#[test]
fn many_parties_get_the_colours_in_turn() {
    // 23 parties of two: players 2k and 2k+1
    let mut roster = Vec::new();
    for k in 0..23u64 {
        roster.push(player(2 * k, Some(&[2 * k + 1])));
        roster.push(player(2 * k + 1, None));
    }
    let mut parties = Parties::new();
    parties.update(&roster);
    assert_eq!(parties.parties().len(), 23);
    let (_, colour) = parties.get_player_party_indicator(&roster[44], "x").unwrap();
    assert_eq!(colour, palette_color(1));
    assert_eq!(parties.party_of("U:1:45"), Some(22));
}

#[test]
fn components_of_a_plain_graph() {
    let edges = vec![(0, 1), (3, 4), (4, 5), (1, 0), (6, 6)];
    assert_eq!(label_components(8, &edges), vec![0, 0, 2, 3, 3, 3, 6, 7]);
    assert_eq!(find_parties(8, &edges), vec![vec![0, 1], vec![3, 4, 5]]);
    assert_eq!(find_parties(0, &vec![]), Vec::<Vec<usize>>::new());
    assert_eq!(find_parties(3, &vec![]), Vec::<Vec<usize>>::new());
    // a ring with a chord
    let ring = vec![(4, 3), (3, 2), (2, 1), (1, 0), (0, 4), (1, 3)];
    assert_eq!(find_parties(5, &ring), vec![vec![0, 1, 2, 3, 4]]);
    // two stars that meet late
    let stars = vec![(5, 0), (5, 1), (4, 2), (4, 3), (1, 2)];
    assert_eq!(find_parties(6, &stars), vec![vec![0, 1, 2, 3, 4, 5]]);
}

#[test]
fn edges_are_found_in_either_direction() {
    let edges = vec![(0, 1), (3, 4)];
    assert!(has_edge(&edges, 0, 1));
    assert!(has_edge(&edges, 1, 0));
    assert!(has_edge(&edges, 4, 3));
    assert!(!has_edge(&edges, 1, 3));
    assert!(!has_edge(&edges, 0, 0));
    assert!(!has_edge(&vec![], 0, 1));
}

#[test]
fn graph_for_viewers_shows_players_and_friendships() {
    let roster = vec![
        player(1, Some(&[2])),
        player(2, Some(&[1, 3])),
        player(3, None),
        player(4, None),
    ];
    let mut parties = Parties::new();
    parties.update(&roster);
    let (graph, index_of) = parties.graph();
    assert_eq!(graph.node_count(), 4);
    assert_eq!(graph.edge_count(), 2);
    assert_eq!(index_of.len(), 4);
    let node = |i: usize| petgraph::stable_graph::NodeIndex::new(index_of[i]);
    for i in 0..4 {
        assert_eq!(graph.node_weight(node(i)), Some(&parties.players()[i]));
    }
    assert!(graph.contains_edge(node(0), node(1)));
    assert!(graph.contains_edge(node(1), node(0)));
    assert!(graph.contains_edge(node(2), node(1)));
    assert!(!graph.contains_edge(node(0), node(2)));
    assert!(!graph.contains_edge(node(3), node(0)));
    let (empty, none) = Parties::new().graph();
    assert_eq!(empty.node_count(), 0);
    assert_eq!(empty.edge_count(), 0);
    assert!(none.is_empty());
}
