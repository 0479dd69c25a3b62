use bot_kicker::player::{Player, PlayerRecord, PlayerType};
use bot_kicker::player_checker::{ImportError, PlayerChecker, PLAYER_LIST, REGEX_LIST};
use bot_kicker::record_file::RawRecord;
use bot_kicker::record_table::RecordTable;

fn record(steamid: &str, kind: PlayerType, notes: &str) -> PlayerRecord {
    PlayerRecord::new(steamid, kind, notes)
}

fn kind_of(table: &RecordTable, steamid: &str) -> Option<PlayerType> {
    table.get(steamid).map(|r| r.player_type)
}

#[test]
fn file_names_are_the_usual_ones() {
    assert_eq!(REGEX_LIST, "cfg/regx.txt");
    assert_eq!(PLAYER_LIST, "cfg/playerlist.json");
}

#[test]
fn new_store_is_empty() {
    let checker = PlayerChecker::new();
    assert!(checker.bots_regx.is_empty());
    assert!(checker.players.records().is_empty());
    assert!(checker.external_players.records().is_empty());
    assert!(checker.check_player_steamid("U:1:5").is_none());
}

#[test]
fn import_of_three_identities_as_bots() {
    let mut checker = PlayerChecker::new();
    checker.read_from_steamid_list_string(
        "[U:1:111] U:1:222 76561197960265730",
        PlayerType::Bot,
        "list.txt",
        true,
    );
    assert_eq!(checker.players.records().len(), 3);
    assert_eq!(kind_of(&checker.players, "U:1:111"), Some(PlayerType::Bot));
    assert_eq!(kind_of(&checker.players, "U:1:222"), Some(PlayerType::Bot));
    assert_eq!(kind_of(&checker.players, "U:1:2"), Some(PlayerType::Bot));
    assert!(checker.external_players.records().is_empty());
}

#[test]
fn import_note_names_source_and_kind() {
    let mut checker = PlayerChecker::new();
    checker.read_from_steamid_list_string("U:1:7", PlayerType::Cheater, "cfg/cheaters.txt", true);
    let found = checker.players.get("U:1:7").unwrap();
    assert_eq!(found.steamid, "U:1:7");
    assert_eq!(found.notes, "imported from cfg/cheaters.txt as Cheater");
    checker.read_from_steamid_list_string("U:1:8", PlayerType::Suspicious, "s", true);
    assert_eq!(checker.players.get("U:1:8").unwrap().notes, "imported from s as Suspicious");
    checker.read_from_steamid_list_string("U:1:9", PlayerType::Player, "p", true);
    assert_eq!(checker.players.get("U:1:9").unwrap().notes, "imported from p as Player");
    assert_eq!(kind_of(&checker.players, "U:1:9"), Some(PlayerType::Player));
}

#[test]
fn import_order_is_short_forms_then_long_forms() {
    let mut checker = PlayerChecker::new();
    checker.read_from_steamid_list_string(
        "76561197960265730 U:1:111\n[U:1:222]",
        PlayerType::Bot,
        "f",
        true,
    );
    let ids: Vec<String> = checker.players.records().into_iter().map(|r| r.steamid).collect();
    assert_eq!(ids, vec!["U:1:111", "U:1:222", "U:1:2"]);
}

#[test]
fn importing_twice_is_importing_once() {
    let text = "[U:1:111] U:1:222 76561197960265730 U:1:111";
    let mut once = PlayerChecker::new();
    once.read_from_steamid_list_string(text, PlayerType::Bot, "a", true);
    let mut twice = PlayerChecker::new();
    twice.read_from_steamid_list_string(text, PlayerType::Bot, "a", true);
    twice.read_from_steamid_list_string(text, PlayerType::Bot, "a", true);
    let first: Vec<(String, PlayerType, String)> =
        once.players.records().into_iter().map(|r| (r.steamid, r.player_type, r.notes)).collect();
    let second: Vec<(String, PlayerType, String)> =
        twice.players.records().into_iter().map(|r| (r.steamid, r.player_type, r.notes)).collect();
    assert_eq!(first.len(), 3);
    assert_eq!(first, second);
}

#[test]
fn second_import_keeps_what_the_first_brought() {
    let mut checker = PlayerChecker::new();
    checker.read_from_steamid_list_string("U:1:111", PlayerType::Bot, "a", true);
    checker.read_from_steamid_list_string("U:1:111 U:1:5", PlayerType::Cheater, "b", true);
    assert_eq!(kind_of(&checker.players, "U:1:111"), Some(PlayerType::Bot));
    assert_eq!(checker.players.get("U:1:111").unwrap().notes, "imported from a as Bot");
    assert_eq!(kind_of(&checker.players, "U:1:5"), Some(PlayerType::Cheater));
}

#[test]
fn import_keeps_curated_records() {
    let mut checker = PlayerChecker::new();
    checker.update_player_record(record("U:1:111", PlayerType::Suspicious, "by hand"));
    checker.read_from_steamid_list_string("U:1:111 U:1:222", PlayerType::Bot, "a", true);
    assert_eq!(kind_of(&checker.players, "U:1:111"), Some(PlayerType::Suspicious));
    assert_eq!(checker.players.get("U:1:111").unwrap().notes, "by hand");
    assert_eq!(kind_of(&checker.players, "U:1:222"), Some(PlayerType::Bot));
}

#[test]
fn import_into_the_outside_records() {
    let mut checker = PlayerChecker::new();
    checker.update_player_record(record("U:1:111", PlayerType::Suspicious, "by hand"));
    checker.read_from_steamid_list_string("U:1:111 U:1:222", PlayerType::Bot, "a", false);
    assert_eq!(checker.players.records().len(), 1);
    assert_eq!(checker.external_players.records().len(), 2);
    assert_eq!(kind_of(&checker.external_players, "U:1:111"), Some(PlayerType::Bot));
    assert_eq!(kind_of(&checker.external_players, "U:1:222"), Some(PlayerType::Bot));
}

#[test]
fn long_form_without_short_form_is_passed_over() {
    let mut checker = PlayerChecker::new();
    // seventeen digits that begin with 7656 but lie below the base
    checker.read_from_steamid_list_string("76560000000000000", PlayerType::Bot, "a", true);
    assert!(checker.players.records().is_empty());
    checker.read_from_steamid_list_string(
        "76560000000000000 76561197960265729",
        PlayerType::Bot,
        "a",
        true,
    );
    let ids: Vec<String> = checker.players.records().into_iter().map(|r| r.steamid).collect();
    assert_eq!(ids, vec!["U:1:1"]);
}

#[test]
fn text_without_identities_brings_nothing() {
    let mut checker = PlayerChecker::new();
    checker.read_from_steamid_list_string("", PlayerType::Bot, "a", true);
    checker.read_from_steamid_list_string("no ids here U:x:1 7656", PlayerType::Bot, "a", true);
    assert!(checker.players.records().is_empty());
}

#[test]
fn default_record_deletes_the_entry() {
    let mut checker = PlayerChecker::new();
    checker.update_player_record(record("U:1:5", PlayerType::Bot, ""));
    assert_eq!(kind_of(&checker.players, "U:1:5"), Some(PlayerType::Bot));
    checker.update_player_record(record("U:1:5", PlayerType::Player, ""));
    assert!(checker.check_player_steamid("U:1:5").is_none());
    assert!(!checker.players.contains("U:1:5"));
    assert!(checker.players.records().is_empty());
}

#[test]
fn default_record_for_an_unknown_identity_changes_nothing() {
    let mut checker = PlayerChecker::new();
    checker.update_player_record(record("U:1:6", PlayerType::Cheater, "x"));
    checker.update_player_record(record("U:1:5", PlayerType::Player, ""));
    assert_eq!(checker.players.records().len(), 1);
    assert!(checker.players.contains("U:1:6"));
}

#[test]
fn no_stored_record_says_nothing() {
    let mut checker = PlayerChecker::new();
    let puts = [
        record("U:1:1", PlayerType::Player, ""),
        record("U:1:2", PlayerType::Player, "note"),
        record("U:1:3", PlayerType::Bot, ""),
        record("U:1:2", PlayerType::Player, ""),
        record("U:1:3", PlayerType::Player, ""),
        record("U:1:4", PlayerType::Suspicious, "s"),
        record("U:1:4", PlayerType::Player, "kept"),
    ];
    for put in puts {
        checker.update_player_record(put);
        for stored in checker.players.records() {
            assert!(!(stored.player_type == PlayerType::Player && stored.notes.is_empty()));
        }
    }
    let left: Vec<(String, PlayerType, String)> =
        checker.players.records().into_iter().map(|r| (r.steamid, r.player_type, r.notes)).collect();
    assert_eq!(left, vec![(String::from("U:1:4"), PlayerType::Player, String::from("kept"))]);
}

#[test]
fn player_with_notes_is_stored() {
    let mut checker = PlayerChecker::new();
    checker.update_player_record(record("U:1:5", PlayerType::Player, "a friend"));
    let found = checker.check_player_steamid("U:1:5").unwrap();
    assert_eq!(found.player_type, PlayerType::Player);
    assert_eq!(found.notes, "a friend");
}

#[test]
fn upsert_overwrites() {
    let mut checker = PlayerChecker::new();
    checker.update_player_record(record("U:1:5", PlayerType::Bot, "one"));
    checker.update_player_record(record("U:1:5", PlayerType::Cheater, "two"));
    let found = checker.check_player_steamid("U:1:5").unwrap();
    assert_eq!(found.player_type, PlayerType::Cheater);
    assert_eq!(found.notes, "two");
    assert_eq!(checker.players.records().len(), 1);
}

#[test]
fn upsert_leaves_outside_records_alone() {
    let mut checker = PlayerChecker::new();
    checker.read_from_steamid_list_string("U:1:5", PlayerType::Bot, "a", false);
    checker.update_player_record(record("U:1:5", PlayerType::Player, ""));
    assert_eq!(kind_of(&checker.external_players, "U:1:5"), Some(PlayerType::Bot));
    assert_eq!(checker.check_player_steamid("U:1:5").unwrap().player_type, PlayerType::Bot);
}

#[test]
fn curated_record_wins_over_outside_record() {
    let mut checker = PlayerChecker::new();
    checker.read_from_steamid_list_string("U:1:5 U:1:6", PlayerType::Bot, "a", false);
    checker.update_player_record(record("U:1:5", PlayerType::Cheater, "seen"));
    assert_eq!(checker.check_player_steamid("U:1:5").unwrap().player_type, PlayerType::Cheater);
    assert_eq!(checker.check_player_steamid("U:1:6").unwrap().player_type, PlayerType::Bot);
    assert!(checker.check_player_steamid("U:1:7").is_none());
}

#[test]
fn update_player_stores_the_players_marks() {
    let mut checker = PlayerChecker::new();
    let mut player = Player::new("U:1:5", "someone");
    player.player_type = PlayerType::Cheater;
    player.notes = String::from("aimbot");
    checker.update_player(&player);
    let found = checker.check_player_steamid("U:1:5").unwrap();
    assert_eq!(found.steamid, "U:1:5");
    assert_eq!(found.player_type, PlayerType::Cheater);
    assert_eq!(found.notes, "aimbot");
    let plain = Player::new("U:1:5", "someone");
    checker.update_player(&plain);
    assert!(checker.check_player_steamid("U:1:5").is_none());
}

#[test]
fn removal_keeps_the_other_records_findable() {
    let mut table = RecordTable::new();
    for n in 0..6 {
        table.upsert(record(&format!("U:1:{}", n), PlayerType::Bot, "x"));
    }
    table.remove("U:1:0");
    table.remove("U:1:3");
    table.remove("U:1:9");
    let ids: Vec<String> = table.records().into_iter().map(|r| r.steamid).collect();
    assert_eq!(ids, vec!["U:1:5", "U:1:1", "U:1:2", "U:1:4"]);
    for id in ["U:1:1", "U:1:2", "U:1:4", "U:1:5"] {
        assert_eq!(table.get(id).unwrap().steamid, id);
    }
    assert!(table.get("U:1:0").is_none());
    assert!(table.get("U:1:3").is_none());
    table.remove("U:1:5");
    table.remove("U:1:4");
    table.remove("U:1:2");
    table.remove("U:1:1");
    assert!(table.records().is_empty());
}

#[test]
fn saved_players_are_the_curated_records() {
    let mut checker = PlayerChecker::new();
    checker.update_player_record(record("U:1:5", PlayerType::Bot, "one"));
    checker.update_player_record(record("U:1:6", PlayerType::Cheater, "two"));
    checker.read_from_steamid_list_string("U:1:7", PlayerType::Bot, "a", false);
    let saved: Vec<(String, PlayerType, String)> =
        checker.save_players().into_iter().map(|r| (r.steamid, r.player_type, r.notes)).collect();
    assert_eq!(
        saved,
        vec![
            (String::from("U:1:5"), PlayerType::Bot, String::from("one")),
            (String::from("U:1:6"), PlayerType::Cheater, String::from("two")),
        ]
    );
}

#[test]
fn record_file_is_read() {
    let mut checker = PlayerChecker::new();
    let text = r#"[
        {"steamid": "U:1:5", "player_type": "Bot", "notes": "named"},
        {"steamid": "U:1:6", "player_type": "Cheater", "notes": ""},
        {"steamid": "U:1:7", "player_type": "Suspicious"},
        {"steamid": "U:1:8", "player_type": "Player", "notes": "friend"}
    ]"#;
    assert!(checker.read_players(text).is_ok());
    assert_eq!(checker.players.records().len(), 4);
    assert_eq!(kind_of(&checker.players, "U:1:5"), Some(PlayerType::Bot));
    assert_eq!(checker.players.get("U:1:5").unwrap().notes, "named");
    assert_eq!(kind_of(&checker.players, "U:1:6"), Some(PlayerType::Cheater));
    assert_eq!(kind_of(&checker.players, "U:1:7"), Some(PlayerType::Suspicious));
    assert_eq!(checker.players.get("U:1:7").unwrap().notes, "");
    assert_eq!(kind_of(&checker.players, "U:1:8"), Some(PlayerType::Player));
}

#[test]
fn record_file_with_bad_entries_is_read_in_part() {
    let mut checker = PlayerChecker::new();
    let text = r#"[
        {"steamid": "U:1:5", "player_type": "Bot", "notes": "a"},
        {"steamid": "", "player_type": "Bot", "notes": "no identity"},
        {"player_type": "Bot", "notes": "no identity either"},
        {"steamid": "U:1:6", "player_type": "Robot", "notes": "b"},
        {"steamid": "U:1:7", "notes": "no kind"},
        {"steamid": 8, "player_type": "Bot"},
        42,
        {"steamid": "U:1:9", "player_type": "Cheater", "notes": 3}
    ]"#;
    match checker.read_players(text) {
        Err(ImportError::Partial(partial)) => {
            assert_eq!(partial.rejected, vec![String::from("Robot"), String::new()]);
        }
        other => panic!("expected a partial import, got {:?}", other),
    }
    let ids: Vec<String> = checker.players.records().into_iter().map(|r| r.steamid).collect();
    assert_eq!(ids, vec!["U:1:5", "U:1:9"]);
    assert_eq!(checker.players.get("U:1:9").unwrap().notes, "");
}

#[test]
fn record_file_that_is_no_json_is_an_error() {
    let mut checker = PlayerChecker::new();
    checker.update_player_record(record("U:1:5", PlayerType::Bot, "one"));
    match checker.read_players("[{\"steamid\": ") {
        Err(ImportError::Parse(error)) => assert!(!error.message.is_empty()),
        other => panic!("expected a parse error, got {:?}", other),
    }
    assert!(matches!(checker.read_players(""), Err(ImportError::Parse(_))));
    assert_eq!(checker.players.records().len(), 1);
}

#[test]
fn record_file_that_is_no_list_brings_nothing() {
    let mut checker = PlayerChecker::new();
    assert!(checker.read_players("{\"steamid\": \"U:1:5\", \"player_type\": \"Bot\"}").is_ok());
    assert!(checker.read_players("3").is_ok());
    assert!(checker.read_players("[]").is_ok());
    assert!(checker.players.records().is_empty());
}

#[test]
fn record_file_overwrites_and_deletes() {
    let mut checker = PlayerChecker::new();
    checker.update_player_record(record("U:1:5", PlayerType::Bot, "old"));
    checker.update_player_record(record("U:1:6", PlayerType::Bot, "old"));
    let text = r#"[
        {"steamid": "U:1:5", "player_type": "Cheater", "notes": "new"},
        {"steamid": "U:1:6", "player_type": "Player", "notes": ""}
    ]"#;
    assert!(checker.read_players(text).is_ok());
    assert_eq!(kind_of(&checker.players, "U:1:5"), Some(PlayerType::Cheater));
    assert_eq!(checker.players.get("U:1:5").unwrap().notes, "new");
    assert!(!checker.players.contains("U:1:6"));
}

#[test]
fn entries_are_imported_one_after_the_other() {
    let mut checker = PlayerChecker::new();
    let entries = vec![
        RawRecord {
            steamid: Some(String::from("U:1:5")),
            player_type: Some(String::from("Bot")),
            notes: Some(String::from("first")),
        },
        RawRecord {
            steamid: Some(String::from("U:1:5")),
            player_type: Some(String::from("Suspicious")),
            notes: None,
        },
        RawRecord { steamid: None, player_type: Some(String::from("Bot")), notes: None },
        RawRecord { steamid: Some(String::from("U:1:6")), player_type: None, notes: None },
        RawRecord {
            steamid: Some(String::from("U:1:7")),
            player_type: Some(String::from("bot")),
            notes: None,
        },
    ];
    let outcome = checker.import_records(&entries);
    assert_eq!(outcome.unwrap_err().rejected, vec![String::new(), String::from("bot")]);
    assert_eq!(checker.players.records().len(), 1);
    assert_eq!(kind_of(&checker.players, "U:1:5"), Some(PlayerType::Suspicious));
    assert_eq!(checker.players.get("U:1:5").unwrap().notes, "");
}

#[test]
fn kinds_have_their_words() {
    for kind in [PlayerType::Player, PlayerType::Bot, PlayerType::Cheater, PlayerType::Suspicious] {
        assert_eq!(PlayerType::from_name(kind.name()), Some(kind));
    }
    assert_eq!(PlayerType::Player.name(), "Player");
    assert_eq!(PlayerType::Bot.name(), "Bot");
    assert_eq!(PlayerType::Cheater.name(), "Cheater");
    assert_eq!(PlayerType::Suspicious.name(), "Suspicious");
    assert_eq!(PlayerType::from_name("bot"), None);
    assert_eq!(PlayerType::from_name(""), None);
    assert_eq!(PlayerType::from_name("Bot "), None);
}

#[test]
fn record_copies_hold_the_same() {
    let first = record("U:1:5", PlayerType::Bot, "note");
    let copy = first.duplicate();
    assert_eq!(copy.steamid, "U:1:5");
    assert_eq!(copy.player_type, PlayerType::Bot);
    assert_eq!(copy.notes, "note");
    assert!(!first.carries_nothing());
    assert!(record("U:1:5", PlayerType::Player, "").carries_nothing());
    assert!(!record("U:1:5", PlayerType::Player, "x").carries_nothing());
    assert!(!record("U:1:5", PlayerType::Bot, "").carries_nothing());
}
