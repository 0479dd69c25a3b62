use bot_kicker::pattern::NamePattern;
use bot_kicker::player_checker::PlayerChecker;

#[test]
fn pattern_compiles_or_not() {
    assert!(NamePattern::new("^bot\\d+$").is_ok());
    assert!(NamePattern::new("").is_ok());
    assert!(NamePattern::new("foo(bar").is_err());
    assert!(NamePattern::new("[a-").is_err());
    assert!(NamePattern::new("*").is_err());
}

#[test]
fn pattern_keeps_its_text() {
    let pattern = NamePattern::new("^m4gic$").unwrap();
    assert_eq!(pattern.as_str(), "^m4gic$");
}

#[test]
fn pattern_matches_anywhere_in_the_name() {
    let pattern = NamePattern::new("bot").unwrap();
    assert!(pattern.is_match("bot"));
    assert!(pattern.is_match("a robot here"));
    assert!(!pattern.is_match("b0t"));
    // the pattern is a regular expression, not the name it is held against
    assert!(!pattern.is_match(""));
    let anchored = NamePattern::new("^\\d{3}$").unwrap();
    assert!(anchored.is_match("123"));
    assert!(!anchored.is_match("1234"));
    assert!(!anchored.is_match("^\\d{3}$"));
}

#[test]
fn first_matching_pattern_wins() {
    let mut checker = PlayerChecker::new();
    let refused = checker.read_regex_list("^omega\n.*tron$\nmega");
    assert!(refused.is_empty());
    assert_eq!(checker.check_player_name("megatron").unwrap().as_str(), ".*tron$");
    assert_eq!(checker.check_player_name("omegatron").unwrap().as_str(), "^omega");
    assert_eq!(checker.check_player_name("mega").unwrap().as_str(), "mega");
    assert!(checker.check_player_name("alpha").is_none());
}

#[test]
fn no_patterns_no_match() {
    let checker = PlayerChecker::new();
    assert!(checker.check_player_name("anyone").is_none());
    assert!(checker.check_player_name("").is_none());
}

#[test]
fn pattern_file_with_one_bad_line() {
    let mut checker = PlayerChecker::new();
    let refused = checker.read_regex_list("^DoesHotter$\nfoo(bar\n^m4gic\\d*$\n");
    assert_eq!(refused, vec![String::from("foo(bar")]);
    let texts: Vec<&str> = checker.bots_regx.iter().map(|p| p.as_str()).collect();
    assert_eq!(texts, vec!["^DoesHotter$", "^m4gic\\d*$"]);
}

#[test]
fn pattern_lines_are_trimmed_and_blank_lines_skipped() {
    let mut checker = PlayerChecker::new();
    let refused = checker.read_regex_list("  one \r\n\n\t\n two\u{a0}\n\u{2003}three\u{3000}\n   ");
    assert!(refused.is_empty());
    let texts: Vec<&str> = checker.bots_regx.iter().map(|p| p.as_str()).collect();
    assert_eq!(texts, vec!["one", "two", "three"]);
}

#[test]
fn patterns_are_appended_and_not_filtered() {
    let mut checker = PlayerChecker::new();
    checker.read_regex_list("a\nb");
    checker.read_regex_list("b\nc");
    let texts: Vec<&str> = checker.bots_regx.iter().map(|p| p.as_str()).collect();
    assert_eq!(texts, vec!["a", "b", "b", "c"]);
}

#[test]
fn empty_pattern_file_brings_nothing() {
    let mut checker = PlayerChecker::new();
    assert!(checker.read_regex_list("").is_empty());
    assert!(checker.read_regex_list("\n\n  \n").is_empty());
    assert!(checker.bots_regx.is_empty());
}

#[test]
fn pattern_file_text_has_one_pattern_on_each_line() {
    let mut checker = PlayerChecker::new();
    assert_eq!(checker.save_regex(), "");
    checker.read_regex_list("^a$\n  b+  \n");
    assert_eq!(checker.save_regex(), "^a$\nb+\n");
    let mut again = PlayerChecker::new();
    assert!(again.read_regex_list(&checker.save_regex()).is_empty());
    assert_eq!(again.save_regex(), "^a$\nb+\n");
}

#[test]
fn pattern_import_leaves_the_records_alone() {
    let mut checker = PlayerChecker::new();
    checker.read_from_steamid_list_string("U:1:5", bot_kicker::player::PlayerType::Bot, "a", true);
    checker.read_regex_list("x");
    assert!(checker.players.contains("U:1:5"));
}
