use bot_kicker::decimal::{char_is_digit, parse_decimal, push_decimal};
use bot_kicker::gui::{format_time, truncate, GuiTab, TRUNC_LEN};
use bot_kicker::idscan::{find_steamid32, find_steamid64, STEAMID64_LEN};
use bot_kicker::lines::{char_is_space, find_filled_lines};
use bot_kicker::text::{chars_of, same_text, string_of};

fn chars(text: &str) -> Vec<char> {
    text.chars().collect()
}

#[test]
fn time_is_written_as_minutes_and_seconds() {
    assert_eq!(format_time(0), " 0:00");
    assert_eq!(format_time(5), " 0:05");
    assert_eq!(format_time(59), " 0:59");
    assert_eq!(format_time(60), " 1:00");
    assert_eq!(format_time(65), " 1:05");
    assert_eq!(format_time(599), " 9:59");
    assert_eq!(format_time(600), "10:00");
    assert_eq!(format_time(3599), "59:59");
    assert_eq!(format_time(6000), "100:00");
    assert_eq!(format_time(u32::MAX), "71582788:15");
}

#[test]
fn names_are_cut_to_length() {
    assert_eq!(TRUNC_LEN, 40);
    assert_eq!(truncate("hello", 3), "hel");
    assert_eq!(truncate("hello", 5), "hello");
    assert_eq!(truncate("hello", 9), "hello");
    assert_eq!(truncate("hello", 0), "");
    assert_eq!(truncate("", 4), "");
    assert_eq!(truncate("héllo wörld", 2), "hé");
    assert_eq!(truncate("日本語のなまえ", 3), "日本語");
    let long = "x".repeat(50);
    assert_eq!(truncate(&long, TRUNC_LEN).len(), 40);
}

#[test]
fn tabs_have_their_titles() {
    assert_eq!(GuiTab::Settings.to_string(), "Settings");
    assert_eq!(GuiTab::Players.to_string(), "Players");
    assert_eq!(GuiTab::ChatLog.to_string(), "Chat");
    assert_eq!(GuiTab::DeathLog.to_string(), "Death Log");
    assert_eq!(GuiTab::FriendGraph.to_string(), "Friend Graph");
    assert_eq!(GuiTab::Players, GuiTab::Players);
    assert_ne!(GuiTab::Players, GuiTab::ChatLog);
}

#[test]
fn decimals_are_read() {
    assert_eq!(parse_decimal(&chars("0")), Some(0));
    assert_eq!(parse_decimal(&chars("007")), Some(7));
    assert_eq!(parse_decimal(&chars("1234567890")), Some(1234567890));
    assert_eq!(parse_decimal(&chars("18446744073709551615")), Some(u64::MAX));
    assert_eq!(parse_decimal(&chars("18446744073709551616")), None);
    assert_eq!(parse_decimal(&chars("99999999999999999999")), None);
    assert_eq!(parse_decimal(&chars("000000000000000000000001")), Some(1));
    assert_eq!(parse_decimal(&chars("")), None);
    assert_eq!(parse_decimal(&chars("12a")), None);
    assert_eq!(parse_decimal(&chars("-1")), None);
    assert_eq!(parse_decimal(&chars("+1")), None);
    assert_eq!(parse_decimal(&chars("١٢")), None);
}

#[test]
fn decimals_are_written() {
    for (n, text) in [(0u64, "0"), (7, "7"), (10, "10"), (1234567890, "1234567890"), (u64::MAX, "18446744073709551615")] {
        let mut out = String::from(">");
        push_decimal(&mut out, n);
        assert_eq!(out, format!(">{}", text));
    }
}

#[test]
fn digits_are_the_ascii_ones() {
    assert!(char_is_digit('0'));
    assert!(char_is_digit('9'));
    assert!(!char_is_digit('a'));
    assert!(!char_is_digit('/'));
    assert!(!char_is_digit(':'));
    assert!(!char_is_digit('٣'));
}

#[test]
fn white_space_is_what_trimming_takes_off() {
    for code in 0..0x3100u32 {
        if let Some(c) = char::from_u32(code) {
            assert_eq!(char_is_space(c), c.is_whitespace(), "U+{:04X}", code);
        }
    }
    assert!(!char_is_space('\u{feff}'));
    assert!(!char_is_space('\u{200b}'));
}

#[test]
fn short_forms_are_found() {
    assert_eq!(find_steamid32(&chars("[U:1:111] U:1:222 76561197960265730")), vec!["U:1:111", "U:1:222"]);
    assert_eq!(find_steamid32(&chars("U:1:1U:2:34x")), vec!["U:1:1", "U:2:34"]);
    assert_eq!(find_steamid32(&chars("UU:1:5]]")), vec!["U:1:5"]);
    assert_eq!(find_steamid32(&chars("U:1: U:12:3 U:a:3 u:1:3 U:1")), Vec::<String>::new());
    assert_eq!(find_steamid32(&chars("U:1:5")), vec!["U:1:5"]);
    assert_eq!(find_steamid32(&chars("")), Vec::<String>::new());
    assert_eq!(find_steamid32(&chars("x U:0:0007\nU:1:8")), vec!["U:0:0007", "U:1:8"]);
}

#[test]
fn long_forms_are_found() {
    assert_eq!(STEAMID64_LEN, 17);
    assert_eq!(find_steamid64(&chars("[U:1:111] 76561197960265730")), vec!["76561197960265730"]);
    assert_eq!(find_steamid64(&chars("7656119796026573")), Vec::<String>::new());
    // inside a longer run of digits the first seventeen are taken
    assert_eq!(find_steamid64(&chars("765611979602657301")), vec!["76561197960265730"]);
    assert_eq!(find_steamid64(&chars("176561197960265730")), vec!["76561197960265730"]);
    // a place that one long form has taken starts no other
    assert_eq!(find_steamid64(&chars("76567656119796026573099")), vec!["76567656119796026"]);
    assert_eq!(
        find_steamid64(&chars("7656119796026573076561197960265731")),
        vec!["76561197960265730", "76561197960265731"]
    );
    assert_eq!(find_steamid64(&chars("7656x1197960265730")), Vec::<String>::new());
    assert_eq!(find_steamid64(&chars("")), Vec::<String>::new());
}

#[test]
fn filled_lines_are_found() {
    assert_eq!(find_filled_lines(&chars("a\nb")), vec!["a", "b"]);
    assert_eq!(find_filled_lines(&chars("a\nb\n")), vec!["a", "b"]);
    assert_eq!(find_filled_lines(&chars("\n\n a b \r\n\t\n")), vec!["a b"]);
    assert_eq!(find_filled_lines(&chars("   ")), Vec::<String>::new());
    assert_eq!(find_filled_lines(&chars("")), Vec::<String>::new());
    assert_eq!(find_filled_lines(&chars("one")), vec!["one"]);
    let text = " x \n\ny\r\n  \n z";
    let expected: Vec<&str> = text.lines().map(|l| l.trim()).filter(|l| !l.is_empty()).collect();
    assert_eq!(find_filled_lines(&chars(text)), expected);
}

#[test]
fn texts_are_taken_apart_and_put_together() {
    assert_eq!(chars_of("héllo"), vec!['h', 'é', 'l', 'l', 'o']);
    assert_eq!(chars_of(""), Vec::<char>::new());
    assert_eq!(string_of(&chars("héllo"), 1, 4), "éll");
    assert_eq!(string_of(&chars("héllo"), 2, 2), "");
    assert!(same_text("abc", "abc"));
    assert!(same_text("", ""));
    assert!(!same_text("abc", "abd"));
    assert!(!same_text("abc", "ab"));
    assert!(!same_text("ab", "abc"));
}
