use bot_kicker::steamid::{steamid_32_to_64, steamid_64_to_32, FormatError, STEAM_ID64_BASE};

#[test]
fn base_is_the_documented_offset() {
    assert_eq!(STEAM_ID64_BASE, 76561197960265728);
}

#[test]
fn short_form_to_long_form() {
    assert_eq!(steamid_32_to_64("U:1:2"), Ok(String::from("76561197960265730")));
    assert_eq!(steamid_32_to_64("U:1:0"), Ok(String::from("76561197960265728")));
    assert_eq!(steamid_32_to_64("U:1:1234567"), Ok(String::from("76561197961500295")));
}

#[test]
fn brackets_are_stripped() {
    assert_eq!(steamid_32_to_64("[U:1:2]"), Ok(String::from("76561197960265730")));
    assert_eq!(steamid_32_to_64("[U:1:2"), Ok(String::from("76561197960265730")));
    assert_eq!(steamid_32_to_64("U:1:2]"), Ok(String::from("76561197960265730")));
}

#[test]
fn long_form_to_short_form() {
    assert_eq!(steamid_64_to_32("76561197960265730"), Ok(String::from("U:1:2")));
    assert_eq!(steamid_64_to_32("76561197960265728"), Ok(String::from("U:1:0")));
    assert_eq!(steamid_64_to_32("76561197961500295"), Ok(String::from("U:1:1234567")));
}

#[test]
fn malformed_short_forms_are_refused() {
    assert_eq!(steamid_32_to_64(""), Err(FormatError::Malformed));
    assert_eq!(steamid_32_to_64("U:1:"), Err(FormatError::Malformed));
    assert_eq!(steamid_32_to_64("U:1:12a"), Err(FormatError::Malformed));
    assert_eq!(steamid_32_to_64("X:1:12"), Err(FormatError::Malformed));
    assert_eq!(steamid_32_to_64("U:12:12"), Err(FormatError::Malformed));
    assert_eq!(steamid_32_to_64("[[U:1:12]"), Err(FormatError::Malformed));
    assert_eq!(steamid_32_to_64("76561197960265730"), Err(FormatError::Malformed));
}

#[test]
fn short_form_beyond_64_bits_is_out_of_range() {
    assert_eq!(steamid_32_to_64("U:1:18446744073709551615"), Err(FormatError::OutOfRange));
    assert_eq!(steamid_32_to_64("U:1:99999999999999999999999"), Err(FormatError::OutOfRange));
    // the largest account that still has a long form
    assert_eq!(
        steamid_32_to_64("U:1:18370182875749285887"),
        Ok(String::from("18446744073709551615"))
    );
    assert_eq!(steamid_32_to_64("U:1:18370182875749285888"), Err(FormatError::OutOfRange));
}

#[test]
fn malformed_long_forms_are_refused() {
    assert_eq!(steamid_64_to_32(""), Err(FormatError::Malformed));
    assert_eq!(steamid_64_to_32("7656119796026573x"), Err(FormatError::Malformed));
    assert_eq!(steamid_64_to_32("+76561197960265730"), Err(FormatError::Malformed));
    assert_eq!(steamid_64_to_32("U:1:2"), Err(FormatError::Malformed));
}

#[test]
fn long_form_below_the_base_is_out_of_range() {
    assert_eq!(steamid_64_to_32("76561197960265727"), Err(FormatError::OutOfRange));
    assert_eq!(steamid_64_to_32("0"), Err(FormatError::OutOfRange));
    assert_eq!(steamid_64_to_32("76560000000000000"), Err(FormatError::OutOfRange));
    assert_eq!(steamid_64_to_32("18446744073709551616"), Err(FormatError::OutOfRange));
}

#[test]
fn round_trip_from_short_form() {
    for text in ["U:1:0", "U:1:5", "U:1:111", "U:1:4294967295", "U:1:18370182875749285887"] {
        let long = steamid_32_to_64(text).unwrap();
        assert_eq!(steamid_64_to_32(&long), Ok(String::from(text)));
    }
}

#[test]
fn round_trip_from_long_form() {
    for text in ["76561197960265728", "76561197960265730", "76561202255233023", "18446744073709551615"] {
        let short = steamid_64_to_32(text).unwrap();
        assert_eq!(steamid_32_to_64(&short), Ok(String::from(text)));
    }
}

#[test]
fn other_universe_is_read_but_written_as_universe_one() {
    let long = steamid_32_to_64("U:0:7").unwrap();
    assert_eq!(long, "76561197960265735");
    assert_eq!(steamid_64_to_32(&long), Ok(String::from("U:1:7")));
}

#[test]
fn leading_zeros_count_for_nothing() {
    assert_eq!(steamid_32_to_64("U:1:0002"), Ok(String::from("76561197960265730")));
    assert_eq!(steamid_64_to_32("0076561197960265730"), Ok(String::from("U:1:2")));
}
