use mkanki::cli::default_config_path;
use mkanki::naming::{deck_file_name, make_deck_name, timestamp};
use mkanki::text::decimal_string;

#[test]
fn file_name_layout() {
    assert_eq!(deck_file_name(1700000000000, "My Deck"), "1700000000000_My Deck.apkg");
    assert_eq!(deck_file_name(0, ""), "0_.apkg");
}

#[test]
fn decimal_rendering() {
    assert_eq!(decimal_string(0), "0");
    assert_eq!(decimal_string(1234567), "1234567");
    assert_eq!(decimal_string(u128::MAX), u128::MAX.to_string());
}

#[test]
fn deck_name_is_sanitized_and_timed() {
    let name = make_deck_name("a/b").unwrap();
    assert!(name.ends_with("_ab.apkg"), "{}", name);
    let millis: u128 = name.split('_').next().unwrap().parse().unwrap();
    assert!(millis > 1_600_000_000_000);
}

#[test]
fn clock_is_after_epoch() {
    assert!(timestamp().unwrap() > 1_600_000_000_000);
}

#[test]
fn config_path_of_user() {
    assert_eq!(default_config_path("alice"), "/home/alice/.config/mkanki.toml");
}
