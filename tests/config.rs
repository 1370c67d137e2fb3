use mkanki::config::{
    default_deck, select_deck, starts_with, Config, ConfigAll, ConfigError, DeckConfig,
};

fn deck(id: i64, name: &str, is_default: bool, prefixes: &[&str]) -> DeckConfig {
    DeckConfig {
        id,
        name: name.to_string(),
        description: None,
        is_default,
        type_in_prefixes: prefixes.iter().map(|s| s.to_string()).collect(),
    }
}

fn strings(v: &[&str]) -> Vec<String> {
    v.iter().map(|s| s.to_string()).collect()
}

#[test]
fn shared_prefixes_are_merged_sorted_and_unique() {
    let config = Config {
        all: ConfigAll { type_in_prefixes: strings(&["c", "a", "Def"]) },
        decks: vec![deck(1, "One", true, &["b", "a"]), deck(2, "Two", false, &[])],
    };
    let decks = config.resolve_decks().unwrap();
    assert_eq!(decks.len(), 2);
    assert_eq!(decks[0].type_in_prefixes, strings(&["Def", "a", "b", "c"]));
    assert_eq!(decks[1].type_in_prefixes, strings(&["Def", "a", "c"]));
    assert_eq!(decks[0].id, 1);
    assert_eq!(decks[1].name, "Two");
    assert!(decks[0].is_default);
}

#[test]
fn without_shared_prefixes_decks_are_unchanged() {
    let config = Config {
        all: ConfigAll { type_in_prefixes: vec![] },
        decks: vec![deck(1, "One", true, &["z", "a", "z"])],
    };
    let decks = config.resolve_decks().unwrap();
    assert_eq!(decks[0].type_in_prefixes, strings(&["z", "a", "z"]));
}

#[test]
fn two_defaults_are_refused() {
    let config = Config {
        all: ConfigAll { type_in_prefixes: vec![] },
        decks: vec![deck(1, "One", true, &[]), deck(2, "Two", true, &[])],
    };
    assert!(matches!(config.resolve_decks(), Err(ConfigError::DefaultCount)));
}

#[test]
fn no_default_is_refused() {
    let config = Config {
        all: ConfigAll { type_in_prefixes: strings(&["x"]) },
        decks: vec![deck(1, "One", false, &[])],
    };
    assert!(matches!(config.resolve_decks(), Err(ConfigError::DefaultCount)));
    let empty = Config { all: ConfigAll { type_in_prefixes: vec![] }, decks: vec![] };
    assert!(matches!(empty.resolve_decks(), Err(ConfigError::DefaultCount)));
}

fn three_decks() -> Vec<DeckConfig> {
    vec![
        deck(1, "Spanish", false, &[]),
        deck(2, "French", true, &[]),
        deck(3, "Spain facts", false, &[]),
    ]
}

#[test]
fn without_choice_the_default_deck() {
    let d = select_deck(three_decks(), None).unwrap();
    assert_eq!(d.id, 2);
}

#[test]
fn without_choice_and_default_an_error() {
    let r = select_deck(vec![deck(1, "A", false, &[])], None);
    assert!(matches!(r, Err(ConfigError::NoDefault)));
    assert!(matches!(default_deck(vec![]), Err(ConfigError::NoDefault)));
}

#[test]
fn choice_is_a_case_blind_prefix() {
    let d = select_deck(three_decks(), Some("fR".to_string())).unwrap();
    assert_eq!(d.name, "French");
    let d = select_deck(three_decks(), Some("SPANI".to_string())).unwrap();
    assert_eq!(d.id, 1);
}

#[test]
fn ambiguous_choice_lists_the_names() {
    match select_deck(three_decks(), Some("spa".to_string())) {
        Err(ConfigError::Ambiguous { choice, names }) => {
            assert_eq!(choice, "spa");
            assert_eq!(names, strings(&["Spanish", "Spain facts"]));
        }
        other => panic!("unexpected {:?}", other),
    }
}

#[test]
fn unmatched_choice() {
    match select_deck(three_decks(), Some("German".to_string())) {
        Err(ConfigError::NoMatch { choice }) => assert_eq!(choice, "German"),
        other => panic!("unexpected {:?}", other),
    }
}

#[test]
fn prefix_test() {
    assert!(starts_with("Define x", "Define"));
    assert!(starts_with("abc", ""));
    assert!(!starts_with("ab", "abc"));
    assert!(!starts_with("xbc", "ab"));
}
