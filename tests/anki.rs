use mkanki::anki::{build_deck, check_cloze_numbers, classify_note, join_lines_exec, NoteKind};
use mkanki::config::DeckConfig;
use mkanki::notes::NoteFields;

fn strings(v: &[&str]) -> Vec<String> {
    v.iter().map(|s| s.to_string()).collect()
}

fn config(prefixes: &[&str]) -> DeckConfig {
    DeckConfig {
        id: 1234,
        name: "Deck".to_string(),
        description: None,
        is_default: true,
        type_in_prefixes: strings(prefixes),
    }
}

#[test]
fn type_in_prefix_gives_type_in_card() {
    let c = classify_note("Define x", "raw *body*", &strings(&["Name", "Define"]), "<h2>Define x</h2>", "<p>raw</p>");
    assert_eq!(c.kind, NoteKind::TypeIn);
    assert_eq!(c.fields, strings(&["<h2>Define x</h2>", "raw *body*"]));
}

#[test]
fn cloze_text_gives_cloze_card() {
    let c = classify_note("H", "{{a}}", &strings(&["X"]), "<h2>H</h2>", "<p>{{a}}</p>");
    assert_eq!(c.kind, NoteKind::Cloze);
    assert_eq!(c.fields, strings(&["<h2>H</h2>\n<p>{{c1::a}}</p>"]));
}

#[test]
fn plain_note_gives_basic_card() {
    let c = classify_note("H", "b", &vec![], "<h2>H</h2>", "<p>b</p>");
    assert_eq!(c.kind, NoteKind::Basic);
    assert_eq!(c.fields, strings(&["<h2>H</h2>", "<p>b</p>"]));
}

#[test]
fn cloze_in_header_counts() {
    let c = classify_note("{{H}}", "", &vec![], "<h2>{{H}}</h2>", "");
    assert_eq!(c.kind, NoteKind::Cloze);
    assert_eq!(c.fields, strings(&["<h2>{{c1::H}}</h2>\n"]));
}

#[test]
fn joins_lines() {
    assert_eq!(join_lines_exec(&strings(&["a", "b", "c"])), "a\nb\nc");
    assert_eq!(join_lines_exec(&strings(&["a"])), "a");
    assert_eq!(join_lines_exec(&vec![]), "");
}

#[test]
fn content_goes_through_markdown() {
    let n = NoteFields { header: "Capital".to_string(), body_lines: strings(&["**Paris**"]) };
    let c = n.note_content(&config(&[]));
    assert_eq!(c.kind, NoteKind::Basic);
    assert!(c.fields[0].contains("<h2>Capital</h2>"));
    assert!(c.fields[1].contains("<strong>Paris</strong>"));
}

#[test]
fn type_in_keeps_raw_body() {
    let n = NoteFields { header: "Q: what".to_string(), body_lines: strings(&["*x*", "y"]) };
    let c = n.note_content(&config(&["Q:"]));
    assert_eq!(c.kind, NoteKind::TypeIn);
    assert!(c.fields[0].contains("<h2>Q: what</h2>"));
    assert_eq!(c.fields[1], "*x*\ny");
}

#[test]
fn markdown_cloze_note() {
    let n = NoteFields { header: "Fill".to_string(), body_lines: strings(&["The {{sky}} is {{blue}}"]) };
    let c = n.note_content(&config(&[]));
    assert_eq!(c.kind, NoteKind::Cloze);
    assert!(c.fields[0].contains("{{c1::sky}}"));
    assert!(c.fields[0].contains("{{c2::blue}}"));
}

#[test]
fn notes_and_deck_are_built() {
    let cfg = config(&["Q:"]);
    let notes = vec![
        NoteFields { header: "Q: a".to_string(), body_lines: strings(&["b"]) },
        NoteFields { header: "Fill".to_string(), body_lines: strings(&["{{x}}"]) },
        NoteFields { header: "Plain".to_string(), body_lines: strings(&["text"]) },
    ];
    for n in &notes {
        assert!(n.to_note(&cfg).is_ok());
    }
    assert!(build_deck(&cfg, &notes).is_ok());
}

#[test]
fn description_defaults_to_empty() {
    let mut cfg = config(&[]);
    assert_eq!(cfg.deck_description(), "");
    cfg.description = Some("About".to_string());
    assert_eq!(cfg.deck_description(), "About");
    let _deck = cfg.as_deck();
}

#[test]
fn deck_from_config() {
    let _deck: genanki_rs::Deck = config(&[]).into();
}

#[test]
fn overflowing_cloze_number_is_refused() {
    let cfg = config(&[]);
    let n = NoteFields {
        header: "H".to_string(),
        body_lines: strings(&["{{x}}", "", "{{c99999999999999999999::a", "b}}"]),
    };
    assert!(matches!(n.to_note(&cfg), Err(mkanki::anki::DeckError::ClozeNumber)));
    assert!(matches!(
        build_deck(&cfg, &vec![n]),
        Err(mkanki::anki::DeckError::ClozeNumber)
    ));
}

#[test]
fn cloze_number_check() {
    assert!(check_cloze_numbers("{{c1::a}} {{c12::b}}"));
    assert!(check_cloze_numbers("{{c999999999999999999::a}}"));
    assert!(!check_cloze_numbers("{{c9999999999999999999::a}}"));
    assert!(check_cloze_numbers("{{c9999999999999999999 no colons"));
    assert!(!check_cloze_numbers("{{c\u{663}::a}}"));
    assert!(check_cloze_numbers("{{cat}} plain"));
}

#[test]
fn each_kind_of_note_is_built() {
    let cfg = config(&["Q:"]);
    for (h, b) in [("Q: x", "y"), ("Fill", "{{c1::x}} and {{y}}"), ("P", "")] {
        let n = NoteFields { header: h.to_string(), body_lines: strings(&[b]) };
        assert!(n.to_note(&cfg).is_ok(), "{}", h);
    }
}
