use mkanki::cloze::process_clozes;

#[test]
fn numbers_clozes_in_order() {
    assert_eq!(
        process_clozes("{{a}} and {{b}}"),
        Some("{{c1::a}} and {{c2::b}}".to_string())
    );
}

#[test]
fn no_cloze_gives_none() {
    assert_eq!(process_clozes("no clozes here"), None);
    assert_eq!(process_clozes(""), None);
    assert_eq!(process_clozes("{{}}"), None);
    assert_eq!(process_clozes("{{a\nb}}"), None);
    assert_eq!(process_clozes("{a}}"), None);
}

#[test]
fn shortest_cloze_wins() {
    assert_eq!(process_clozes("{{a}}}"), Some("{{c1::a}}}".to_string()));
    assert_eq!(process_clozes("{{{a}}"), Some("{{c1::{a}}".to_string()));
    assert_eq!(process_clozes("{{a}} b}}"), Some("{{c1::a}} b}}".to_string()));
}

#[test]
fn cloze_after_a_failed_opening() {
    assert_eq!(
        process_clozes("{{x\n{{y}}"),
        Some("{{x\n{{c1::y}}".to_string())
    );
}

#[test]
fn multi_digit_numbers() {
    let text = "{{x}}".repeat(11);
    let out = process_clozes(&text).unwrap();
    assert!(out.starts_with("{{c1::x}}{{c2::x}}"));
    assert!(out.ends_with("{{c10::x}}{{c11::x}}"));
}

#[test]
fn keeps_unicode_text() {
    assert_eq!(
        process_clozes("É {{café}} ü"),
        Some("É {{c1::café}} ü".to_string())
    );
}
