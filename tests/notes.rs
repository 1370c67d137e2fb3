use mkanki::notes::{merge_file_notes, parse_md_text, NoteFields};
use mkanki::text::{split_lines, trim};

fn note(header: &str, body: &[&str]) -> NoteFields {
    NoteFields {
        header: header.to_string(),
        body_lines: body.iter().map(|s| s.to_string()).collect(),
    }
}

#[test]
fn parses_two_notes() {
    let notes = parse_md_text("## Q1\nanswer line\n\n## Q2\nline a\n  line b  \n");
    assert_eq!(notes, vec![note("Q1", &["answer line"]), note("Q2", &["line a", "  line b  "])]);
}

#[test]
fn drops_lines_before_first_header() {
    let notes = parse_md_text("intro\nmore intro\n## H\nx");
    assert_eq!(notes, vec![note("H", &["x"])]);
}

#[test]
fn skips_comments_and_blank_lines() {
    let notes = parse_md_text("## H\n  <!-- a comment -->  \n\n   \nbody\n<!-- x --> y");
    assert_eq!(notes, vec![note("H", &["body", "<!-- x --> y"])]);
}

#[test]
fn header_needs_space_and_two_hashes() {
    let notes = parse_md_text("## H\n##x\n### deeper\n# top");
    assert_eq!(notes, vec![note("H", &["##x", "### deeper", "# top"])]);
}

#[test]
fn header_text_is_trimmed() {
    let notes = parse_md_text("   ##  \t Title here  \nbody");
    assert_eq!(notes, vec![note("Title here", &["body"])]);
}

#[test]
fn bare_header_marker_is_a_body_line() {
    let notes = parse_md_text("## A\n##   \nb");
    assert_eq!(notes, vec![note("A", &["##   ", "b"])]);
}

#[test]
fn crlf_line_endings() {
    let notes = parse_md_text("## H\r\nbody\r\n## G\r\n");
    assert_eq!(notes, vec![note("H", &["body"]), note("G", &[])]);
}

#[test]
fn empty_text_has_no_notes() {
    assert_eq!(parse_md_text(""), vec![]);
    assert_eq!(parse_md_text("just text\n"), vec![]);
}

#[test]
fn splits_lines_like_std() {
    for text in ["a\nb\n", "a\n\nb", "", "\n", "a\r\nb\r", "x\r\r\ny", "one"] {
        let expected: Vec<String> = text.lines().map(|s| s.to_string()).collect();
        assert_eq!(split_lines(text), expected, "{:?}", text);
    }
    assert_eq!(split_lines("a\r\nb\r"), vec!["a".to_string(), "b\r".to_string()]);
}

#[test]
fn trims_unicode_whitespace() {
    assert_eq!(trim("  a b \t"), "a b");
    assert_eq!(trim("\u{3000}x\u{a0}"), "x");
    assert_eq!(trim("   "), "");
    for s in [" \u{2028}q \u{85}", "\r\n z", "plain"] {
        assert_eq!(trim(s), s.trim());
    }
}

#[test]
fn identical_files_count_once() {
    let a = vec![note("A", &["1"])];
    let b = vec![note("B", &["2"]), note("C", &[])];
    let merged = merge_file_notes(vec![
        vec![note("A", &["1"])],
        b,
        a,
        vec![],
        vec![],
    ]);
    assert_eq!(merged, vec![note("A", &["1"]), note("B", &["2"]), note("C", &[])]);
}

#[test]
fn different_files_with_same_note_both_kept() {
    let merged = merge_file_notes(vec![
        vec![note("A", &["1"])],
        vec![note("A", &["1"]), note("B", &[])],
    ]);
    assert_eq!(merged, vec![note("A", &["1"]), note("A", &["1"]), note("B", &[])]);
}
