use diaryx::text::{entry_preview, entry_title, is_white_space_char, PREVIEW_CHARS};

#[test]
fn title_from_heading_line() {
    assert_eq!(entry_title("# My Day\n\n", "2024-05-01_08-00-00"), "My Day");
}

#[test]
fn title_strips_several_markers_and_white_space() {
    assert_eq!(entry_title("###   Deep title  \nbody", "id"), "Deep title");
}

#[test]
fn title_without_marker_is_first_line_trimmed() {
    assert_eq!(entry_title("  Plain first line \nrest", "id"), "Plain first line");
}

#[test]
fn title_falls_back_to_id_when_empty() {
    assert_eq!(entry_title("#   \nbody", "2024-01-02_03-04-05"), "2024-01-02_03-04-05");
    assert_eq!(entry_title("", "fallback"), "fallback");
    assert_eq!(entry_title("\nsecond line", "fallback"), "fallback");
}

#[test]
fn title_ignores_carriage_return() {
    assert_eq!(entry_title("# Windows\r\nbody", "id"), "Windows");
}

#[test]
fn title_keeps_inner_markers() {
    assert_eq!(entry_title("# #tag and more", "id"), "#tag and more");
}

#[test]
fn title_trims_unicode_white_space() {
    assert_eq!(entry_title("#\u{3000}Wide\u{A0}\n", "id"), "Wide");
}

#[test]
fn preview_of_long_body_is_cut_with_ellipsis() {
    let body: String = "a".repeat(200);
    let content = format!("# Title\n{}", body);
    let p = entry_preview(&content);
    assert_eq!(p.chars().count(), PREVIEW_CHARS + 3);
    assert!(p.ends_with("..."));
    assert_eq!(p, format!("{}...", "a".repeat(150)));
}

#[test]
fn preview_of_short_body_is_verbatim() {
    let body: String = "b".repeat(100);
    let content = format!("# Title\n{}", body);
    assert_eq!(entry_preview(&content), body);
}

#[test]
fn preview_of_body_of_exactly_the_limit_is_verbatim() {
    let body: String = "c".repeat(150);
    let content = format!("# Title\n{}", body);
    assert_eq!(entry_preview(&content), body);
}

#[test]
fn preview_counts_characters_not_bytes() {
    let body: String = "é".repeat(151);
    let content = format!("# Title\n{}", body);
    assert_eq!(entry_preview(&content), format!("{}...", "é".repeat(150)));
}

#[test]
fn preview_excludes_title_line_and_keeps_later_lines() {
    assert_eq!(entry_preview("# My Day\n\nWent well."), "\nWent well.");
    assert_eq!(entry_preview("# Only a title"), "");
    assert_eq!(entry_preview(""), "");
}

#[test]
fn white_space_matches_std() {
    for c in ['\t', ' ', '\u{85}', '\u{2000}', '\u{200A}', '\u{3000}', 'a', '#', '\u{200B}', '0'] {
        assert_eq!(is_white_space_char(c), c.is_whitespace());
    }
}
