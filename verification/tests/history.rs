use rubber_duck::history::{is_blank_query, like_pattern, match_preview, phrase_query};

#[test]
fn blank_queries_are_recognised() {
    assert!(is_blank_query(""));
    assert!(is_blank_query("  \t\n"));
    assert!(!is_blank_query(" a "));
}

#[test]
fn phrase_query_quotes_and_escapes() {
    assert_eq!(phrase_query("auth flow"), "\"auth flow\"");
    assert_eq!(phrase_query("say \"hi\""), "\"say \"\"hi\"\"\"");
}

#[test]
fn like_pattern_wraps_in_wildcards() {
    assert_eq!(like_pattern("cdc"), "%cdc%");
}

#[test]
fn preview_near_start_has_trailing_ellipsis() {
    let p = match_preview("The CDC pipeline migrates data", "cdc").unwrap();
    assert_eq!(p, "The CDC pipeline migrates data...");
}

#[test]
fn preview_far_in_is_cut_on_both_sides() {
    let content = format!("{}needle{}", "a".repeat(100), "b".repeat(100));
    let p = match_preview(&content, "NEEDLE").unwrap();
    assert_eq!(p, format!("...{}needle{}...", "a".repeat(40), "b".repeat(40)));
}

#[test]
fn preview_without_match_is_first_eighty_chars() {
    let content = "x".repeat(100);
    assert_eq!(match_preview(&content, "zzz").unwrap(), "x".repeat(80));
    assert_eq!(match_preview("short", "zzz").unwrap(), "short");
}

#[test]
fn preview_window_inside_a_character_is_refused() {
    // the window starts 40 bytes before the match, in the middle of a two-byte character
    let content = format!("{}{}needle", "\u{e9}".repeat(30), "a");
    assert!(match_preview(&content, "needle").is_none());
}

#[test]
fn preview_counts_bytes_of_multibyte_text() {
    let content = format!("{}needle", "\u{e9}".repeat(50));
    let p = match_preview(&content, "needle").unwrap();
    assert_eq!(p, format!("...{}needle...", "\u{e9}".repeat(20)));
}
