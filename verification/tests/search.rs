use rubber_duck::search::{adaptive_top_k, build_expanded_fts_query, build_fts_query, extract_search_terms};

#[test]
fn search_terms_in_category_order() {
    let terms = extract_search_terms("Fix UserService in auth_token_store for \"login page\" see @app/src/x.ts");
    assert_eq!(terms, vec!["UserService", "auth_token_store", "login page", "app/src/x.ts"]);
}

#[test]
fn search_terms_drop_adjacent_repeats() {
    let terms = extract_search_terms("FooBar FooBar BazQux FooBar");
    assert_eq!(terms, vec!["FooBar", "BazQux", "FooBar"]);
}

#[test]
fn expanded_query_quotes_terms_and_long_words() {
    let q = build_expanded_fts_query("how does authenticate_user work");
    assert_eq!(q, "\"authenticate_user\" OR \"does\" OR \"work\"");
}

#[test]
fn expanded_query_cleans_punctuation_from_words() {
    let q = build_expanded_fts_query("(login), please!");
    assert_eq!(q, "\"login\" OR \"please\"");
}

#[test]
fn expanded_query_falls_back_to_whole_phrase() {
    assert_eq!(build_expanded_fts_query("hi yo"), "\"hi yo\"");
    assert_eq!(build_expanded_fts_query("hi \" yo"), "\"hi \"\" yo\"");
}

#[test]
fn expanded_query_keeps_at_most_ten_words() {
    let text = "alpha bravo charlie delta echoo foxtrot golfy hotel india juliet kilo lima";
    let q = build_expanded_fts_query(text);
    assert_eq!(q.split(" OR ").count(), 10);
    assert!(!q.contains("kilo"));
}

#[test]
fn top_k_widens_for_many_terms() {
    assert_eq!(adaptive_top_k("FooBar BazQux snake_case_x other_thing_y"), 15);
    assert_eq!(adaptive_top_k("just a question"), 8);
}

#[test]
fn fts_query_from_given_terms() {
    let terms = vec!["AuthService".to_string()];
    assert_eq!(
        build_fts_query(&terms, "How does AuthService handle tokens"),
        "\"AuthService\" OR \"does\" OR \"handle\" OR \"tokens\""
    );
    assert_eq!(build_fts_query(&Vec::new(), "a \"b\" c"), "\"a \"\"b\"\" c\"");
}
