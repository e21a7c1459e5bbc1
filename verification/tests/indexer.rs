use rubber_duck::indexer::{file_chunks, should_index};

#[test]
fn only_small_regular_files_are_indexed() {
    assert!(should_index(true, Some(10)));
    assert!(should_index(true, Some(100_000)));
    assert!(!should_index(true, Some(100_001)));
    assert!(should_index(true, None));
    assert!(!should_index(false, Some(10)));
}

#[test]
fn binary_files_get_no_chunks() {
    assert!(file_chunks("a.bin", &vec![1, 0, 2]).is_none());
}

#[test]
fn text_files_are_chunked_by_lines() {
    let content: String = (1..=60).map(|i| format!("line {i}\n")).collect();
    let chunks = file_chunks("notes.md", &content.into_bytes()).unwrap();
    assert_eq!(chunks.len(), 2);
    assert_eq!(chunks[0].start_line, 1);
    assert_eq!(chunks[0].end_line, 50);
    assert_eq!(chunks[1].start_line, 41);
    assert_eq!(chunks[1].end_line, 60);
    assert_eq!(chunks[0].language, "text");
}

#[test]
fn source_files_are_chunked_by_syntax() {
    let src = "fn one() {\n    let x = 1;\n}\n\nfn two() {\n    let y = 2;\n}\n";
    let chunks = file_chunks("src/lib.rs", &src.as_bytes().to_vec()).unwrap();
    assert!(!chunks.is_empty());
    assert_eq!(chunks[0].language, "rust");
    assert!(chunks.iter().any(|c| c.content.contains("fn two()")));
}

#[test]
fn invalid_utf8_is_replaced() {
    let chunks = file_chunks("x.txt", &vec![b'a', 0xff, b'b']).unwrap();
    assert_eq!(chunks.len(), 1);
    assert!(chunks[0].content.ends_with("a\u{fffd}b"));
}
