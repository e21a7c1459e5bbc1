use rubber_duck::syntax::{get_language, grammar_for, Grammar};
use rubber_duck::chunker::{chunk_file, chunk_lines, chunk_syntax_nodes, detect_language};
use rubber_duck::syntax::{RowSpan, SyntaxNode};

#[test]
fn detect_language_by_extension() {
    assert_eq!(detect_language("src/main.rs"), Some("rust"));
    assert_eq!(detect_language("App.tsx"), Some("tsx"));
    assert_eq!(detect_language("index.ts"), Some("typescript"));
    assert_eq!(detect_language("script.js"), Some("javascript"));
    assert_eq!(detect_language("app.py"), Some("python"));
    assert_eq!(detect_language("main.go"), Some("go"));
    assert_eq!(detect_language("Main.java"), Some("java"));
    assert_eq!(detect_language("Program.cs"), Some("c_sharp"));
    assert_eq!(detect_language("README.md"), None);
    assert_eq!(detect_language("config.yaml"), None);
}

#[test]
fn detect_language_edge_paths() {
    assert_eq!(detect_language("web/app.jsx"), Some("javascript"));
    assert_eq!(detect_language("lib/module.mjs"), Some("javascript"));
    assert_eq!(detect_language(".rs"), None);
    assert_eq!(detect_language("src/lib.rs/"), Some("rust"));
    assert_eq!(detect_language("src/lib.rs/."), Some("rust"));
    assert_eq!(detect_language("src/.."), None);
    assert_eq!(detect_language(""), None);
    assert_eq!(detect_language("Makefile"), None);
}

#[test]
fn chunk_file_rust_functions() {
    let source = r#"use std::io;

const MAX: usize = 100;

fn hello() {
    println!("hello");
}

fn goodbye() {
    println!("goodbye");
}
"#;
    let chunks = chunk_file(source, "lib.rs", "rust", 1600);
    assert!(chunks.len() >= 2);
    assert!(chunks[0].content.contains("use std::io"));
    let all_content: String = chunks.iter().map(|c| c.content.as_str()).collect();
    assert!(all_content.contains("fn hello()"));
    assert!(all_content.contains("fn goodbye()"));
}

#[test]
fn chunk_file_falls_back_for_unknown_language() {
    let content = "line1\nline2\nline3";
    let chunks = chunk_file(content, "config.yaml", "yaml", 1600);
    assert_eq!(chunks.len(), 1);
    assert_eq!(chunks[0].language, "text");
}

#[test]
fn chunk_file_typescript() {
    let source = r#"import { useState } from "react";

export function App() {
    return <div>hello</div>;
}
"#;
    let chunks = chunk_file(source, "App.tsx", "tsx", 1600);
    assert!(!chunks.is_empty());
    let all: String = chunks.iter().map(|c| c.content.as_str()).collect();
    assert!(all.contains("import"));
    assert!(all.contains("App"));
}

#[test]
fn chunk_file_splits_large_nodes() {
    let mut source = String::from("impl Foo {\n");
    for i in 0..20 {
        source.push_str(&format!("    fn method_{i}() {{ println!(\"{i}\"); }}\n"));
    }
    source.push_str("}\n");
    let chunks = chunk_file(&source, "foo.rs", "rust", 100);
    assert!(chunks.len() > 1);
}

#[test]
fn chunk_lines_basic() {
    let content = (1..=100).map(|i| format!("line {i}")).collect::<Vec<_>>().join("\n");
    let chunks = chunk_lines(&content, "test.txt", 50, 10);

    assert_eq!(chunks.len(), 3);
    assert_eq!(chunks[0].start_line, 1);
    assert_eq!(chunks[0].end_line, 50);
    assert_eq!(chunks[1].start_line, 41);
    assert_eq!(chunks[1].end_line, 90);
    assert_eq!(chunks[2].start_line, 81);
    assert_eq!(chunks[2].end_line, 100);
    assert_eq!(chunks[0].language, "text");
}

#[test]
fn chunk_lines_small_file() {
    let content = "line 1\nline 2\nline 3";
    let chunks = chunk_lines(content, "small.txt", 50, 10);
    assert_eq!(chunks.len(), 1);
    assert_eq!(chunks[0].start_line, 1);
    assert_eq!(chunks[0].end_line, 3);
}

#[test]
fn chunk_lines_includes_header() {
    let content = "fn main() {}\nlet x = 1;";
    let chunks = chunk_lines(content, "src/main.rs", 50, 10);
    assert!(chunks[0].content.starts_with("// File: src/main.rs | Lines: 1-2"));
}

#[test]
fn chunk_lines_empty_content() {
    let chunks = chunk_lines("", "empty.txt", 50, 10);
    assert!(chunks.is_empty());
}

#[test]
fn chunk_lines_exact_content() {
    let chunks = chunk_lines("a\r\nb\nc\n", "f.txt", 2, 1);
    assert_eq!(chunks.len(), 2);
    assert_eq!(chunks[0].content, "// File: f.txt | Lines: 1-2\na\nb");
    assert_eq!(chunks[1].content, "// File: f.txt | Lines: 2-3\nb\nc");
    assert_eq!(chunks[1].file_path, "f.txt");
}

#[test]
fn chunk_lines_overlap_not_smaller_than_window_steps_by_one() {
    let chunks = chunk_lines("1\n2\n3", "f", 2, 5);
    let starts: Vec<usize> = chunks.iter().map(|c| c.start_line).collect();
    assert_eq!(starts, vec![1, 2]);
    assert_eq!(chunks[1].end_line, 3);
}

#[test]
fn chunk_lines_every_line_is_covered() {
    let content = (1..=37).map(|i| format!("l{i}")).collect::<Vec<_>>().join("\n");
    let chunks = chunk_lines(&content, "f", 7, 3);
    for line in 1..=37usize {
        assert!(chunks.iter().any(|c| c.start_line <= line && line <= c.end_line));
    }
}

fn node(kind: &str, start_row: usize, end_row: usize, children: Vec<(usize, usize)>) -> SyntaxNode {
    SyntaxNode {
        kind: kind.to_string(),
        start_row,
        end_row,
        children: children
            .into_iter()
            .map(|(start_row, end_row)| RowSpan { start_row, end_row })
            .collect(),
    }
}

#[test]
fn syntax_nodes_group_small_nodes_and_split_substantial_ones() {
    let content = "use a;\nuse b;\nfn f() {\n  x();\n}\n";
    let nodes = vec![
        node("use_declaration", 0, 0, vec![]),
        node("use_declaration", 1, 1, vec![]),
        node("function_item", 2, 4, vec![(2, 2), (2, 4)]),
    ];
    let chunks = chunk_syntax_nodes(content, "m.rs", "rust", 1600, &nodes);
    assert_eq!(chunks.len(), 2);
    assert_eq!(chunks[0].content, "// File: m.rs | Lines: 1-2\nuse a;\nuse b;");
    assert_eq!(chunks[1].content, "// File: m.rs | Lines: 3-5\nfn f() {\n  x();\n}");
    assert_eq!(chunks[1].language, "rust");
}

#[test]
fn syntax_nodes_flush_small_buffer_when_it_grows_past_the_limit() {
    let content = "aaaa\nbbbb\ncccc";
    let nodes = vec![
        node("expression_statement", 0, 0, vec![]),
        node("expression_statement", 1, 1, vec![]),
        node("expression_statement", 2, 2, vec![]),
    ];
    let chunks = chunk_syntax_nodes(content, "m.rs", "rust", 9, &nodes);
    assert_eq!(chunks.len(), 2);
    assert_eq!((chunks[0].start_line, chunks[0].end_line), (1, 2));
    assert_eq!((chunks[1].start_line, chunks[1].end_line), (3, 3));
}

#[test]
fn syntax_nodes_without_any_fall_back_to_line_windows() {
    let chunks = chunk_syntax_nodes("x\ny", "m.rs", "rust", 100, &Vec::new());
    assert_eq!(chunks.len(), 1);
    assert_eq!(chunks[0].language, "text");
}

#[test]
fn grammars_are_bundled_for_detected_languages() {
    let g = |s: &str| grammar_for(&s.chars().collect());
    assert!(matches!(g("rust"), Some(Grammar::Rust)));
    assert!(matches!(g("tsx"), Some(Grammar::Tsx)));
    assert!(matches!(g("c_sharp"), Some(Grammar::CSharp)));
    assert!(g("text").is_none());
    assert!(g("Rust").is_none());
}

#[test]
fn languages_exist_only_for_bundled_grammars() {
    let l = |s: &str| get_language(&s.chars().collect());
    for name in ["rust", "typescript", "tsx", "javascript", "python", "go", "java", "c_sharp"] {
        assert!(l(name).is_some(), "{name}");
    }
    assert!(l("cobol").is_none());
    assert!(l("text").is_none());
}

#[test]
fn chunk_file_python_uses_the_python_grammar() {
    let source = "import os\n\ndef a():\n    return 1\n\nclass B:\n    pass\n";
    let chunks = chunk_file(source, "x.py", "python", 1600);
    assert_eq!(chunks.len(), 3);
    assert_eq!(chunks[0].content, "// File: x.py | Lines: 1-1\nimport os");
    assert_eq!(chunks[1].content, "// File: x.py | Lines: 3-4\ndef a():\n    return 1");
    assert_eq!(chunks[2].content, "// File: x.py | Lines: 6-7\nclass B:\n    pass");
    assert!(chunks.iter().all(|c| c.language == "python"));
}

#[test]
fn chunk_file_chunks_are_framed() {
    let mut source = String::from("use std::fmt;\nconst A: u32 = 1;\n\n");
    source.push_str("struct S {\n    a: u32,\n}\n\nimpl S {\n");
    for i in 0..12 {
        source.push_str(&format!("    fn m{i}(&self) -> u32 {{ self.a + {i} }}\n"));
    }
    source.push_str("}\n\nfn main() {}\n");
    for max in [40, 200, 1600] {
        let chunks = chunk_file(&source, "src/s.rs", "rust", max);
        assert!(!chunks.is_empty());
        for c in &chunks {
            assert_eq!(c.file_path, "src/s.rs");
            assert_eq!(c.language, "rust");
            assert!(1 <= c.start_line && c.start_line <= c.end_line, "{max}");
            let header = format!("// File: src/s.rs | Lines: {}-{}\n", c.start_line, c.end_line);
            assert!(c.content.starts_with(&header));
        }
    }
    assert!(chunk_file("", "e.rs", "rust", 1600).is_empty());
    assert_eq!(chunk_file("\n", "e.rs", "rust", 1600).len(), 1);
}
