use rubber_duck::order::sort_keys;
use rubber_duck::repo::FileNode;
use rubber_duck::file_search::{rank_file_matches, WalkFile};
use rubber_duck::file_tree::{build_file_tree, TreeEntry};
use rubber_duck::summary::{summarize_entries, EntryKind, WalkEntry};

fn dir(name: &str) -> WalkEntry {
    WalkEntry { name: name.to_string(), kind: EntryKind::Dir }
}

fn file(name: &str) -> WalkEntry {
    WalkEntry { name: name.to_string(), kind: EntryKind::File }
}

#[test]
fn summary_counts_files_types_and_dirs() {
    // the top two levels of a small repository, in walk order
    let entries = vec![
        dir("src"),
        file("main.ts"),
        dir("features"),
        file("README.md"),
        file(".gitignore"),
    ];
    assert_eq!(
        summarize_entries(&entries),
        "3 files. Top types: .md(1), .ts(1). Key dirs: features/, src/."
    );
}

#[test]
fn summary_ranks_by_count_then_name_and_keeps_five() {
    let entries = vec![
        file("a.rs"),
        file("b.rs"),
        file("c.rs"),
        file("x.toml"),
        file("y.md"),
        file("z.md"),
        file("p.py"),
        file("q.go"),
        file("r.c"),
        WalkEntry { name: "link.rs".to_string(), kind: EntryKind::Other },
    ];
    assert_eq!(
        summarize_entries(&entries),
        "9 files. Top types: .rs(3), .md(2), .c(1), .go(1), .py(1)."
    );
}

#[test]
fn summary_of_empty_walk() {
    assert_eq!(summarize_entries(&Vec::new()), "0 files.");
}

#[test]
fn summary_lists_repeated_dirs_sorted() {
    let entries = vec![dir("tests"), dir("app"), dir("node_modules"), dir("src"), dir("src")];
    assert_eq!(summarize_entries(&entries), "0 files. Key dirs: app/, src/, src/, tests/.");
}

fn walked(rel: &str, name: &str) -> WalkFile {
    WalkFile { relative_path: rel.to_string(), file_name: name.to_string() }
}

#[test]
fn file_search_ranks_exact_names_first() {
    let files = vec![
        walked("src/features/auth.ts", "auth.ts"),
        walked("src/Auth", "Auth"),
        walked("auth/index.ts", "index.ts"),
        walked("README.md", "README.md"),
    ];
    let r = rank_file_matches(&files, "auth", "repo-1", "MyRepo");
    let paths: Vec<&str> = r.iter().map(|x| x.relative_path.as_str()).collect();
    assert_eq!(paths, vec!["src/Auth", "src/features/auth.ts", "auth/index.ts"]);
    assert_eq!(r[0].display, "MyRepo: src/Auth");
    assert_eq!(r[0].repo_id, "repo-1");
    assert_eq!(r[0].repo_name, "MyRepo");
}

#[test]
fn file_search_without_match_is_empty() {
    let files = vec![walked("src/main.ts", "main.ts")];
    assert!(rank_file_matches(&files, "zzzznotfound", "repo-1", "MyRepo").is_empty());
}

#[test]
fn file_search_keeps_twenty() {
    let files: Vec<WalkFile> = (0..30).map(|i| walked(&format!("f{i}.txt"), &format!("f{i}.txt"))).collect();
    let r = rank_file_matches(&files, "f", "id", "R");
    assert_eq!(r.len(), 20);
    assert_eq!(r[0].relative_path, "f0.txt");
    assert_eq!(r[19].relative_path, "f19.txt");
}

fn entry(rel: &str, is_dir: bool) -> TreeEntry {
    TreeEntry { relative_path: rel.to_string(), is_dir }
}

fn all_paths(nodes: &[FileNode]) -> Vec<String> {
    let mut acc = Vec::new();
    for n in nodes {
        acc.push(n.path.clone());
        acc.extend(all_paths(&n.children));
    }
    acc
}

#[test]
fn tree_nests_children_dirs_first() {
    let entries = vec![
        entry("README.md", false),
        entry("src", true),
        entry("src/main.ts", false),
        entry("src/features", true),
        entry("src/features/auth.ts", false),
        entry(".gitignore", false),
    ];
    let tree = build_file_tree(&entries);
    let names: Vec<&str> = tree.iter().map(|n| n.name.as_str()).collect();
    assert_eq!(names, vec!["src", ".gitignore", "README.md"]);
    let src = &tree[0];
    assert!(src.is_dir);
    assert_eq!(src.path, "src");
    let children: Vec<&str> = src.children.iter().map(|n| n.name.as_str()).collect();
    assert_eq!(children, vec!["features", "main.ts"]);
    assert_eq!(src.children[0].children[0].path, "src/features/auth.ts");
    assert!(tree[1].children.is_empty());
    assert_eq!(all_paths(&tree).len(), 6);
}

#[test]
fn tree_orders_names_case_insensitively_and_stably() {
    let entries = vec![
        entry("b.txt", false),
        entry("README", false),
        entry("readme", false),
        entry("A.txt", false),
    ];
    let tree = build_file_tree(&entries);
    let names: Vec<&str> = tree.iter().map(|n| n.name.as_str()).collect();
    assert_eq!(names, vec!["A.txt", "b.txt", "README", "readme"]);
}

#[test]
fn sort_keys_orders_text_like_str() {
    let v: Vec<Vec<char>> = vec!["b", "a", "ab", "", "B"].into_iter().map(|s| s.chars().collect()).collect();
    let r = sort_keys(v);
    let s: Vec<String> = r.into_iter().map(|c| c.into_iter().collect()).collect();
    assert_eq!(s, vec!["", "B", "a", "ab", "b"]);
}

fn result(repo: &str, path: &str) -> rubber_duck::repo::FileSearchResult {
    rubber_duck::repo::FileSearchResult {
        repo_id: repo.to_string(),
        repo_name: repo.to_string(),
        relative_path: path.to_string(),
        display: format!("{repo}: {path}"),
    }
}

#[test]
fn merged_matches_are_ordered_by_display() {
    let all = vec![result("web", "b.ts"), result("api", "z.rs"), result("web", "a.ts"), result("api", "a.rs")];
    let merged = rubber_duck::file_search::merge_file_matches(&all);
    let shown: Vec<&str> = merged.iter().map(|r| r.display.as_str()).collect();
    assert_eq!(shown, vec!["api: a.rs", "api: z.rs", "web: a.ts", "web: b.ts"]);
}

#[test]
fn merged_matches_keep_twenty() {
    let all: Vec<_> = (0..25).map(|i| result("r", &format!("{:02}.txt", 24 - i))).collect();
    let merged = rubber_duck::file_search::merge_file_matches(&all);
    assert_eq!(merged.len(), 20);
    assert_eq!(merged[0].relative_path, "00.txt");
    assert_eq!(merged[19].relative_path, "19.txt");
}

#[test]
fn summary_extension_rules_follow_paths() {
    let entries = vec![file("archive.tar.gz"), file("a."), file("Makefile"), file(".env")];
    assert_eq!(summarize_entries(&entries), "4 files. Top types: .(1), .gz(1).");
}

#[test]
fn summary_is_the_same_in_any_walk_order() {
    let a = vec![dir("src"), file("x.rs"), file("y.md"), file("z.rs"), dir("docs")];
    let b = vec![file("z.rs"), dir("docs"), file("y.md"), dir("src"), file("x.rs")];
    assert_eq!(summarize_entries(&a), summarize_entries(&b));
    assert_eq!(summarize_entries(&a), "3 files. Top types: .rs(2), .md(1). Key dirs: docs/, src/.");
}
