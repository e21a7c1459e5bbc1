use rubber_duck::context::{assemble_context, assemble_doc_context, chat_mode_from, extract_at_mentions, ChatMode};
use rubber_duck::jira::JiraIssueContext;
use rubber_duck::rag::RetrievedChunk;
use rubber_duck::repo::RepoFileContext;

#[test]
fn system_message_includes_prompt() {
    let messages = assemble_context(&ChatMode::Assist, "", "", &[], &[], &[], &[], &[], &[]);
    assert_eq!(messages.len(), 1);
    assert_eq!(messages[0].role, "system");
    assert!(messages[0].content.contains("rubber-duck"));
}

#[test]
fn includes_session_context() {
    let messages = assemble_context(&ChatMode::Assist, "We are migrating the auth service", "", &[], &[], &[], &[], &[], &[]);
    assert!(messages[0].content.contains("migrating the auth service"));
}

#[test]
fn includes_note_content() {
    let messages = assemble_context(&ChatMode::Assist, "", "# My brainstorm\nSome ideas here", &[], &[], &[], &[], &[], &[]);
    assert!(messages[0].content.contains("My brainstorm"));
}

#[test]
fn includes_tickets() {
    let tickets = vec![("Fix login".to_string(), "Task".to_string(), "High".to_string(), "Auth is broken".to_string())];
    let messages = assemble_context(&ChatMode::Assist, "", "", &tickets, &[], &[], &[], &[], &[]);
    assert!(messages[0].content.contains("Fix login"));
    assert!(messages[0].content.contains("Task"));
}

#[test]
fn includes_conversation_as_separate_messages() {
    let conversation = vec![
        ("User".to_string(), "Break this into tickets".to_string()),
        ("Assistant".to_string(), "Here are 3 tickets...".to_string()),
    ];
    let messages = assemble_context(&ChatMode::Assist, "", "", &[], &[], &[], &[], &[], &conversation);
    assert_eq!(messages.len(), 3);
    assert_eq!(messages[1].role, "user");
    assert_eq!(messages[2].role, "assistant");
}

#[test]
fn caps_conversation_at_40_messages() {
    let conversation: Vec<(String, String)> = (0..60)
        .map(|i| {
            let role = if i % 2 == 0 { "User" } else { "Assistant" };
            (role.to_string(), format!("Message {i}"))
        })
        .collect();
    let messages = assemble_context(&ChatMode::Assist, "", "", &[], &[], &[], &[], &[], &conversation);
    assert_eq!(messages.len(), 41);
    assert!(messages[1].content.contains("Message 20"));
}

#[test]
fn grill_mode_uses_different_prompt() {
    let messages = assemble_context(&ChatMode::Grill, "", "", &[], &[], &[], &[], &[], &[]);
    assert_eq!(messages.len(), 1);
    assert!(messages[0].content.contains("critical technical interrogator"));
    assert!(!messages[0].content.contains("rubber-duck"));
}

#[test]
fn truncates_long_descriptions_without_utf8_panic() {
    let description = "\u{20ac}".repeat(40);
    let tickets = vec![("Test".to_string(), "Task".to_string(), "High".to_string(), description)];
    let messages = assemble_context(&ChatMode::Assist, "", "", &tickets, &[], &[], &[], &[], &[]);
    assert!(messages[0].content.contains("Test"));
    assert!(messages[0].content.contains("..."));
}

#[test]
fn includes_jira_issues_in_context() {
    let jira_issues = vec![JiraIssueContext {
        key: "FRONT-42".to_string(),
        summary: "Fix login timeout".to_string(),
        status: "In Progress".to_string(),
        issue_type: "Bug".to_string(),
        priority: "High".to_string(),
        description: "SSO times out after 30s".to_string(),
    }];
    let messages = assemble_context(&ChatMode::Assist, "", "", &[], &jira_issues, &[], &[], &[], &[]);
    assert!(messages[0].content.contains("Referenced Jira Tickets"));
    assert!(messages[0].content.contains("FRONT-42"));
    assert!(messages[0].content.contains("Fix login timeout"));
    assert!(messages[0].content.contains("SSO times out"));
}

#[test]
fn empty_jira_issues_omits_section() {
    let messages = assemble_context(&ChatMode::Assist, "", "", &[], &[], &[], &[], &[], &[]);
    assert!(!messages[0].content.contains("Referenced Jira Tickets"));
}

#[test]
fn includes_repo_summaries() {
    let summaries = vec!["my-repo (245 files. Top types: .ts(120), .tsx(80). Key dirs: src/, tests/)".to_string()];
    let messages = assemble_context(&ChatMode::Assist, "", "", &[], &[], &summaries, &[], &[], &[]);
    assert!(messages[0].content.contains("Attached Repositories"));
    assert!(messages[0].content.contains("245 files"));
}

#[test]
fn includes_mentioned_files() {
    let files = vec![RepoFileContext {
        display: "my-repo/src/main.ts".to_string(),
        content: "console.log('hello')".to_string(),
    }];
    let messages = assemble_context(&ChatMode::Assist, "", "", &[], &[], &[], &files, &[], &[]);
    assert!(messages[0].content.contains("Referenced Files"));
    assert!(messages[0].content.contains("my-repo/src/main.ts"));
    assert!(messages[0].content.contains("console.log"));
}

#[test]
fn extract_at_mentions_finds_patterns() {
    let text = "Check @my-repo/src/auth.ts and also @other/lib/utils.ts please";
    let mentions = extract_at_mentions(text);
    assert_eq!(mentions, vec!["my-repo/src/auth.ts", "other/lib/utils.ts"]);
}

#[test]
fn extract_at_mentions_deduplicates() {
    let text = "@repo/file.ts and again @repo/file.ts";
    let mentions = extract_at_mentions(text);
    assert_eq!(mentions, vec!["repo/file.ts"]);
}

#[test]
fn includes_retrieved_code_chunks() {
    let chunks = vec![RetrievedChunk {
        file_path: "src/auth.rs".to_string(),
        repo_name: "my-repo".to_string(),
        start_line: 42,
        end_line: 78,
        content: "fn authenticate() { verify(); }".to_string(),
    }];
    let messages = assemble_context(&ChatMode::Assist, "", "", &[], &[], &[], &[], &chunks, &[]);
    assert!(messages[0].content.contains("Retrieved Code Context"));
    assert!(messages[0].content.contains("my-repo/src/auth.rs"));
    assert!(messages[0].content.contains("authenticate"));
}

#[test]
fn empty_retrieved_chunks_omits_section() {
    let messages = assemble_context(&ChatMode::Assist, "", "", &[], &[], &[], &[], &[], &[]);
    assert!(!messages[0].content.contains("Retrieved Code Context"));
}

#[test]
fn exact_system_message_layout() {
    let tickets = vec![("T".to_string(), "Bug".to_string(), "Low".to_string(), "d".to_string())];
    let chunks = vec![RetrievedChunk {
        file_path: "a/b.py".to_string(),
        repo_name: "r".to_string(),
        start_line: 3,
        end_line: 14,
        content: "x = 1".to_string(),
    }];
    let messages = assemble_context(&ChatMode::Grill, "ctx", "", &tickets, &[], &[], &[], &chunks, &[]);
    let content = &messages[0].content;
    assert!(content.contains("\n\n## Session Context\nctx\n\n## Current Tickets\n- T (Bug, Low) — d\n\n\n## Retrieved Code Context\n"));
    assert!(content.ends_with("### r/a/b.py (lines 3-14)\n```python\nx = 1\n```\n\n"));
    assert!(!content.contains("Brain Dump Notes"));
}

#[test]
fn long_ascii_description_is_cut_at_100_characters() {
    let description = "a".repeat(150);
    let tickets = vec![("T".to_string(), "Task".to_string(), "High".to_string(), description)];
    let messages = assemble_context(&ChatMode::Assist, "", "", &tickets, &[], &[], &[], &[], &[]);
    let expected = format!("- T (Task, High) — {}...\n", "a".repeat(100));
    assert!(messages[0].content.ends_with(&expected));
}

#[test]
fn unknown_roles_become_system_messages() {
    let conversation = vec![("Tool".to_string(), "output".to_string())];
    let messages = assemble_context(&ChatMode::Assist, "", "", &[], &[], &[], &[], &[], &conversation);
    assert_eq!(messages[1].role, "system");
    assert_eq!(messages[1].content, "output");
}

#[test]
fn doc_context_has_system_and_directive() {
    let jira_issues = vec![JiraIssueContext {
        key: "K-1".to_string(),
        summary: "S".to_string(),
        status: "Open".to_string(),
        issue_type: "Task".to_string(),
        priority: "Low".to_string(),
        description: "not shown".to_string(),
    }];
    let messages = assemble_doc_context("", "notes", &[], &jira_issues, &[], &[], "Write the overview.");
    assert_eq!(messages.len(), 2);
    assert_eq!(messages[0].role, "system");
    assert!(messages[0].content.starts_with("You are generating a section of a technical document"));
    assert!(messages[0].content.contains("## Brain Dump Notes\nnotes"));
    assert!(messages[0].content.contains("- K-1 (Task, Open, Low): S\n"));
    assert!(!messages[0].content.contains("not shown"));
    assert_eq!(messages[1].role, "user");
    assert_eq!(messages[1].content, "Write the overview.");
}

#[test]
fn chat_mode_names() {
    assert!(matches!(chat_mode_from("grill"), ChatMode::Grill));
    assert!(matches!(chat_mode_from("assist"), ChatMode::Assist));
    assert!(matches!(chat_mode_from("Grill"), ChatMode::Assist));
}
