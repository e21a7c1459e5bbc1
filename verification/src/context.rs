//! The messages sent to the language model: a system message that carries the
//! session's context, followed by the recent conversation.
use vstd::prelude::*;

use crate::jira::JiraIssueContext;
use crate::pattern::{captures_of, captures_or_none, strings_view};
use crate::rag::RetrievedChunk;
use crate::repo::RepoFileContext;
use crate::search::MENTION_PATTERN;
use crate::text::{
    chars_eq, chars_of, decimal, ends_with, has_suffix, join, join_chars, lemma_join_contains,
    lemma_occurs_between, lemma_occurs_trans, occurs_at, push_all,
    push_decimal, push_str, slice_chars, string_from_chars, utf8_len, utf8_len_exceeds,
};

verus! {

/// How the assistant behaves: helping to plan, or questioning the plan.
pub enum ChatMode {
    Assist,
    Grill,
}

/// One message of a chat completion request.
pub struct ChatMessage {
    pub role: String,
    pub content: String,
}

impl View for ChatMessage {
    type V = (Seq<char>, Seq<char>);

    open spec fn view(&self) -> (Seq<char>, Seq<char>) {
        (self.role@, self.content@)
    }
}

pub open spec fn message_views(v: Seq<ChatMessage>) -> Seq<(Seq<char>, Seq<char>)> {
    v.map_values(|m: ChatMessage| m@)
}

pub const SYSTEM_PROMPT: &'static str = "You are a technical planning assistant embedded in a brainstorming tool called rubber-duck. You help the user think through technical problems and produce well-structured kanban tickets and specifications.

Key context: the user works in an agentic development environment where AI coding agents (terminal, editor and IDE assistants) implement tickets. This means:
- Tickets should be written so an agent can pick them up and start coding without asking clarifying questions.
- Acceptance criteria should distinguish what can be verified automatically ([auto]: tests pass, types check, lint clean) vs. what needs human judgment ([human]: UX feels right, business logic is correct).
- Specs should be precise about file paths, APIs, and interfaces — agents work better with concrete references than vague descriptions.
- Don't over-specify implementation steps. Describe WHAT and WHY, let the agent figure out HOW.

When asked to create tickets, produce structured JSON that the app can parse. When asked to review or improve, be specific and actionable. Reference actual content from the session notes.";

pub const GRILL_PROMPT: &'static str = "You are a critical technical interrogator for an agentic development workflow. Your job is to find gaps, ambiguities, missing edge cases, and unstated assumptions in the user's planning session — especially things that would cause an AI coding agent to make wrong decisions.

Read the current notes and tickets carefully. Then ask ONE focused question at a time. Be specific — reference actual content from their notes. Don't be generic.

Focus areas:
- Are tickets specific enough for an agent to implement without asking questions?
- Are acceptance criteria verifiable (automated or human-checked)?
- Is there missing context that would lead an agent astray (e.g. undocumented constraints, existing code patterns to follow)?
- Are there security, performance, or data integrity risks the notes don't address?
- Is scope clearly bounded? What's in vs. out?

Examples of good questions:
- \"You mention migrating the CDC pipeline but there's no ticket for schema migration — an agent would miss this dependency.\"
- \"The acceptance criteria for ticket #3 say 'handles errors gracefully' — what does that mean specifically? An agent needs concrete error cases to implement and test.\"
- \"I see nothing about rollback strategy. What happens if this deployment fails halfway?\"
- \"This ticket says 'update the auth flow' but doesn't reference which files or APIs. An agent would need to search the entire codebase — can you @mention the relevant files?\"

Do not provide solutions unless asked. Your job is to find the holes.";

pub const DOC_SYSTEM_PROMPT: &'static str = "You are generating a section of a technical document for a team that uses agentic development practices (AI coding agents implement tickets, automated verification is the norm, human review focuses on architecture and business logic). \n\nWrite in clear, professional prose. Use markdown formatting (headings, lists, code blocks). Be specific and grounded in the session context — do not pad with generic boilerplate. \n\nKey principles for this era:\n- Specifications should be precise enough for an AI agent to implement without ambiguity.\n- Distinguish automated verification (tests, linting, type checks) from human judgment (UX, business logic, architecture).\n- Don't prescribe manual processes for things agents can automate (code review, test generation, security scanning).\n- Focus on WHAT and WHY. The HOW is increasingly delegated to agents.\n\nWrite only the content for this section; do not include the section heading or any preamble.";

/// Most recent conversation messages sent with each request.
pub const MAX_CONVERSATION_MESSAGES: usize = 40;

/// A ticket as summarised for the model: title, type, priority, description.
pub type TicketSummary = (String, String, String, String);

// ---------------------------------------------------------------------------
// Specification of the rendered context
// ---------------------------------------------------------------------------

/// The pieces one after another.
pub open spec fn concat_all(s: Seq<Seq<char>>) -> Seq<char>
    decreases s.len(),
{
    if s.len() == 0 {
        seq![]
    } else {
        concat_all(s.drop_last()) + s.last()
    }
}

/// A description cut to its first 100 characters, with `...`, when it is
/// longer than 100 bytes.
pub open spec fn description_preview(d: Seq<char>) -> Seq<char> {
    if utf8_len(d) > 100 {
        (if d.len() > 100 {
            d.take(100)
        } else {
            d
        }) + "..."@
    } else {
        d
    }
}

pub open spec fn ticket_line(t: TicketSummary) -> Seq<char> {
    "- "@ + t.0@ + " ("@ + t.1@ + ", "@ + t.2@ + ") — "@ + description_preview(t.3@) + "\n"@
}

pub open spec fn jira_line(i: JiraIssueContext) -> Seq<char> {
    "- "@ + i.key@ + " ("@ + i.issue_type@ + ", "@ + i.status@ + ", "@ + i.priority@ + "): "@
        + i.summary@ + (if i.description@.len() == 0 {
        seq![]
    } else {
        " — "@ + i.description@
    }) + "\n"@
}

pub open spec fn repo_line(s: String) -> Seq<char> {
    "- "@ + s@ + "\n"@
}

pub open spec fn file_block(f: RepoFileContext) -> Seq<char> {
    "### "@ + f.display@ + "\n"@ + f.content@ + "\n\n"@
}

/// The code-fence language for a file, from its suffix.
pub open spec fn fence_language(path: Seq<char>) -> Seq<char> {
    if has_suffix(path, ".rs"@) {
        "rust"@
    } else if has_suffix(path, ".ts"@) || has_suffix(path, ".tsx"@) {
        "typescript"@
    } else if has_suffix(path, ".py"@) {
        "python"@
    } else if has_suffix(path, ".go"@) {
        "go"@
    } else if has_suffix(path, ".java"@) {
        "java"@
    } else if has_suffix(path, ".cs"@) {
        "csharp"@
    } else if has_suffix(path, ".js"@) || has_suffix(path, ".jsx"@) {
        "javascript"@
    } else {
        seq![]
    }
}

pub open spec fn chunk_location(c: RetrievedChunk) -> Seq<char> {
    "### "@ + c.repo_name@ + "/"@ + c.file_path@ + " (lines "@ + decimal(c.start_line as nat)
        + "-"@ + decimal(c.end_line as nat) + ")\n"@
}

pub open spec fn chunk_block(c: RetrievedChunk) -> Seq<char> {
    chunk_location(c) + "```"@ + fence_language(c.file_path@) + "\n"@ + c.content@ + "\n```\n\n"@
}

pub open spec fn doc_chunk_block(c: RetrievedChunk) -> Seq<char> {
    chunk_location(c) + "```"@ + "\n"@ + c.content@ + "\n```\n\n"@
}

pub open spec fn doc_jira_line(i: JiraIssueContext) -> Seq<char> {
    "- "@ + i.key@ + " ("@ + i.issue_type@ + ", "@ + i.status@ + ", "@ + i.priority@ + "): "@
        + i.summary@ + "\n"@
}

/// The section `body` under `heading`, or nothing when there are no items.
pub open spec fn section_if(nonempty: bool, text: Seq<char>) -> Seq<Seq<char>> {
    if nonempty {
        seq![text]
    } else {
        seq![]
    }
}

pub open spec fn rag_intro() -> Seq<char> {
    "## Retrieved Code Context\nThe following code snippets were automatically retrieved from attached repositories as potentially relevant to this conversation. Use them to give accurate, grounded answers.\n\n"@
}

pub open spec fn doc_rag_intro() -> Seq<char> {
    "## Retrieved Code Context\nRelevant code snippets from attached repositories:\n\n"@
}

/// Sections shared by chat and document generation: session context, notes,
/// tickets.
pub open spec fn common_parts(
    session_context: Seq<char>,
    note_content: Seq<char>,
    tickets: Seq<TicketSummary>,
) -> Seq<Seq<char>> {
    section_if(session_context.len() > 0, "## Session Context\n"@ + session_context)
        + section_if(note_content.len() > 0, "## Brain Dump Notes\n"@ + note_content)
        + section_if(
        tickets.len() > 0,
        "## Current Tickets\n"@ + concat_all(tickets.map_values(|t: TicketSummary| ticket_line(t))),
    )
}

pub open spec fn repos_part(repo_summaries: Seq<String>) -> Seq<Seq<char>> {
    section_if(
        repo_summaries.len() > 0,
        "## Attached Repositories\n"@ + concat_all(repo_summaries.map_values(|s: String| repo_line(s))),
    )
}

pub open spec fn base_prompt(mode: ChatMode) -> Seq<char> {
    match mode {
        ChatMode::Assist => SYSTEM_PROMPT@,
        ChatMode::Grill => GRILL_PROMPT@,
    }
}

/// The parts of the chat system message, in order.
pub open spec fn chat_system_parts(
    mode: ChatMode,
    session_context: Seq<char>,
    note_content: Seq<char>,
    tickets: Seq<TicketSummary>,
    jira_issues: Seq<JiraIssueContext>,
    repo_summaries: Seq<String>,
    mentioned_files: Seq<RepoFileContext>,
    retrieved_chunks: Seq<RetrievedChunk>,
) -> Seq<Seq<char>> {
    seq![base_prompt(mode)] + common_parts(session_context, note_content, tickets) + section_if(
        jira_issues.len() > 0,
        "## Referenced Jira Tickets\n"@ + concat_all(
            jira_issues.map_values(|i: JiraIssueContext| jira_line(i)),
        ),
    ) + repos_part(repo_summaries) + section_if(
        mentioned_files.len() > 0,
        "## Referenced Files\n"@ + concat_all(
            mentioned_files.map_values(|f: RepoFileContext| file_block(f)),
        ),
    ) + section_if(
        retrieved_chunks.len() > 0,
        rag_intro() + concat_all(retrieved_chunks.map_values(|c: RetrievedChunk| chunk_block(c))),
    )
}

/// The chat role for a stored role: `User` → `user`, `Assistant` →
/// `assistant`, anything else → `system`.
pub open spec fn role_name(role: Seq<char>) -> Seq<char> {
    if role == "User"@ {
        "user"@
    } else if role == "Assistant"@ {
        "assistant"@
    } else {
        "system"@
    }
}

/// The last [`MAX_CONVERSATION_MESSAGES`] messages of the conversation.
pub open spec fn recent<T>(conversation: Seq<T>) -> Seq<T> {
    if conversation.len() > MAX_CONVERSATION_MESSAGES {
        conversation.skip(conversation.len() - MAX_CONVERSATION_MESSAGES)
    } else {
        conversation
    }
}

pub open spec fn conversation_messages(conversation: Seq<(String, String)>) -> Seq<
    (Seq<char>, Seq<char>),
> {
    recent(conversation).map_values(|m: (String, String)| (role_name(m.0@), m.1@))
}

// ---------------------------------------------------------------------------
// Rendering
// ---------------------------------------------------------------------------

fn preview_of(d: &Vec<char>) -> (r: Vec<char>)
    ensures
        r@ == description_preview(d@),
{
    if utf8_len_exceeds(d, 100) {
        let mut r = if d.len() > 100 {
            slice_chars(d, 0, 100)
        } else {
            slice_chars(d, 0, d.len())
        };
        push_str(&mut r, "...");
        r
    } else {
        slice_chars(d, 0, d.len())
    }
}

fn push_string(dst: &mut Vec<char>, s: &String)
    ensures
        final(dst)@ == old(dst)@ + s@,
{
    push_str(dst, s.as_str());
}

fn tickets_text(tickets: &[TicketSummary]) -> (r: Vec<char>)
    ensures
        r@ == "## Current Tickets\n"@ + concat_all(
            tickets@.map_values(|t: TicketSummary| ticket_line(t)),
        ),
{
    let ghost lines = tickets@.map_values(|t: TicketSummary| ticket_line(t));
    let mut r: Vec<char> = Vec::new();
    push_str(&mut r, "## Current Tickets\n");
    let ghost head = r@;
    let mut i: usize = 0;
    assert(lines.take(0) =~= Seq::<Seq<char>>::empty());
    while i < tickets.len()
        invariant
            i <= tickets@.len(),
            lines == tickets@.map_values(|t: TicketSummary| ticket_line(t)),
            r@ == head + concat_all(lines.take(i as int)),
        decreases tickets.len() - i,
    {
        let t = &tickets[i];
        let ghost before = r@;
        push_str(&mut r, "- ");
        push_string(&mut r, &t.0);
        push_str(&mut r, " (");
        push_string(&mut r, &t.1);
        push_str(&mut r, ", ");
        push_string(&mut r, &t.2);
        push_str(&mut r, ") — ");
        let d = chars_of(t.3.as_str());
        let p = preview_of(&d);
        push_all(&mut r, &p);
        push_str(&mut r, "\n");
        assert(r@ == before + ticket_line(*t));
        assert(lines.take(i + 1).drop_last() == lines.take(i as int));
        i += 1;
    }
    assert(lines.take(tickets@.len() as int) == lines);
    r
}

fn jira_text(issues: &[JiraIssueContext], with_description: bool) -> (r: Vec<char>)
    ensures
        with_description ==> r@ == "## Referenced Jira Tickets\n"@ + concat_all(
            issues@.map_values(|i: JiraIssueContext| jira_line(i)),
        ),
        !with_description ==> r@ == "## Referenced Jira Tickets\n"@ + concat_all(
            issues@.map_values(|i: JiraIssueContext| doc_jira_line(i)),
        ),
{
    let ghost lines = if with_description {
        issues@.map_values(|i: JiraIssueContext| jira_line(i))
    } else {
        issues@.map_values(|i: JiraIssueContext| doc_jira_line(i))
    };
    let mut r: Vec<char> = Vec::new();
    push_str(&mut r, "## Referenced Jira Tickets\n");
    let ghost head = r@;
    let mut k: usize = 0;
    assert(lines.take(0) =~= Seq::<Seq<char>>::empty());
    while k < issues.len()
        invariant
            k <= issues@.len(),
            lines.len() == issues@.len(),
            forall|j: int|
                0 <= j < issues@.len() ==> #[trigger] lines[j] == if with_description {
                    jira_line(issues@[j])
                } else {
                    doc_jira_line(issues@[j])
                },
            r@ == head + concat_all(lines.take(k as int)),
        decreases issues.len() - k,
    {
        let i = &issues[k];
        let ghost before = r@;
        push_str(&mut r, "- ");
        push_string(&mut r, &i.key);
        push_str(&mut r, " (");
        push_string(&mut r, &i.issue_type);
        push_str(&mut r, ", ");
        push_string(&mut r, &i.status);
        push_str(&mut r, ", ");
        push_string(&mut r, &i.priority);
        push_str(&mut r, "): ");
        push_string(&mut r, &i.summary);
        if with_description {
            if !i.description.as_str().is_empty() {
                push_str(&mut r, " — ");
                push_string(&mut r, &i.description);
            }
        }
        push_str(&mut r, "\n");
        proof {
            if with_description {
                if i.description@.len() == 0 {
                    assert(r@ == before + jira_line(*i));
                } else {
                    assert(r@ == before + jira_line(*i));
                }
            } else {
                assert(r@ == before + doc_jira_line(*i));
            }
            assert(lines[k as int] == if with_description {
                jira_line(*i)
            } else {
                doc_jira_line(*i)
            });
        }
        assert(lines.take(k + 1).drop_last() == lines.take(k as int));
        k += 1;
    }
    assert(lines.take(issues@.len() as int) == lines);
    r
}

fn repos_text(summaries: &[String]) -> (r: Vec<char>)
    ensures
        r@ == "## Attached Repositories\n"@ + concat_all(
            summaries@.map_values(|s: String| repo_line(s)),
        ),
{
    let ghost lines = summaries@.map_values(|s: String| repo_line(s));
    let mut r: Vec<char> = Vec::new();
    push_str(&mut r, "## Attached Repositories\n");
    let ghost head = r@;
    let mut i: usize = 0;
    assert(lines.take(0) =~= Seq::<Seq<char>>::empty());
    while i < summaries.len()
        invariant
            i <= summaries@.len(),
            lines == summaries@.map_values(|s: String| repo_line(s)),
            r@ == head + concat_all(lines.take(i as int)),
        decreases summaries.len() - i,
    {
        let ghost before = r@;
        push_str(&mut r, "- ");
        push_string(&mut r, &summaries[i]);
        push_str(&mut r, "\n");
        assert(r@ == before + repo_line(summaries@[i as int]));
        assert(lines.take(i + 1).drop_last() == lines.take(i as int));
        i += 1;
    }
    assert(lines.take(summaries@.len() as int) == lines);
    r
}

fn files_text(files: &[RepoFileContext]) -> (r: Vec<char>)
    ensures
        r@ == "## Referenced Files\n"@ + concat_all(
            files@.map_values(|f: RepoFileContext| file_block(f)),
        ),
{
    let ghost lines = files@.map_values(|f: RepoFileContext| file_block(f));
    let mut r: Vec<char> = Vec::new();
    push_str(&mut r, "## Referenced Files\n");
    let ghost head = r@;
    let mut i: usize = 0;
    assert(lines.take(0) =~= Seq::<Seq<char>>::empty());
    while i < files.len()
        invariant
            i <= files@.len(),
            lines == files@.map_values(|f: RepoFileContext| file_block(f)),
            r@ == head + concat_all(lines.take(i as int)),
        decreases files.len() - i,
    {
        let ghost before = r@;
        push_str(&mut r, "### ");
        push_string(&mut r, &files[i].display);
        push_str(&mut r, "\n");
        push_string(&mut r, &files[i].content);
        push_str(&mut r, "\n\n");
        assert(r@ == before + file_block(files@[i as int]));
        assert(lines.take(i + 1).drop_last() == lines.take(i as int));
        i += 1;
    }
    assert(lines.take(files@.len() as int) == lines);
    r
}

fn fence_language_of(path: &Vec<char>) -> (r: &'static str)
    ensures
        r@ == fence_language(path@),
{
    if ends_with(path, &chars_of(".rs")) {
        "rust"
    } else if ends_with(path, &chars_of(".ts")) || ends_with(path, &chars_of(".tsx")) {
        "typescript"
    } else if ends_with(path, &chars_of(".py")) {
        "python"
    } else if ends_with(path, &chars_of(".go")) {
        "go"
    } else if ends_with(path, &chars_of(".java")) {
        "java"
    } else if ends_with(path, &chars_of(".cs")) {
        "csharp"
    } else if ends_with(path, &chars_of(".js")) || ends_with(path, &chars_of(".jsx")) {
        "javascript"
    } else {
        proof {
            reveal_strlit("");
        }
        ""
    }
}

fn chunks_text(chunks: &[RetrievedChunk], fenced: bool) -> (r: Vec<char>)
    ensures
        fenced ==> r@ == rag_intro() + concat_all(
            chunks@.map_values(|c: RetrievedChunk| chunk_block(c)),
        ),
        !fenced ==> r@ == doc_rag_intro() + concat_all(
            chunks@.map_values(|c: RetrievedChunk| doc_chunk_block(c)),
        ),
{
    let ghost lines = if fenced {
        chunks@.map_values(|c: RetrievedChunk| chunk_block(c))
    } else {
        chunks@.map_values(|c: RetrievedChunk| doc_chunk_block(c))
    };
    let mut r: Vec<char> = Vec::new();
    if fenced {
        push_str(
            &mut r,
            "## Retrieved Code Context\nThe following code snippets were automatically retrieved from attached repositories as potentially relevant to this conversation. Use them to give accurate, grounded answers.\n\n",
        );
    } else {
        push_str(
            &mut r,
            "## Retrieved Code Context\nRelevant code snippets from attached repositories:\n\n",
        );
    }
    let ghost head = r@;
    let mut i: usize = 0;
    assert(lines.take(0) =~= Seq::<Seq<char>>::empty());
    while i < chunks.len()
        invariant
            i <= chunks@.len(),
            lines.len() == chunks@.len(),
            forall|j: int|
                0 <= j < chunks@.len() ==> #[trigger] lines[j] == if fenced {
                    chunk_block(chunks@[j])
                } else {
                    doc_chunk_block(chunks@[j])
                },
            r@ == head + concat_all(lines.take(i as int)),
        decreases chunks.len() - i,
    {
        let c = &chunks[i];
        let ghost before = r@;
        push_str(&mut r, "### ");
        push_string(&mut r, &c.repo_name);
        push_str(&mut r, "/");
        push_string(&mut r, &c.file_path);
        push_str(&mut r, " (lines ");
        push_decimal(&mut r, c.start_line);
        push_str(&mut r, "-");
        push_decimal(&mut r, c.end_line);
        push_str(&mut r, ")\n");
        assert(r@ == before + chunk_location(*c));
        push_str(&mut r, "```");
        if fenced {
            let path = chars_of(c.file_path.as_str());
            push_str(&mut r, fence_language_of(&path));
        }
        push_str(&mut r, "\n");
        push_string(&mut r, &c.content);
        push_str(&mut r, "\n```\n\n");
        proof {
            if fenced {
                assert(r@ == before + chunk_block(*c));
            } else {
                assert(r@ == before + doc_chunk_block(*c));
            }
            assert(lines[i as int] == if fenced {
                chunk_block(*c)
            } else {
                doc_chunk_block(*c)
            });
        }
        assert(lines.take(i + 1).drop_last() == lines.take(i as int));
        i += 1;
    }
    assert(lines.take(chunks@.len() as int) == lines);
    r
}

fn push_part(parts: &mut Vec<Vec<char>>, head: &str, body: &str)
    ensures
        final(parts)@.map_values(|x: Vec<char>| x@) == old(parts)@.map_values(|x: Vec<char>| x@).push(
            head@ + body@,
        ),
{
    let mut v = chars_of(head);
    push_str(&mut v, body);
    let ghost before = parts@;
    parts.push(v);
    assert(parts@.map_values(|x: Vec<char>| x@) == before.map_values(|x: Vec<char>| x@).push(
        head@ + body@,
    ));
}

fn push_chars_part(parts: &mut Vec<Vec<char>>, v: Vec<char>)
    ensures
        final(parts)@.map_values(|x: Vec<char>| x@) == old(parts)@.map_values(|x: Vec<char>| x@).push(
            v@,
        ),
{
    let ghost before = parts@;
    let ghost vv = v@;
    parts.push(v);
    assert(parts@.map_values(|x: Vec<char>| x@) == before.map_values(|x: Vec<char>| x@).push(vv));
}

/// Adds the session-context, notes and tickets sections, each only when it has content.
fn push_common_parts(
    parts: &mut Vec<Vec<char>>,
    session_context: &str,
    note_content: &str,
    tickets: &[TicketSummary],
)
    ensures
        final(parts)@.map_values(|x: Vec<char>| x@) == old(parts)@.map_values(|x: Vec<char>| x@)
            + common_parts(session_context@, note_content@, tickets@),
{
    let ghost start = parts@.map_values(|x: Vec<char>| x@);
    if !session_context.is_empty() {
        push_part(parts, "## Session Context\n", session_context);
    }
    let ghost a = parts@.map_values(|x: Vec<char>| x@);
    if !note_content.is_empty() {
        push_part(parts, "## Brain Dump Notes\n", note_content);
    }
    let ghost b = parts@.map_values(|x: Vec<char>| x@);
    if tickets.len() > 0 {
        push_chars_part(parts, tickets_text(tickets));
    }
    proof {
        let s1 = section_if(session_context@.len() > 0, "## Session Context\n"@ + session_context@);
        let s2 = section_if(note_content@.len() > 0, "## Brain Dump Notes\n"@ + note_content@);
        assert(a == start + s1);
        assert(b == a + s2);
        assert(parts@.map_values(|x: Vec<char>| x@) =~= start + common_parts(
            session_context@,
            note_content@,
            tickets@,
        ));
    }
}

fn system_message(parts: &Vec<Vec<char>>) -> (m: ChatMessage)
    ensures
        m@ == ("system"@, join(parts@.map_values(|x: Vec<char>| x@), "\n\n"@)),
{
    let sep = chars_of("\n\n");
    let content = join_chars(parts, &sep);
    ChatMessage { role: "system".to_owned(), content: string_from_chars(&content) }
}

fn role_name_of(role: &String) -> (r: &'static str)
    ensures
        r@ == role_name(role@),
{
    let v = chars_of(role.as_str());
    if chars_eq(&v, &chars_of("User")) {
        "user"
    } else if chars_eq(&v, &chars_of("Assistant")) {
        "assistant"
    } else {
        "system"
    }
}

/// The messages for a chat request: one system message (the mode's prompt,
/// then each non-empty context section: session context, notes, tickets, Jira
/// issues, attached repositories, mentioned files, retrieved code, joined by
/// blank lines), followed by the last [`MAX_CONVERSATION_MESSAGES`] messages
/// of the conversation with their roles mapped for the API.
pub fn assemble_context(
    mode: &ChatMode,
    session_context: &str,
    note_content: &str,
    tickets: &[TicketSummary],
    jira_issues: &[JiraIssueContext],
    repo_summaries: &[String],
    mentioned_files: &[RepoFileContext],
    retrieved_chunks: &[RetrievedChunk],
    conversation: &[(String, String)],
) -> (r: Vec<ChatMessage>)
    ensures
        message_views(r@) == seq![
            (
                "system"@,
                join(
                    chat_system_parts(
                        *mode,
                        session_context@,
                        note_content@,
                        tickets@,
                        jira_issues@,
                        repo_summaries@,
                        mentioned_files@,
                        retrieved_chunks@,
                    ),
                    "\n\n"@,
                ),
            ),
        ] + conversation_messages(conversation@),
        r@.len() == 1 + if conversation@.len() > MAX_CONVERSATION_MESSAGES {
            MAX_CONVERSATION_MESSAGES as int
        } else {
            conversation@.len() as int
        },
{
    let mut parts: Vec<Vec<char>> = Vec::new();
    let base = match mode {
        ChatMode::Assist => SYSTEM_PROMPT,
        ChatMode::Grill => GRILL_PROMPT,
    };
    push_chars_part(&mut parts, chars_of(base));
    assert(parts@.map_values(|x: Vec<char>| x@) == seq![base_prompt(*mode)]);
    push_common_parts(&mut parts, session_context, note_content, tickets);
    let ghost p1 = parts@.map_values(|x: Vec<char>| x@);
    if jira_issues.len() > 0 {
        push_chars_part(&mut parts, jira_text(jira_issues, true));
    }
    let ghost p2 = parts@.map_values(|x: Vec<char>| x@);
    if repo_summaries.len() > 0 {
        push_chars_part(&mut parts, repos_text(repo_summaries));
    }
    let ghost p3 = parts@.map_values(|x: Vec<char>| x@);
    if mentioned_files.len() > 0 {
        push_chars_part(&mut parts, files_text(mentioned_files));
    }
    let ghost p4 = parts@.map_values(|x: Vec<char>| x@);
    if retrieved_chunks.len() > 0 {
        push_chars_part(&mut parts, chunks_text(retrieved_chunks, true));
    }
    proof {
        assert(parts@.map_values(|x: Vec<char>| x@) =~= chat_system_parts(
            *mode,
            session_context@,
            note_content@,
            tickets@,
            jira_issues@,
            repo_summaries@,
            mentioned_files@,
            retrieved_chunks@,
        ));
    }
    let mut messages: Vec<ChatMessage> = Vec::new();
    messages.push(system_message(&parts));
    let ghost sys = messages@[0]@;
    let n = conversation.len();
    let first = if n > MAX_CONVERSATION_MESSAGES {
        n - MAX_CONVERSATION_MESSAGES
    } else {
        0
    };
    let ghost tail = recent(conversation@);
    assert(tail == conversation@.subrange(first as int, n as int));
    let mut i = first;
    assert(message_views(messages@) == seq![sys]);
    while i < n
        invariant
            first <= i <= n == conversation@.len(),
            tail == conversation@.subrange(first as int, n as int),
            message_views(messages@) == seq![sys] + tail.take(i - first).map_values(
                |m: (String, String)| (role_name(m.0@), m.1@),
            ),
        decreases n - i,
    {
        let m = &conversation[i];
        let role = role_name_of(&m.0);
        let ghost before = messages@;
        messages.push(ChatMessage { role: role.to_owned(), content: m.1.clone() });
        assert(message_views(messages@) == message_views(before).push((role_name(m.0@), m.1@)));
        assert(tail.take(i + 1 - first) == tail.take(i - first).push(*m));
        i += 1;
    }
    assert(tail.take(n - first) == tail);
    messages
}

/// The parts of the system message for generating a document section: the
/// document prompt, then the non-empty sections among session context, notes,
/// tickets, Jira issues (without descriptions), attached repositories and
/// retrieved code (in plain fences).
pub open spec fn doc_system_parts(
    session_context: Seq<char>,
    note_content: Seq<char>,
    tickets: Seq<TicketSummary>,
    jira_issues: Seq<JiraIssueContext>,
    repo_summaries: Seq<String>,
    retrieved_chunks: Seq<RetrievedChunk>,
) -> Seq<Seq<char>> {
    seq![DOC_SYSTEM_PROMPT@] + common_parts(session_context, note_content, tickets) + section_if(
        jira_issues.len() > 0,
        "## Referenced Jira Tickets\n"@ + concat_all(
            jira_issues.map_values(|i: JiraIssueContext| doc_jira_line(i)),
        ),
    ) + repos_part(repo_summaries) + section_if(
        retrieved_chunks.len() > 0,
        doc_rag_intro() + concat_all(
            retrieved_chunks.map_values(|c: RetrievedChunk| doc_chunk_block(c)),
        ),
    )
}

/// The messages for generating a document section: the document system
/// message, and the section's directive as the one user message.
pub fn assemble_doc_context(
    session_context: &str,
    note_content: &str,
    tickets: &[TicketSummary],
    jira_issues: &[JiraIssueContext],
    repo_summaries: &[String],
    retrieved_chunks: &[RetrievedChunk],
    directive: &str,
) -> (r: Vec<ChatMessage>)
    ensures
        message_views(r@) == seq![
            (
                "system"@,
                join(
                    doc_system_parts(
                        session_context@,
                        note_content@,
                        tickets@,
                        jira_issues@,
                        repo_summaries@,
                        retrieved_chunks@,
                    ),
                    "\n\n"@,
                ),
            ),
            ("user"@, directive@),
        ],
{
    let mut parts: Vec<Vec<char>> = Vec::new();
    push_chars_part(&mut parts, chars_of(DOC_SYSTEM_PROMPT));
    push_common_parts(&mut parts, session_context, note_content, tickets);
    if jira_issues.len() > 0 {
        push_chars_part(&mut parts, jira_text(jira_issues, false));
    }
    if repo_summaries.len() > 0 {
        push_chars_part(&mut parts, repos_text(repo_summaries));
    }
    if retrieved_chunks.len() > 0 {
        push_chars_part(&mut parts, chunks_text(retrieved_chunks, false));
    }
    assert(parts@.map_values(|x: Vec<char>| x@) =~= doc_system_parts(
        session_context@,
        note_content@,
        tickets@,
        jira_issues@,
        repo_summaries@,
        retrieved_chunks@,
    ));
    let mut messages: Vec<ChatMessage> = Vec::new();
    messages.push(system_message(&parts));
    messages.push(ChatMessage { role: "user".to_owned(), content: directive.to_owned() });
    assert(message_views(messages@) =~= seq![messages@[0]@, messages@[1]@]);
    messages
}

/// The chat mode named by the interface: `grill`, or anything else for assist.
pub fn chat_mode_from(mode: &str) -> (m: ChatMode)
    ensures
        m == if mode@ == "grill"@ {
            ChatMode::Grill
        } else {
            ChatMode::Assist
        },
{
    let v = chars_of(mode);
    if chars_eq(&v, &chars_of("grill")) {
        ChatMode::Grill
    } else {
        ChatMode::Assist
    }
}

// ---------------------------------------------------------------------------
// Mentions
// ---------------------------------------------------------------------------

/// `s` with later repeats of an element removed (first occurrences kept, in order).
pub open spec fn dedup_first(s: Seq<Seq<char>>) -> Seq<Seq<char>>
    decreases s.len(),
{
    if s.len() == 0 {
        s
    } else if dedup_first(s.drop_last()).contains(s.last()) {
        dedup_first(s.drop_last())
    } else {
        dedup_first(s.drop_last()).push(s.last())
    }
}

/// The `@repo/path` mentions in a message, without the `@`, each once, in
/// order of first appearance.
pub fn extract_at_mentions(text: &str) -> (r: Vec<String>)
    ensures
        strings_view(r@) == dedup_first(captures_or_none(MENTION_PATTERN@, text@)),
{
    let caps = captures_of(MENTION_PATTERN, text);
    let ghost cv = strings_view(caps@);
    let mut mentions: Vec<String> = Vec::new();
    let mut i: usize = 0;
    assert(cv.take(0) =~= Seq::<Seq<char>>::empty());
    assert(strings_view(mentions@) =~= Seq::<Seq<char>>::empty());
    while i < caps.len()
        invariant
            i <= caps@.len(),
            cv == strings_view(caps@),
            strings_view(mentions@) == dedup_first(cv.take(i as int)),
        decreases caps.len() - i,
    {
        let ghost t = cv.take(i + 1);
        assert(t.drop_last() == cv.take(i as int));
        assert(t.last() == caps@[i as int]@);
        let mut seen = false;
        let mut k: usize = 0;
        while k < mentions.len()
            invariant
                k <= mentions@.len(),
                seen == exists|j: int| 0 <= j < k && mentions@[j]@ == caps@[i as int]@,
                i < caps@.len(),
            decreases mentions.len() - k,
        {
            if mentions[k] == caps[i] {
                seen = true;
            }
            k += 1;
        }
        proof {
            let d = dedup_first(cv.take(i as int));
            if seen {
                let j = choose|j: int| 0 <= j < mentions@.len() && mentions@[j]@ == caps@[i as int]@;
                assert(d[j] == mentions@[j]@);
                assert(d.contains(t.last()));
            } else {
                assert(!d.contains(t.last())) by {
                    if d.contains(t.last()) {
                        let j = choose|j: int| 0 <= j < d.len() && d[j] == t.last();
                        assert(mentions@[j]@ == d[j]);
                    }
                }
            }
        }
        if !seen {
            let ghost before = mentions@;
            mentions.push(caps[i].clone());
            assert(strings_view(mentions@) == strings_view(before).push(caps@[i as int]@));
        }
        i += 1;
    }
    assert(cv.take(caps@.len() as int) == cv);
    mentions
}

/// Every mention appears once, and the mentions are exactly the captured ones.
pub proof fn law_mentions_distinct(s: Seq<Seq<char>>)
    ensures
        dedup_first(s).no_duplicates(),
        forall|x: Seq<char>| #[trigger] dedup_first(s).contains(x) <==> s.contains(x),
    decreases s.len(),
{
    if s.len() > 0 {
        law_mentions_distinct(s.drop_last());
        let d = dedup_first(s.drop_last());
        let sp = s.drop_last();
        let last = s.last();
        assert forall|x: Seq<char>| #[trigger] dedup_first(s).contains(x) <==> s.contains(x) by {
            if s.contains(x) {
                let k = choose|k: int| 0 <= k < s.len() && s[k] == x;
                if k < s.len() - 1 {
                    assert(sp[k] == x);
                }
            }
            if sp.contains(x) {
                let k = choose|k: int| 0 <= k < sp.len() && sp[k] == x;
                assert(s[k] == x);
            }
            if x == last {
                assert(s[s.len() - 1] == x);
            }
            if !d.contains(last) {
                let e = d.push(last);
                if e.contains(x) {
                    let k = choose|k: int| 0 <= k < e.len() && e[k] == x;
                    if k < d.len() {
                        assert(d[k] == x);
                    }
                }
                if d.contains(x) {
                    let k = choose|k: int| 0 <= k < d.len() && d[k] == x;
                    assert(e[k] == x);
                }
                if x == last {
                    assert(e[d.len() as int] == x);
                }
            }
        }
        if !d.contains(s.last()) {
            let e = d.push(s.last());
            assert forall|a: int, b: int| 0 <= a < e.len() && 0 <= b < e.len() && a != b implies e[a]
                != e[b] by {
                if a == e.len() - 1 && e[a] == e[b] {
                    assert(d[b] == e[a]);
                }
                if b == e.len() - 1 && e[a] == e[b] {
                    assert(d[a] == e[b]);
                }
            }
        }
    }
}

// ---------------------------------------------------------------------------
// Jira issues in the chat context
// ---------------------------------------------------------------------------

proof fn lemma_concat_all_contains(s: Seq<Seq<char>>, k: int) -> (p: int)
    requires
        0 <= k < s.len(),
    ensures
        occurs_at(concat_all(s), s[k], p),
    decreases s.len(),
{
    let d = concat_all(s.drop_last());
    if k == s.len() - 1 {
        lemma_occurs_between(d, s.last(), seq![]);
        assert(d + s.last() + Seq::<char>::empty() =~= concat_all(s));
        d.len() as int
    } else {
        let q = lemma_concat_all_contains(s.drop_last(), k);
        lemma_occurs_between(seq![], d, s.last());
        assert(Seq::<char>::empty() + d + s.last() =~= concat_all(s));
        lemma_occurs_trans(concat_all(s), d, s[k], 0, q);
        q
    }
}

/// In a chat request, every Jira issue passed in is listed in the system
/// message as the line `- KEY (type, status, priority): summary`, followed by
/// ` — description` when the issue has a description, and a newline; the
/// result is where that line starts.
pub proof fn law_chat_lists_each_jira_issue(
    mode: ChatMode,
    session_context: Seq<char>,
    note_content: Seq<char>,
    tickets: Seq<TicketSummary>,
    jira_issues: Seq<JiraIssueContext>,
    repo_summaries: Seq<String>,
    mentioned_files: Seq<RepoFileContext>,
    retrieved_chunks: Seq<RetrievedChunk>,
    k: int,
) -> (p: int)
    requires
        0 <= k < jira_issues.len(),
    ensures
        occurs_at(
            join(
                chat_system_parts(
                    mode,
                    session_context,
                    note_content,
                    tickets,
                    jira_issues,
                    repo_summaries,
                    mentioned_files,
                    retrieved_chunks,
                ),
                "\n\n"@,
            ),
            "- "@ + jira_issues[k].key@ + " ("@ + jira_issues[k].issue_type@ + ", "@
                + jira_issues[k].status@ + ", "@ + jira_issues[k].priority@ + "): "@
                + jira_issues[k].summary@ + (if jira_issues[k].description@.len() == 0 {
                seq![]
            } else {
                " — "@ + jira_issues[k].description@
            }) + "\n"@,
            p,
        ),
{
    let parts = chat_system_parts(
        mode,
        session_context,
        note_content,
        tickets,
        jira_issues,
        repo_summaries,
        mentioned_files,
        retrieved_chunks,
    );
    let lines = jira_issues.map_values(|i: JiraIssueContext| jira_line(i));
    let head = "## Referenced Jira Tickets\n"@;
    let part = head + concat_all(lines);
    let idx: int = (1 + common_parts(session_context, note_content, tickets).len()) as int;
    assert(parts[idx] == part);
    let a = lemma_join_contains(parts, "\n\n"@, idx);
    lemma_occurs_between(head, concat_all(lines), seq![]);
    assert(head + concat_all(lines) + Seq::<char>::empty() =~= part);
    lemma_occurs_trans(join(parts, "\n\n"@), part, concat_all(lines), a, head.len() as int);
    let b = lemma_concat_all_contains(lines, k);
    lemma_occurs_trans(join(parts, "\n\n"@), concat_all(lines), lines[k], a + head.len(), b);
    assert(lines[k] == jira_line(jira_issues[k]));
    a + head.len() + b
}

/// In the context for generating a document section, every Jira issue passed
/// in is listed in the system message as the line
/// `- KEY (type, status, priority): summary` and a newline, without its
/// description; the result is where that line starts.
pub proof fn law_doc_lists_each_jira_issue(
    session_context: Seq<char>,
    note_content: Seq<char>,
    tickets: Seq<TicketSummary>,
    jira_issues: Seq<JiraIssueContext>,
    repo_summaries: Seq<String>,
    retrieved_chunks: Seq<RetrievedChunk>,
    k: int,
) -> (p: int)
    requires
        0 <= k < jira_issues.len(),
    ensures
        occurs_at(
            join(
                doc_system_parts(
                    session_context,
                    note_content,
                    tickets,
                    jira_issues,
                    repo_summaries,
                    retrieved_chunks,
                ),
                "\n\n"@,
            ),
            "- "@ + jira_issues[k].key@ + " ("@ + jira_issues[k].issue_type@ + ", "@
                + jira_issues[k].status@ + ", "@ + jira_issues[k].priority@ + "): "@
                + jira_issues[k].summary@ + "\n"@,
            p,
        ),
{
    let parts = doc_system_parts(
        session_context,
        note_content,
        tickets,
        jira_issues,
        repo_summaries,
        retrieved_chunks,
    );
    let lines = jira_issues.map_values(|i: JiraIssueContext| doc_jira_line(i));
    let head = "## Referenced Jira Tickets\n"@;
    let part = head + concat_all(lines);
    let idx: int = (1 + common_parts(session_context, note_content, tickets).len()) as int;
    assert(parts[idx] == part);
    let a = lemma_join_contains(parts, "\n\n"@, idx);
    lemma_occurs_between(head, concat_all(lines), seq![]);
    assert(head + concat_all(lines) + Seq::<char>::empty() =~= part);
    lemma_occurs_trans(join(parts, "\n\n"@), part, concat_all(lines), a, head.len() as int);
    let b = lemma_concat_all_contains(lines, k);
    lemma_occurs_trans(join(parts, "\n\n"@), concat_all(lines), lines[k], a + head.len(), b);
    assert(lines[k] == doc_jira_line(jira_issues[k]));
    a + head.len() + b
}

} // verus!
