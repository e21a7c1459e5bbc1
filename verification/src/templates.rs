//! Document templates: the built-in set and the parser that turns a template's
//! markdown into its named sections and generation directives.
use vstd::prelude::*;

use crate::text::{
    chars_of, ends_with, find, find_chars, has_prefix, has_suffix, is_trimmed, lemma_find_from,
    lemma_trim_is_trimmed, lines, occurs_at, trim_start, push_all, slice_chars, split_lines, starts_with,
    string_from_chars, trim, trim_chars, trim_end_matches, trim_end_matches_chars,
};

verus! {

/// A section of a template: its heading and the instruction used to generate it.
pub struct TemplateSection {
    pub name: String,
    pub directive: String,
}

impl View for TemplateSection {
    type V = (Seq<char>, Seq<char>);

    open spec fn view(&self) -> (Seq<char>, Seq<char>) {
        (self.name@, self.directive@)
    }
}

/// A template that ships with the application.
pub struct BuiltinTemplate {
    pub name: String,
    pub content: String,
}

pub const PRD_TEMPLATE: &'static str = "# Product Requirements Document

<!-- section: Overview -->
<!-- directive: Summarize the product or feature in two or three paragraphs: what it is, who it is for, and why it matters now. -->

<!-- section: Problem Statement -->
<!-- directive:
Describe the problem being solved, the users affected, and the evidence that it is worth solving.
Reference concrete observations from the session notes.
-->

<!-- section: Requirements -->
<!-- directive: List the functional and non-functional requirements as numbered, testable statements. -->

<!-- section: Non-Goals -->
<!-- directive: List what is explicitly out of scope so that implementers do not overreach. -->

<!-- section: Success Criteria -->
<!-- directive: Define measurable success criteria and mark each one as automatically verifiable or requiring human judgment. -->
";

pub const SDD_TEMPLATE: &'static str = "# Software Design Document

<!-- section: Overview -->
<!-- directive: Summarize the system being designed and the goals that shape the design. -->

<!-- section: Architecture -->
<!-- directive:
Describe the components, their responsibilities, and how they communicate.
Name concrete modules, files, and services where they are known.
-->

<!-- section: Data Model -->
<!-- directive: Describe the data structures, storage schema, and their invariants. -->

<!-- section: Interfaces -->
<!-- directive: Specify the public APIs, commands, and events with their inputs and outputs. -->

<!-- section: Security Considerations -->
<!-- directive: Identify trust boundaries, sensitive data, and the mitigations for each risk. -->

<!-- section: Error Handling -->
<!-- directive: Enumerate the failure modes and how each one is detected, reported, and recovered from. -->
";

pub const TEST_PLAN_TEMPLATE: &'static str = "# Test Plan

<!-- section: Overview -->
<!-- directive: Summarize what is being tested and the risks the plan addresses. -->

<!-- section: Scope -->
<!-- directive: List the features and components in scope and those deliberately left out. -->

<!-- section: Test Cases -->
<!-- directive:
List the test cases with preconditions, steps, and expected results.
Group them by feature.
-->

<!-- section: Automation Strategy -->
<!-- directive: Explain which checks run automatically (unit, integration, end-to-end) and which need a human. -->

<!-- section: Acceptance Criteria -->
<!-- directive: State the conditions under which the work is accepted, marking each as automated or human-verified. -->
";

pub const ADR_TEMPLATE: &'static str = "# Architecture Decision Record

<!-- section: Context -->
<!-- directive: Describe the forces at play: the technical, organizational, and product constraints behind the decision. -->

<!-- section: Decision -->
<!-- directive: State the decision that was made in one or two sentences, then elaborate. -->

<!-- section: Consequences -->
<!-- directive: Describe what becomes easier and what becomes harder as a result of this decision. -->

<!-- section: Alternatives Considered -->
<!-- directive:
List the alternatives that were evaluated and why each was rejected.
-->
";

/// The four built-in templates: a PRD, an SDD, a test plan and an ADR.
pub fn get_builtin_templates() -> (r: Vec<BuiltinTemplate>)
    ensures
        r@.len() == 4,
        r@[0].name@ == "PRD"@ && r@[0].content@ == PRD_TEMPLATE@,
        r@[1].name@ == "SDD"@ && r@[1].content@ == SDD_TEMPLATE@,
        r@[2].name@ == "Test Plan"@ && r@[2].content@ == TEST_PLAN_TEMPLATE@,
        r@[3].name@ == "ADR"@ && r@[3].content@ == ADR_TEMPLATE@,
{
    let mut r: Vec<BuiltinTemplate> = Vec::new();
    r.push(BuiltinTemplate { name: "PRD".to_owned(), content: PRD_TEMPLATE.to_owned() });
    r.push(BuiltinTemplate { name: "SDD".to_owned(), content: SDD_TEMPLATE.to_owned() });
    r.push(
        BuiltinTemplate { name: "Test Plan".to_owned(), content: TEST_PLAN_TEMPLATE.to_owned() },
    );
    r.push(BuiltinTemplate { name: "ADR".to_owned(), content: ADR_TEMPLATE.to_owned() });
    r
}

// ---------------------------------------------------------------------------
// Template parsing
// ---------------------------------------------------------------------------

/// Opening of a directive comment.
pub open spec fn directive_open() -> Seq<char> {
    "<!-- directive:"@
}

/// Opening of a section marker comment.
pub open spec fn section_open() -> Seq<char> {
    "<!-- section:"@
}

/// Closing of an HTML comment.
pub open spec fn comment_close() -> Seq<char> {
    "-->"@
}

/// What the parser knows after reading some lines of a template.
pub struct TemplateScan {
    /// Completed (name, directive) pairs.
    pub sections: Seq<(Seq<char>, Seq<char>)>,
    /// Name of the last section marker seen, if it has not been paired yet.
    pub section: Option<Seq<char>>,
    /// Last directive seen since that marker.
    pub directive: Option<Seq<char>>,
    /// Inside a directive that spans several lines.
    pub in_directive: bool,
    /// Text gathered so far for a multi-line directive.
    pub buf: Seq<char>,
}

pub open spec fn scan_start() -> TemplateScan {
    TemplateScan {
        sections: seq![],
        section: None,
        directive: None,
        in_directive: false,
        buf: seq![],
    }
}

/// `s` followed by a space, or nothing when `s` is empty.
pub open spec fn word_with_space(s: Seq<char>) -> Seq<char> {
    if s.len() == 0 {
        seq![]
    } else {
        s.push(' ')
    }
}

/// The effect of one line of the template on the parser.
///
/// - A line starting with `<!-- directive:` records the directive at once when
///   the comment closes on that line, and otherwise opens a multi-line directive.
/// - Inside a multi-line directive, lines are gathered (trimmed, joined by spaces)
///   until one that ends with `-->`.
/// - A line starting with `<!-- section:` and holding `-->` closes the pending
///   section (kept only when it has a directive) and starts a new one.
/// - Every other line is ignored.
pub open spec fn scan_line(st: TemplateScan, line: Seq<char>) -> TemplateScan {
    let t = trim(line);
    if has_prefix(t, directive_open()) {
        match find(t, comment_close()) {
            Some(close) => TemplateScan {
                sections: st.sections,
                section: st.section,
                directive: Some(trim(t.subrange(directive_open().len() as int, close))),
                in_directive: false,
                buf: seq![],
            },
            None => TemplateScan {
                sections: st.sections,
                section: st.section,
                directive: st.directive,
                in_directive: true,
                buf: word_with_space(trim(t.skip(directive_open().len() as int))),
            },
        }
    } else if st.in_directive {
        if has_suffix(t, comment_close()) {
            let inner = trim(trim_end_matches(t, comment_close()));
            TemplateScan {
                sections: st.sections,
                section: st.section,
                directive: Some(trim(st.buf + word_with_space(inner))),
                in_directive: false,
                buf: seq![],
            }
        } else {
            TemplateScan {
                sections: st.sections,
                section: st.section,
                directive: st.directive,
                in_directive: true,
                buf: st.buf + t.push(' '),
            }
        }
    } else if has_prefix(t, section_open()) {
        match find(t, comment_close()) {
            Some(close) => TemplateScan {
                sections: paired(st),
                section: Some(trim(t.subrange(section_open().len() as int, close))),
                directive: None,
                in_directive: st.in_directive,
                buf: st.buf,
            },
            None => st,
        }
    } else {
        st
    }
}

/// The completed sections, plus the pending one when it has a directive.
pub open spec fn paired(st: TemplateScan) -> Seq<(Seq<char>, Seq<char>)> {
    match (st.section, st.directive) {
        (Some(s), Some(d)) => st.sections.push((s, d)),
        _ => st.sections,
    }
}

/// The parser's state after the first `n` lines.
pub open spec fn scan_lines(ls: Seq<Seq<char>>, n: int) -> TemplateScan
    decreases n,
{
    if n <= 0 {
        scan_start()
    } else {
        scan_line(scan_lines(ls, n - 1), ls[n - 1])
    }
}

/// The (name, directive) pairs of a template, in order of appearance.
pub open spec fn template_sections(content: Seq<char>) -> Seq<(Seq<char>, Seq<char>)> {
    paired(scan_lines(lines(content), lines(content).len() as int))
}

/// The `-->` that closes a comment never overlaps the comment's opening.
proof fn lemma_close_after_open(t: Seq<char>, open: Seq<char>)
    requires
        open == directive_open() || open == section_open(),
        has_prefix(t, open),
        find(t, comment_close()) is Some,
    ensures
        find(t, comment_close())->0 >= open.len(),
        find(t, comment_close())->0 + 3 <= t.len(),
{
    reveal_strlit("<!-- directive:");
    reveal_strlit("<!-- section:");
    reveal_strlit("-->");
    let c = comment_close();
    lemma_find_from(t, c, 0);
    let k = find(t, c)->0;
    assert(occurs_at(t, c, k));
    assert(t.subrange(k, k + 3)[0] == t[k]);
    assert(t.subrange(k, k + 3)[1] == t[k + 1]);
    assert(t.subrange(k, k + 3)[2] == t[k + 2]);
    assert(t[k] == '-' && t[k + 1] == '-' && t[k + 2] == '>');
    if k < open.len() {
        assert(t.take(open.len() as int)[k] == t[k]);
        if k + 1 < open.len() {
            assert(t.take(open.len() as int)[k + 1] == t[k + 1]);
        }
        if k + 2 < open.len() {
            assert(t.take(open.len() as int)[k + 2] == t[k + 2]);
        }
        assert(false);
    }
}

pub open spec fn opt_view(o: Option<Vec<char>>) -> Option<Seq<char>> {
    match o {
        Some(v) => Some(v@),
        None => None,
    }
}

/// Appends `s` and a space when `s` is not empty.
fn push_word(buf: &mut Vec<char>, s: &Vec<char>)
    ensures
        final(buf)@ == old(buf)@ + word_with_space(s@),
{
    if s.len() > 0 {
        push_all(buf, s);
        buf.push(' ');
    } else {
        assert(old(buf)@ + Seq::<char>::empty() == old(buf)@);
    }
}

/// Parse a template's markdown content into sections.
///
/// Looks for paired `<!-- section: X -->` and `<!-- directive: Y -->` comments.
/// Sections without a corresponding directive are skipped.
/// The directive may span multiple lines: everything from `<!-- directive:` to
/// the closing `-->` is captured as the directive text.
pub fn parse_template(content: &str) -> (r: Vec<TemplateSection>)
    ensures
        r@.map_values(|x: TemplateSection| x@) == template_sections(content@),
{
    let chars = chars_of(content);
    let ls = split_lines(&chars);
    let dir_open = chars_of("<!-- directive:");
    let sec_open = chars_of("<!-- section:");
    let close = chars_of("-->");
    let ghost all = lines(content@);

    let mut sections: Vec<TemplateSection> = Vec::new();
    let mut current_section: Option<Vec<char>> = None;
    let mut current_directive: Option<Vec<char>> = None;
    let mut in_directive = false;
    let mut buf: Vec<char> = Vec::new();

    let mut i: usize = 0;
    assert(sections@.map_values(|x: TemplateSection| x@) =~= Seq::<(Seq<char>, Seq<char>)>::empty());
    while i < ls.len()
        invariant
            i <= ls@.len() == all.len(),
            forall|k: int| 0 <= k < ls@.len() ==> #[trigger] ls@[k]@ == all[k],
            all == lines(content@),
            dir_open@ == directive_open(),
            sec_open@ == section_open(),
            close@ == comment_close(),
            scan_lines(all, i as int) == (TemplateScan {
                sections: sections@.map_values(|x: TemplateSection| x@),
                section: opt_view(current_section),
                directive: opt_view(current_directive),
                in_directive,
                buf: buf@,
            }),
        decreases ls.len() - i,
    {
        let ghost before = scan_lines(all, i as int);
        let trimmed = trim_chars(&ls[i]);
        assert(trimmed@ == trim(all[i as int]));
        if starts_with(&trimmed, &dir_open) {
            match find_chars(&trimmed, &close) {
                Some(c) => {
                    proof {
                        lemma_close_after_open(trimmed@, directive_open());
                    }
                    let inner = slice_chars(&trimmed, dir_open.len(), c);
                    current_directive = Some(trim_chars(&inner));
                    in_directive = false;
                    buf = Vec::new();
                },
                None => {
                    in_directive = true;
                    let rest = slice_chars(&trimmed, dir_open.len(), trimmed.len());
                    assert(rest@ == trimmed@.skip(directive_open().len() as int));
                    let inner = trim_chars(&rest);
                    buf = Vec::new();
                    push_word(&mut buf, &inner);
                    assert(buf@ == word_with_space(inner@));
                },
            }
        } else if in_directive {
            if ends_with(&trimmed, &close) {
                let stripped = trim_end_matches_chars(&trimmed, &close);
                let inner = trim_chars(&stripped);
                push_word(&mut buf, &inner);
                current_directive = Some(trim_chars(&buf));
                buf = Vec::new();
                in_directive = false;
            } else {
                push_all(&mut buf, &trimmed);
                buf.push(' ');
            }
        } else if starts_with(&trimmed, &sec_open) {
            match find_chars(&trimmed, &close) {
                Some(c) => {
                    proof {
                        lemma_close_after_open(trimmed@, section_open());
                    }
                    let raw = slice_chars(&trimmed, sec_open.len(), c);
                    let name = trim_chars(&raw);
                    let ghost old_sections = sections@;
                    let sec = current_section.take();
                    let dir = current_directive.take();
                    match (sec, dir) {
                        (Some(s), Some(d)) => {
                            sections.push(
                                TemplateSection {
                                    name: string_from_chars(&s),
                                    directive: string_from_chars(&d),
                                },
                            );
                            assert(sections@.map_values(|x: TemplateSection| x@)
                                == old_sections.map_values(|x: TemplateSection| x@).push(
                                (s@, d@),
                            ));
                        },
                        _ => {},
                    }
                    current_section = Some(name);
                    current_directive = None;
                },
                None => {},
            }
        }
        i += 1;
        assert(scan_lines(all, i as int) == scan_line(before, all[i - 1]));
    }

    let ghost old_sections = sections@;
    match (current_section, current_directive) {
        (Some(s), Some(d)) => {
            sections.push(
                TemplateSection { name: string_from_chars(&s), directive: string_from_chars(&d) },
            );
            assert(sections@.map_values(|x: TemplateSection| x@) == old_sections.map_values(
                |x: TemplateSection| x@,
            ).push((s@, d@)));
        },
        _ => {},
    }
    sections
}

// ---------------------------------------------------------------------------
// Laws
// ---------------------------------------------------------------------------

pub open spec fn opt_trimmed(o: Option<Seq<char>>) -> bool {
    match o {
        Some(s) => is_trimmed(s),
        None => true,
    }
}

pub open spec fn scan_trimmed(st: TemplateScan) -> bool {
    &&& forall|k: int|
        0 <= k < st.sections.len() ==> is_trimmed(#[trigger] st.sections[k].0) && is_trimmed(
            st.sections[k].1,
        )
    &&& opt_trimmed(st.section)
    &&& opt_trimmed(st.directive)
}

proof fn lemma_scan_trimmed(ls: Seq<Seq<char>>, n: int)
    requires
        0 <= n <= ls.len(),
    ensures
        scan_trimmed(scan_lines(ls, n)),
    decreases n,
{
    if n > 0 {
        lemma_scan_trimmed(ls, n - 1);
        let st = scan_lines(ls, n - 1);
        let t = trim(ls[n - 1]);
        lemma_trim_is_trimmed(t.subrange(directive_open().len() as int, t.len() as int));
        if has_prefix(t, directive_open()) {
            if let Some(close) = find(t, comment_close()) {
                lemma_trim_is_trimmed(t.subrange(directive_open().len() as int, close));
            }
        } else if st.in_directive {
            if has_suffix(t, comment_close()) {
                let inner = trim(trim_end_matches(t, comment_close()));
                lemma_trim_is_trimmed(st.buf + word_with_space(inner));
            }
        } else if has_prefix(t, section_open()) {
            if let Some(close) = find(t, comment_close()) {
                lemma_trim_is_trimmed(t.subrange(section_open().len() as int, close));
                let p = paired(st);
                assert forall|k: int| 0 <= k < p.len() implies is_trimmed(#[trigger] p[k].0)
                    && is_trimmed(p[k].1) by {
                    if k < st.sections.len() {
                        assert(p[k] == st.sections[k]);
                    }
                }
            }
        }
    }
}

/// Every section that `parse_template` returns has a name and a directive with
/// no leading or trailing whitespace.
#[verifier::spinoff_prover]
pub proof fn law_parsed_sections_are_trimmed(content: Seq<char>)
    ensures
        forall|k: int|
            0 <= k < template_sections(content).len() ==> is_trimmed(
                #[trigger] template_sections(content)[k].0,
            ) && is_trimmed(template_sections(content)[k].1),
{
    let ls = lines(content);
    lemma_scan_trimmed(ls, ls.len() as int);
    let st = scan_lines(ls, ls.len() as int);
    let p = paired(st);
    assert(template_sections(content) == p);
    assert forall|k: int| 0 <= k < p.len() implies is_trimmed(#[trigger] p[k].0) && is_trimmed(
        p[k].1,
    ) by {
        if k < st.sections.len() {
            assert(p[k] == st.sections[k]);
        }
    }
}

/// The name in a section marker line (`<!-- section: NAME -->`), trimmed;
/// `None` for any other line.
pub open spec fn marker_name(line: Seq<char>) -> Option<Seq<char>> {
    let t = trim(line);
    if has_prefix(t, section_open()) {
        match find(t, comment_close()) {
            Some(c) => Some(trim(t.subrange(section_open().len() as int, c))),
            None => None,
        }
    } else {
        None
    }
}

/// Whether a line opens a directive comment (`<!-- directive:`).
pub open spec fn opens_directive(line: Seq<char>) -> bool {
    has_prefix(trim(line), directive_open())
}

/// The text of a directive comment that opens and closes on the line
/// (`<!-- directive: TEXT -->`), trimmed; `None` for any other line.
pub open spec fn inline_directive(line: Seq<char>) -> Option<Seq<char>> {
    let t = trim(line);
    if has_prefix(t, directive_open()) {
        match find(t, comment_close()) {
            Some(c) => Some(trim(t.subrange(directive_open().len() as int, c))),
            None => None,
        }
    } else {
        None
    }
}

/// Section `k` comes from the marker on line `m[k]` (its name) and a directive
/// comment opened on line `d[k]`, after that marker and before the marker of
/// section `k + 1`; when that directive closes on its own line, its text is
/// the section's directive.
pub open spec fn sections_placed(
    ls: Seq<Seq<char>>,
    secs: Seq<(Seq<char>, Seq<char>)>,
    m: Seq<int>,
    d: Seq<int>,
) -> bool {
    &&& m.len() == secs.len()
    &&& d.len() == secs.len()
    &&& forall|k: int|
        0 <= k < secs.len() ==> {
            &&& 0 <= #[trigger] m[k] < d[k] < ls.len()
            &&& marker_name(ls[m[k]]) == Some(secs[k].0)
            &&& opens_directive(ls[d[k]])
            &&& (inline_directive(ls[d[k]]) matches Some(x) ==> x == secs[k].1)
        }
    &&& forall|k: int| 0 <= k < secs.len() - 1 ==> #[trigger] d[k] < m[k + 1]
}

/// What the parser has seen after `n` lines, placed in the text: the
/// completed sections as in [`sections_placed`], the pending section's marker
/// on line `pm`, its directive opened on line `pd`, and a directive still open
/// from line `po`.
pub open spec fn scan_placed(
    ls: Seq<Seq<char>>,
    n: int,
    st: TemplateScan,
    m: Seq<int>,
    d: Seq<int>,
    pm: int,
    pd: int,
    po: int,
) -> bool {
    &&& sections_placed(ls, st.sections, m, d)
    &&& forall|k: int| 0 <= k < d.len() ==> #[trigger] d[k] < n
    &&& st.section matches Some(name) ==> 0 <= pm < n && marker_name(ls[pm]) == Some(name) && (
    d.len() > 0 ==> d.last() < pm)
    &&& st.directive matches Some(x) ==> (st.section is Some ==> pm < pd < n && opens_directive(
        ls[pd],
    ) && (inline_directive(ls[pd]) matches Some(y) ==> y == x))
    &&& (st.section is Some && st.in_directive) ==> pm < po < n && opens_directive(ls[po])
        && inline_directive(ls[po]) is None
}

proof fn lemma_scan_placed(ls: Seq<Seq<char>>, n: int) -> (w: (Seq<int>, Seq<int>, int, int, int))
    requires
        0 <= n <= ls.len(),
    ensures
        scan_placed(ls, n, scan_lines(ls, n), w.0, w.1, w.2, w.3, w.4),
    decreases n,
{
    if n == 0 {
        (seq![], seq![], 0, 0, 0)
    } else {
        let (m, d, pm, pd, po) = lemma_scan_placed(ls, n - 1);
        let st = scan_lines(ls, n - 1);
        let j = n - 1;
        let t = trim(ls[j]);
        assert(scan_lines(ls, n) == scan_line(st, ls[j]));
        if has_prefix(t, directive_open()) {
            match find(t, comment_close()) {
                Some(c) => (m, d, pm, j, po),
                None => (m, d, pm, pd, j),
            }
        } else if st.in_directive {
            if has_suffix(t, comment_close()) {
                (m, d, pm, po, po)
            } else {
                (m, d, pm, pd, po)
            }
        } else if has_prefix(t, section_open()) {
            match find(t, comment_close()) {
                Some(c) => {
                    match (st.section, st.directive) {
                        (Some(sec), Some(dir)) => {
                            let m2 = m.push(pm);
                            let d2 = d.push(pd);
                            let secs2 = st.sections.push((sec, dir));
                            assert(sections_placed(ls, secs2, m2, d2)) by {
                                assert forall|k: int| 0 <= k < secs2.len() - 1 implies #[trigger] d2[k]
                                    < m2[k + 1] by {
                                    if k < secs2.len() - 2 {
                                        assert(d2[k] == d[k] && m2[k + 1] == m[k + 1]);
                                    } else {
                                        assert(d2[k] == d.last());
                                    }
                                }
                                assert forall|k: int| 0 <= k < secs2.len() implies {
                                    &&& 0 <= #[trigger] m2[k] < d2[k] < ls.len()
                                    &&& marker_name(ls[m2[k]]) == Some(secs2[k].0)
                                    &&& opens_directive(ls[d2[k]])
                                    &&& (inline_directive(ls[d2[k]]) matches Some(x) ==> x
                                        == secs2[k].1)
                                } by {
                                    if k < secs2.len() - 1 {
                                        assert(m2[k] == m[k] && d2[k] == d[k] && secs2[k]
                                            == st.sections[k]);
                                    }
                                }
                            }
                            assert forall|k: int| 0 <= k < d2.len() implies #[trigger] d2[k] < n by {
                                if k < d.len() {
                                    assert(d2[k] == d[k]);
                                }
                            }
                            (m2, d2, j, pd, po)
                        },
                        _ => (m, d, j, pd, po),
                    }
                },
                None => (m, d, pm, pd, po),
            }
        } else {
            (m, d, pm, pd, po)
        }
    }
}

/// Every section `parse_template` returns is tied to its place in the text:
/// its name is that of a section marker line, and its directive comes from a
/// directive comment that opens after that marker and before the marker of
/// the next returned section; a directive that opens and closes on one line
/// gives exactly its text. So no directive serves two sections, and a marker
/// with no directive before the next marker gives no section. The result is
/// the marker and directive lines of each section.
pub proof fn law_sections_pair_markers_with_directives(content: Seq<char>) -> (w: (
    Seq<int>,
    Seq<int>,
))
    ensures
        sections_placed(lines(content), template_sections(content), w.0, w.1),
{
    let ls = lines(content);
    let (m, d, pm, pd, po) = lemma_scan_placed(ls, ls.len() as int);
    let st = scan_lines(ls, ls.len() as int);
    match (st.section, st.directive) {
        (Some(sec), Some(dir)) => {
            let m2 = m.push(pm);
            let d2 = d.push(pd);
            let secs2 = st.sections.push((sec, dir));
            assert(template_sections(content) == secs2);
            assert forall|k: int| 0 <= k < secs2.len() - 1 implies #[trigger] d2[k] < m2[k + 1] by {
                if k < secs2.len() - 2 {
                    assert(d2[k] == d[k] && m2[k + 1] == m[k + 1]);
                } else {
                    assert(d2[k] == d.last());
                }
            }
            assert forall|k: int| 0 <= k < secs2.len() implies {
                &&& 0 <= #[trigger] m2[k] < d2[k] < ls.len()
                &&& marker_name(ls[m2[k]]) == Some(secs2[k].0)
                &&& opens_directive(ls[d2[k]])
                &&& (inline_directive(ls[d2[k]]) matches Some(x) ==> x == secs2[k].1)
            } by {
                if k < secs2.len() - 1 {
                    assert(m2[k] == m[k] && d2[k] == d[k] && secs2[k] == st.sections[k]);
                }
            }
            (m2, d2)
        },
        _ => (m, d),
    }
}

/// A line the parser passes over when no directive is open: it neither opens
/// a directive nor is a section marker.
pub open spec fn plain_line(line: Seq<char>) -> bool {
    !opens_directive(line) && marker_name(line) is None
}

proof fn lemma_no_open_directive(ls: Seq<Seq<char>>, n: int)
    requires
        0 <= n <= ls.len(),
        forall|i: int| 0 <= i < n && opens_directive(#[trigger] ls[i]) ==> inline_directive(ls[i]) is Some,
    ensures
        !scan_lines(ls, n).in_directive,
    decreases n,
{
    if n > 0 {
        lemma_no_open_directive(ls, n - 1);
        assert(scan_lines(ls, n) == scan_line(scan_lines(ls, n - 1), ls[n - 1]));
    }
}

proof fn lemma_plain_lines_skipped(ls: Seq<Seq<char>>, a: int, b: int)
    requires
        0 <= a <= b <= ls.len(),
        !scan_lines(ls, a).in_directive,
        forall|i: int| a <= i < b ==> plain_line(#[trigger] ls[i]),
    ensures
        scan_lines(ls, b) == scan_lines(ls, a),
    decreases b - a,
{
    if a < b {
        lemma_plain_lines_skipped(ls, a, b - 1);
        assert(plain_line(ls[b - 1]));
        assert(scan_lines(ls, b) == scan_line(scan_lines(ls, b - 1), ls[b - 1]));
    }
}

proof fn lemma_sections_grow(ls: Seq<Seq<char>>, a: int, b: int)
    requires
        0 <= a <= b <= ls.len(),
    ensures
        scan_lines(ls, a).sections.is_prefix_of(scan_lines(ls, b).sections),
    decreases b - a,
{
    if a < b {
        lemma_sections_grow(ls, a, b - 1);
        let st = scan_lines(ls, b - 1);
        assert(scan_lines(ls, b) == scan_line(st, ls[b - 1]));
        assert(st.sections.is_prefix_of(paired(st)));
        let x = scan_lines(ls, a).sections;
        assert(x =~= scan_lines(ls, b).sections.subrange(0, x.len() as int));
    }
}

/// A section written plainly is always returned: when line `m` is a section
/// marker, line `d` after it holds a whole directive comment, every line
/// between the marker and the next marker (line `e`, or the end of the text)
/// other than `d` is plain, and no directive left open before the marker,
/// then the section's name and that directive are among the sections.
pub proof fn law_plain_sections_are_found(content: Seq<char>, m: int, d: int, e: int)
    requires
        0 <= m < d < e <= lines(content).len(),
        marker_name(lines(content)[m]) is Some,
        inline_directive(lines(content)[d]) is Some,
        e == lines(content).len() || marker_name(lines(content)[e]) is Some,
        forall|i: int|
            m < i < e && i != d ==> plain_line(#[trigger] lines(content)[i]),
        forall|i: int|
            0 <= i < m && opens_directive(#[trigger] lines(content)[i]) ==> inline_directive(
                lines(content)[i],
            ) is Some,
    ensures
        template_sections(content).contains(
            (marker_name(lines(content)[m])->0, inline_directive(lines(content)[d])->0),
        ),
{
    let ls = lines(content);
    let name = marker_name(ls[m])->0;
    let dir = inline_directive(ls[d])->0;
    lemma_no_open_directive(ls, m);
    let s0 = scan_lines(ls, m);
    let t = trim(ls[m]);
    reveal_strlit("<!-- directive:");
    reveal_strlit("<!-- section:");
    assert(!has_prefix(t, directive_open())) by {
        if has_prefix(t, directive_open()) {
            assert(t.take(13)[5] == t[5]);
            assert(t.take(15)[5] == t[5]);
        }
    }
    assert(scan_lines(ls, m + 1) == scan_line(s0, ls[m]));
    let s1 = scan_lines(ls, m + 1);
    assert(s1.section == Some(name) && !s1.in_directive);
    lemma_plain_lines_skipped(ls, m + 1, d);
    assert(scan_lines(ls, d + 1) == scan_line(scan_lines(ls, d), ls[d]));
    let s2 = scan_lines(ls, d + 1);
    assert(s2.section == Some(name) && s2.directive == Some(dir) && !s2.in_directive);
    lemma_plain_lines_skipped(ls, d + 1, e);
    let pair = (name, dir);
    if e == ls.len() {
        assert(template_sections(content) == s2.sections.push(pair));
        assert(template_sections(content)[s2.sections.len() as int] == pair);
    } else {
        let te = trim(ls[e]);
        assert(!has_prefix(te, directive_open())) by {
            if has_prefix(te, directive_open()) {
                assert(te.take(13)[5] == te[5]);
                assert(te.take(15)[5] == te[5]);
            }
        }
        assert(scan_lines(ls, e + 1) == scan_line(s2, ls[e]));
        let s3 = scan_lines(ls, e + 1);
        assert(s3.sections == s2.sections.push(pair));
        lemma_sections_grow(ls, e + 1, ls.len() as int);
        let fin = scan_lines(ls, ls.len() as int);
        assert(fin.sections[s2.sections.len() as int] == s3.sections[s2.sections.len() as int]);
        assert(template_sections(content) == paired(fin));
        assert(fin.sections.is_prefix_of(paired(fin)));
        assert(template_sections(content)[s2.sections.len() as int] == pair);
    }
}

/// The lines `a..b`, each trimmed and followed by a space, one after another.
pub open spec fn spaced_words(ls: Seq<Seq<char>>, a: int, b: int) -> Seq<char>
    decreases b - a,
{
    if b <= a {
        seq![]
    } else {
        spaced_words(ls, a, b - 1) + trim(ls[b - 1]).push(' ')
    }
}

proof fn lemma_directive_open_has_no_close()
    ensures
        find(directive_open(), comment_close()) is None,
{
    reveal_strlit("<!-- directive:");
    reveal_strlit("-->");
    let s = directive_open();
    lemma_find_from(s, comment_close(), 0);
    if let Some(k) = find(s, comment_close()) {
        assert(occurs_at(s, comment_close(), k));
        assert(s.subrange(k, k + 3)[2] == s[k + 2]);
        assert(s[k + 2] == '>');
        assert(false);
    }
}

proof fn lemma_inner_lines(ls: Seq<Seq<char>>, d: int, i: int, st: TemplateScan)
    requires
        0 <= d < i <= ls.len(),
        scan_lines(ls, d + 1) == st,
        st.in_directive,
        st.buf.len() == 0,
        forall|j: int|
            d < j < i ==> !opens_directive(#[trigger] ls[j]) && !has_suffix(
                trim(ls[j]),
                comment_close(),
            ),
    ensures
        scan_lines(ls, i) == (TemplateScan { buf: spaced_words(ls, d + 1, i), ..st }),
    decreases i - d,
{
    if i == d + 1 {
        assert(spaced_words(ls, d + 1, i) =~= Seq::<char>::empty());
        assert(st == (TemplateScan { buf: spaced_words(ls, d + 1, i), ..st }));
    } else {
        lemma_inner_lines(ls, d, i - 1, st);
        assert(!opens_directive(ls[i - 1]));
        assert(scan_lines(ls, i) == scan_line(scan_lines(ls, i - 1), ls[i - 1]));
    }
}

/// A section whose directive spans several lines is returned with those lines
/// as its directive: when line `m` is a section marker, line `d` after it is
/// exactly `<!-- directive:`, the lines after it up to line `c` neither open a
/// directive nor end with `-->`, line `c` is exactly `-->`, every other line
/// between the marker and the next marker (line `e`, or the end of the text)
/// is plain, and no directive is left open before the marker, then the
/// section's name is among the sections with the lines between `d` and `c`,
/// each trimmed and followed by a space, trimmed as a whole, as its directive.
pub proof fn law_multiline_directives_are_joined(content: Seq<char>, m: int, d: int, c: int, e: int)
    requires
        0 <= m < d < c < e <= lines(content).len(),
        marker_name(lines(content)[m]) is Some,
        trim(lines(content)[d]) == directive_open(),
        forall|i: int|
            d < i < c ==> !opens_directive(#[trigger] lines(content)[i]) && !has_suffix(
                trim(lines(content)[i]),
                comment_close(),
            ),
        trim(lines(content)[c]) == comment_close(),
        e == lines(content).len() || marker_name(lines(content)[e]) is Some,
        forall|i: int| (m < i < d || c < i < e) ==> plain_line(#[trigger] lines(content)[i]),
        forall|i: int|
            0 <= i < m && opens_directive(#[trigger] lines(content)[i]) ==> inline_directive(
                lines(content)[i],
            ) is Some,
    ensures
        template_sections(content).contains(
            (marker_name(lines(content)[m])->0, trim(spaced_words(lines(content), d + 1, c))),
        ),
{
    let ls = lines(content);
    let name = marker_name(ls[m])->0;
    let dir = trim(spaced_words(ls, d + 1, c));
    lemma_no_open_directive(ls, m);
    let s0 = scan_lines(ls, m);
    let t = trim(ls[m]);
    reveal_strlit("<!-- directive:");
    reveal_strlit("<!-- section:");
    reveal_strlit("-->");
    assert(!has_prefix(t, directive_open())) by {
        if has_prefix(t, directive_open()) {
            assert(t.take(13)[5] == t[5]);
            assert(t.take(15)[5] == t[5]);
        }
    }
    assert(scan_lines(ls, m + 1) == scan_line(s0, ls[m]));
    let s1 = scan_lines(ls, m + 1);
    assert(s1.section == Some(name) && !s1.in_directive);
    assert forall|i: int| m + 1 <= i < d implies plain_line(#[trigger] ls[i]) by {}
    lemma_plain_lines_skipped(ls, m + 1, d);
    lemma_directive_open_has_no_close();
    let td = trim(ls[d]);
    assert(td.take(15) =~= td);
    assert(td.skip(15) =~= Seq::<char>::empty());
    assert(trim_start(Seq::<char>::empty()) == Seq::<char>::empty());
    assert(trim(Seq::<char>::empty()) == Seq::<char>::empty());
    assert(scan_lines(ls, d + 1) == scan_line(scan_lines(ls, d), ls[d]));
    let s2 = scan_lines(ls, d + 1);
    assert(s2.in_directive && s2.buf.len() == 0 && s2.section == Some(name));
    lemma_inner_lines(ls, d, c, s2);
    let s3 = scan_lines(ls, c);
    let tc = trim(ls[c]);
    assert(!has_prefix(tc, directive_open()));
    assert(tc.skip(0) =~= tc);
    assert(has_suffix(tc, comment_close()));
    assert(tc.take(0) =~= Seq::<char>::empty());
    assert(trim_end_matches(Seq::<char>::empty(), comment_close()) == Seq::<char>::empty());
    assert(trim_end_matches(tc, comment_close()) == Seq::<char>::empty());
    assert(spaced_words(ls, d + 1, c) + word_with_space(Seq::<char>::empty()) =~= spaced_words(
        ls,
        d + 1,
        c,
    ));
    assert(scan_lines(ls, c + 1) == scan_line(s3, ls[c]));
    let s4 = scan_lines(ls, c + 1);
    assert(s4.section == Some(name) && s4.directive == Some(dir) && !s4.in_directive);
    assert forall|i: int| c + 1 <= i < e implies plain_line(#[trigger] ls[i]) by {}
    lemma_plain_lines_skipped(ls, c + 1, e);
    let pair = (name, dir);
    if e == ls.len() {
        assert(template_sections(content) == s4.sections.push(pair));
        assert(template_sections(content)[s4.sections.len() as int] == pair);
    } else {
        let te = trim(ls[e]);
        assert(!has_prefix(te, directive_open())) by {
            if has_prefix(te, directive_open()) {
                assert(te.take(13)[5] == te[5]);
                assert(te.take(15)[5] == te[5]);
            }
        }
        assert(scan_lines(ls, e + 1) == scan_line(s4, ls[e]));
        let s5 = scan_lines(ls, e + 1);
        assert(s5.sections == s4.sections.push(pair));
        lemma_sections_grow(ls, e + 1, ls.len() as int);
        let fin = scan_lines(ls, ls.len() as int);
        assert(fin.sections[s4.sections.len() as int] == s5.sections[s4.sections.len() as int]);
        assert(template_sections(content) == paired(fin));
        assert(fin.sections.is_prefix_of(paired(fin)));
        assert(template_sections(content)[s4.sections.len() as int] == pair);
    }
}

} // verus!
