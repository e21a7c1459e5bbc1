//! The parts of a tree-sitter syntax tree that chunking reads, and the calls
//! into tree-sitter that produce them.
use vstd::prelude::*;

use crate::text::eq_str;

verus! {

/// The rows (0-based, inclusive) that a syntax node spans.
pub struct RowSpan {
    pub start_row: usize,
    pub end_row: usize,
}

/// A top-level node of a parsed file: its grammar kind, the rows it spans and
/// the row spans of its direct children.
pub struct SyntaxNode {
    pub kind: String,
    pub start_row: usize,
    pub end_row: usize,
    pub children: Vec<RowSpan>,
}

/// The mathematical value of a [`SyntaxNode`].
pub struct SyntaxNodeView {
    pub kind: Seq<char>,
    pub start_row: nat,
    pub end_row: nat,
    pub children: Seq<(nat, nat)>,
}

impl View for SyntaxNode {
    type V = SyntaxNodeView;

    open spec fn view(&self) -> SyntaxNodeView {
        SyntaxNodeView {
            kind: self.kind@,
            start_row: self.start_row as nat,
            end_row: self.end_row as nat,
            children: self.children@.map_values(
                |c: RowSpan| (c.start_row as nat, c.end_row as nat),
            ),
        }
    }
}

pub open spec fn node_views(v: Seq<SyntaxNode>) -> Seq<SyntaxNodeView> {
    v.map_values(|n: SyntaxNode| n@)
}

/// Every row number in the nodes is below `bound`.
pub open spec fn rows_below(nodes: Seq<SyntaxNodeView>, bound: nat) -> bool {
    forall|i: int|
        0 <= i < nodes.len() ==> {
            &&& #[trigger] nodes[i].start_row < bound
            &&& nodes[i].end_row < bound
            &&& forall|j: int|
                0 <= j < nodes[i].children.len() ==> #[trigger] nodes[i].children[j].0 < bound
                    && nodes[i].children[j].1 < bound
        }
}

#[verifier::external_type_specification]
#[verifier::external_body]
pub struct ExLanguage(tree_sitter::Language);

#[verifier::external_type_specification]
#[verifier::external_body]
pub struct ExTree(tree_sitter::Tree);

/// `tree_sitter_rust::LANGUAGE`, converted into a `tree_sitter::Language`.
#[verifier::external_body]
fn grammar_rust() -> tree_sitter::Language {
    tree_sitter_rust::LANGUAGE.into()
}

/// `tree_sitter_typescript::LANGUAGE_TYPESCRIPT`, converted into a `tree_sitter::Language`.
#[verifier::external_body]
fn grammar_typescript() -> tree_sitter::Language {
    tree_sitter_typescript::LANGUAGE_TYPESCRIPT.into()
}

/// `tree_sitter_typescript::LANGUAGE_TSX`, converted into a `tree_sitter::Language`.
#[verifier::external_body]
fn grammar_tsx() -> tree_sitter::Language {
    tree_sitter_typescript::LANGUAGE_TSX.into()
}

/// `tree_sitter_javascript::LANGUAGE`, converted into a `tree_sitter::Language`.
#[verifier::external_body]
fn grammar_javascript() -> tree_sitter::Language {
    tree_sitter_javascript::LANGUAGE.into()
}

/// `tree_sitter_python::LANGUAGE`, converted into a `tree_sitter::Language`.
#[verifier::external_body]
fn grammar_python() -> tree_sitter::Language {
    tree_sitter_python::LANGUAGE.into()
}

/// `tree_sitter_go::LANGUAGE`, converted into a `tree_sitter::Language`.
#[verifier::external_body]
fn grammar_go() -> tree_sitter::Language {
    tree_sitter_go::LANGUAGE.into()
}

/// `tree_sitter_java::LANGUAGE`, converted into a `tree_sitter::Language`.
#[verifier::external_body]
fn grammar_java() -> tree_sitter::Language {
    tree_sitter_java::LANGUAGE.into()
}

/// `tree_sitter_c_sharp::LANGUAGE`, converted into a `tree_sitter::Language`.
#[verifier::external_body]
fn grammar_c_sharp() -> tree_sitter::Language {
    tree_sitter_c_sharp::LANGUAGE.into()
}

/// Whether a tree-sitter grammar is bundled for the language identifier.
pub open spec fn has_grammar(language: Seq<char>) -> bool {
    language == "rust"@ || language == "typescript"@ || language == "tsx"@ || language
        == "javascript"@ || language == "python"@ || language == "go"@ || language == "java"@
        || language == "c_sharp"@
}

/// The grammars bundled with the library.
#[derive(Clone, Copy, PartialEq, Eq, Structural)]
pub enum Grammar {
    Rust,
    TypeScript,
    Tsx,
    JavaScript,
    Python,
    Go,
    Java,
    CSharp,
}

/// The grammar bundled for a language identifier.
pub open spec fn grammar_of(language: Seq<char>) -> Option<Grammar> {
    if language == "rust"@ {
        Some(Grammar::Rust)
    } else if language == "typescript"@ {
        Some(Grammar::TypeScript)
    } else if language == "tsx"@ {
        Some(Grammar::Tsx)
    } else if language == "javascript"@ {
        Some(Grammar::JavaScript)
    } else if language == "python"@ {
        Some(Grammar::Python)
    } else if language == "go"@ {
        Some(Grammar::Go)
    } else if language == "java"@ {
        Some(Grammar::Java)
    } else if language == "c_sharp"@ {
        Some(Grammar::CSharp)
    } else {
        None
    }
}

/// The grammar bundled for a language identifier, when there is one.
pub fn grammar_for(lang: &Vec<char>) -> (r: Option<Grammar>)
    ensures
        r == grammar_of(lang@),
{
    if eq_str(lang, "rust") {
        Some(Grammar::Rust)
    } else if eq_str(lang, "typescript") {
        Some(Grammar::TypeScript)
    } else if eq_str(lang, "tsx") {
        Some(Grammar::Tsx)
    } else if eq_str(lang, "javascript") {
        Some(Grammar::JavaScript)
    } else if eq_str(lang, "python") {
        Some(Grammar::Python)
    } else if eq_str(lang, "go") {
        Some(Grammar::Go)
    } else if eq_str(lang, "java") {
        Some(Grammar::Java)
    } else if eq_str(lang, "c_sharp") {
        Some(Grammar::CSharp)
    } else {
        None
    }
}

/// The tree-sitter language of a bundled grammar.
fn grammar_language(g: Grammar) -> tree_sitter::Language {
    match g {
        Grammar::Rust => grammar_rust(),
        Grammar::TypeScript => grammar_typescript(),
        Grammar::Tsx => grammar_tsx(),
        Grammar::JavaScript => grammar_javascript(),
        Grammar::Python => grammar_python(),
        Grammar::Go => grammar_go(),
        Grammar::Java => grammar_java(),
        Grammar::CSharp => grammar_c_sharp(),
    }
}

/// Every node and every child starts no later than it ends.
pub open spec fn rows_ordered(nodes: Seq<SyntaxNodeView>) -> bool {
    forall|i: int|
        0 <= i < nodes.len() ==> {
            &&& #[trigger] nodes[i].start_row <= nodes[i].end_row
            &&& forall|j: int|
                0 <= j < nodes[i].children.len() ==> #[trigger] nodes[i].children[j].0
                    <= nodes[i].children[j].1
        }
}

/// Spans in document order: none starts on a row before the previous one ends.
pub open spec fn spans_in_order(spans: Seq<(nat, nat)>) -> bool {
    forall|i: int, j: int|
        #![trigger spans[i], spans[j]]
        0 <= i < j < spans.len() ==> spans[i].1 <= spans[j].0
}

/// Nodes in document order, and the children of each node too.
pub open spec fn nodes_in_order(nodes: Seq<SyntaxNodeView>) -> bool {
    &&& forall|i: int, j: int|
        #![trigger nodes[i], nodes[j]]
        0 <= i < j < nodes.len() ==> nodes[i].end_row <= nodes[j].start_row
    &&& forall|i: int| 0 <= i < nodes.len() ==> spans_in_order(#[trigger] nodes[i].children)
}

/// The top-level nodes tree-sitter finds when it parses `source` with a
/// bundled grammar: the children of the root, each with its kind, its rows
/// and its own children's rows. Parsing is a function of the grammar and the
/// text alone.
pub uninterp spec fn top_level_syntax(grammar: Grammar, source: Seq<char>) -> Seq<SyntaxNodeView>;

/// A bundled grammar's tree-sitter language, kept together with which grammar
/// it is. Only [`bundled_language`] makes one, so the two always agree.
pub struct BundledLanguage {
    grammar: Grammar,
    language: tree_sitter::Language,
}

impl BundledLanguage {
    /// Which grammar the language is.
    pub closed spec fn grammar(&self) -> Grammar {
        self.grammar
    }
}

/// The tree-sitter language of a bundled grammar, with the grammar it is.
pub fn bundled_language(g: Grammar) -> (r: BundledLanguage)
    ensures
        r.grammar() == g,
{
    let language = grammar_language(g);
    BundledLanguage { grammar: g, language }
}

/// The tree-sitter language for a language identifier: that of its bundled
/// grammar ([`grammar_for`]), together with which grammar it is; `None` when
/// no grammar is bundled for the identifier.
pub fn get_language(lang: &Vec<char>) -> (r: Option<BundledLanguage>)
    ensures
        r is Some <==> grammar_of(lang@) is Some,
        r is Some <==> has_grammar(lang@),
        r matches Some(b) ==> Some(b.grammar()) == grammar_of(lang@),
{
    match grammar_for(lang) {
        Some(g) => Some(bundled_language(g)),
        None => None,
    }
}

/// Parses `source` with a new `tree_sitter::Parser` set to the language
/// (`Parser::new`, `Parser::set_language`, `Parser::parse`) and lists the
/// children of the root (`Tree::root_node`, `Node::children`) with their
/// kinds and rows. Every bundled grammar has an ABI version that tree-sitter
/// accepts (14 or 15, within 13..=15) and a lexer, so `set_language`
/// succeeds; and `parse` without a timeout, cancellation or progress callback
/// gives `None` only when no language is set, so the result is always there.
/// tree-sitter keeps rows as `u32` (`TSPoint::row`), a node's end point
/// never comes before its start, and `Node::children` lists siblings in
/// document order, each starting at or after the end of the one before it.
#[verifier::external_body]
pub(crate) fn parse_top_level(lang: &BundledLanguage, source: &str) -> (r: Option<Vec<SyntaxNode>>)
    ensures
        r is Some,
        r matches Some(v) ==> node_views(v@) == top_level_syntax(lang.grammar(), source@),
        r matches Some(v) ==> rows_ordered(node_views(v@)),
        r matches Some(v) ==> rows_below(node_views(v@), u32::MAX as nat + 1),
        r matches Some(v) ==> nodes_in_order(node_views(v@)),
{
    let mut parser = tree_sitter::Parser::new();
    parser.set_language(&lang.language).ok()?;
    let tree = parser.parse(source, None)?;
    let root = tree.root_node();
    let mut cursor = root.walk();
    Some(root.children(&mut cursor).map(|n| {
        let mut inner = n.walk();
        let children = n.children(&mut inner)
            .map(|k| RowSpan { start_row: k.start_position().row, end_row: k.end_position().row })
            .collect();
        let (start_row, end_row) = (n.start_position().row, n.end_position().row);
        SyntaxNode { kind: n.kind().to_string(), start_row, end_row, children }
    }).collect())
}

} // verus!
