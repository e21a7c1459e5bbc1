//! Splitting source files into chunks for retrieval: by language-aware syntax
//! nodes when a grammar is available, and by overlapping line windows otherwise.
use vstd::prelude::*;

use crate::syntax::{
    get_language, grammar_of, has_grammar, node_views, nodes_in_order, parse_top_level,
    rows_below, rows_ordered, spans_in_order, top_level_syntax, RowSpan, SyntaxNode,
    SyntaxNodeView,
};
use crate::text::{
    chars_of, eq_str, join, join_chars, lines, push_all, push_decimal, push_str, slice_chars,
    split_lines, string_from_chars, utf8_len, utf8_len_exceeds, decimal,
};

verus! {

/// A piece of a source file, with the 1-based line range it covers.
pub struct CodeChunk {
    pub file_path: String,
    pub start_line: usize,
    pub end_line: usize,
    pub content: String,
    pub language: String,
}

/// The mathematical value of a [`CodeChunk`].
pub struct ChunkView {
    pub file_path: Seq<char>,
    pub start_line: nat,
    pub end_line: nat,
    pub content: Seq<char>,
    pub language: Seq<char>,
}

impl View for CodeChunk {
    type V = ChunkView;

    open spec fn view(&self) -> ChunkView {
        ChunkView {
            file_path: self.file_path@,
            start_line: self.start_line as nat,
            end_line: self.end_line as nat,
            content: self.content@,
            language: self.language@,
        }
    }
}

pub open spec fn chunk_views(v: Seq<CodeChunk>) -> Seq<ChunkView> {
    v.map_values(|c: CodeChunk| c@)
}

// ---------------------------------------------------------------------------
// Language detection
// ---------------------------------------------------------------------------

/// Position of the last occurrence of `c` in `s`.
pub open spec fn rfind_char(s: Seq<char>, c: char) -> Option<int>
    decreases s.len(),
{
    if s.len() == 0 {
        None
    } else if s.last() == c {
        Some(s.len() - 1)
    } else {
        rfind_char(s.drop_last(), c)
    }
}

/// The final component of a `/`-separated path, as `Path::file_name` gives it:
/// empty components and `.` are skipped, and `..` (or no component) gives none.
pub open spec fn file_name(p: Seq<char>) -> Option<Seq<char>>
    decreases p.len(),
{
    match rfind_char(p, '/') {
        Some(k) => {
            let seg = p.skip(k + 1);
            if 0 <= k < p.len() && (seg.len() == 0 || seg == seq!['.']) {
                file_name(p.take(k))
            } else if seg == seq!['.', '.'] {
                None
            } else {
                Some(seg)
            }
        },
        None => if p.len() == 0 || p == seq!['.'] || p == seq!['.', '.'] {
            None
        } else {
            Some(p)
        },
    }
}

/// The extension of a file name (`Path::extension`): the text after the last
/// `.`, unless that `.` starts the name.
pub open spec fn extension(name: Seq<char>) -> Option<Seq<char>> {
    match rfind_char(name, '.') {
        Some(k) => if k == 0 {
            None
        } else {
            Some(name.skip(k + 1))
        },
        None => None,
    }
}

/// The language identifier for a file extension.
pub open spec fn language_for_extension(ext: Seq<char>) -> Option<Seq<char>> {
    if ext == "rs"@ {
        Some("rust"@)
    } else if ext == "ts"@ {
        Some("typescript"@)
    } else if ext == "tsx"@ {
        Some("tsx"@)
    } else if ext == "js"@ || ext == "jsx"@ || ext == "mjs"@ {
        Some("javascript"@)
    } else if ext == "py"@ {
        Some("python"@)
    } else if ext == "go"@ {
        Some("go"@)
    } else if ext == "java"@ {
        Some("java"@)
    } else if ext == "cs"@ {
        Some("c_sharp"@)
    } else {
        None
    }
}

/// The language of a file, decided by its extension.
pub open spec fn language_for_path(p: Seq<char>) -> Option<Seq<char>> {
    match file_name(p) {
        Some(n) => match extension(n) {
            Some(e) => language_for_extension(e),
            None => None,
        },
        None => None,
    }
}

pub open spec fn opt_str_view(o: Option<&str>) -> Option<Seq<char>> {
    match o {
        Some(s) => Some(s@),
        None => None,
    }
}

/// Position of the last occurrence of `c` in `v`.
pub fn rfind_char_in(v: &Vec<char>, c: char) -> (r: Option<usize>)
    ensures
        match r {
            Some(k) => rfind_char(v@, c) == Some(k as int) && k < v.len(),
            None => rfind_char(v@, c) is None,
        },
{
    let mut j = v.len();
    assert(v@.take(j as int) == v@);
    while j > 0
        invariant
            j <= v@.len(),
            rfind_char(v@, c) == rfind_char(v@.take(j as int), c),
        decreases j,
    {
        if v[j - 1] == c {
            return Some(j - 1);
        }
        assert(v@.take(j as int).drop_last() == v@.take(j - 1));
        j -= 1;
    }
    None
}

pub fn file_name_of(p: &Vec<char>) -> (r: Option<Vec<char>>)
    ensures
        match r {
            Some(n) => file_name(p@) == Some(n@),
            None => file_name(p@) is None,
        },
    decreases p@.len(),
{
    match rfind_char_in(p, '/') {
        Some(k) => {
            let seg = slice_chars(p, k + 1, p.len());
            assert(seg@ == p@.skip(k + 1));
            if seg.len() == 0 || (seg.len() == 1 && seg[0] == '.') {
                proof {
                    if seg.len() == 1 {
                        assert(seg@ == seq!['.']);
                    }
                }
                let head = slice_chars(p, 0, k);
                assert(head@ == p@.take(k as int));
                file_name_of(&head)
            } else if seg.len() == 2 && seg[0] == '.' && seg[1] == '.' {
                assert(seg@ == seq!['.', '.']);
                None
            } else {
                proof {
                    if seg@ == seq!['.'] {
                        assert(seg@[0] == '.');
                    }
                    if seg@ == seq!['.', '.'] {
                        assert(seg@[0] == '.' && seg@[1] == '.');
                    }
                }
                Some(seg)
            }
        },
        None => {
            if p.len() == 0 || (p.len() == 1 && p[0] == '.') || (p.len() == 2 && p[0] == '.'
                && p[1] == '.') {
                proof {
                    if p.len() == 1 {
                        assert(p@ == seq!['.']);
                    }
                    if p.len() == 2 {
                        assert(p@ == seq!['.', '.']);
                    }
                }
                None
            } else {
                proof {
                    if p@ == seq!['.'] {
                        assert(p@[0] == '.');
                    }
                    if p@ == seq!['.', '.'] {
                        assert(p@[0] == '.' && p@[1] == '.');
                    }
                }
                let n = slice_chars(p, 0, p.len());
                assert(n@ == p@);
                Some(n)
            }
        },
    }
}

pub fn extension_of(name: &Vec<char>) -> (r: Option<Vec<char>>)
    ensures
        match r {
            Some(e) => extension(name@) == Some(e@),
            None => extension(name@) is None,
        },
{
    match rfind_char_in(name, '.') {
        Some(k) => if k == 0 {
            None
        } else {
            let e = slice_chars(name, k + 1, name.len());
            assert(e@ == name@.skip(k + 1));
            Some(e)
        },
        None => None,
    }
}

fn language_for_ext(ext: &Vec<char>) -> (r: Option<&'static str>)
    ensures
        opt_str_view(r) == language_for_extension(ext@),
{
    if eq_str(ext, "rs") {
        Some("rust")
    } else if eq_str(ext, "ts") {
        Some("typescript")
    } else if eq_str(ext, "tsx") {
        Some("tsx")
    } else if eq_str(ext, "js") || eq_str(ext, "jsx") || eq_str(ext, "mjs") {
        Some("javascript")
    } else if eq_str(ext, "py") {
        Some("python")
    } else if eq_str(ext, "go") {
        Some("go")
    } else if eq_str(ext, "java") {
        Some("java")
    } else if eq_str(ext, "cs") {
        Some("c_sharp")
    } else {
        None
    }
}

/// The language of a source file, from its extension: `rust`, `typescript`,
/// `tsx`, `javascript`, `python`, `go`, `java` or `c_sharp`; `None` for any
/// other file.
pub fn detect_language(file_path: &str) -> (r: Option<&'static str>)
    ensures
        opt_str_view(r) == language_for_path(file_path@),
{
    let p = chars_of(file_path);
    match file_name_of(&p) {
        Some(n) => match extension_of(&n) {
            Some(e) => language_for_ext(&e),
            None => None,
        },
        None => None,
    }
}

// ---------------------------------------------------------------------------
// Chunk construction
// ---------------------------------------------------------------------------

/// Whether a top-level syntax node of kind `kind` is a unit worth its own chunk
/// (a function, type, class, module and the like) in `language`.
pub open spec fn substantial(kind: Seq<char>, language: Seq<char>) -> bool {
    if language == "rust"@ {
        kind == "function_item"@ || kind == "struct_item"@ || kind == "enum_item"@ || kind
            == "impl_item"@ || kind == "trait_item"@ || kind == "mod_item"@
    } else if language == "typescript"@ || language == "tsx"@ || language == "javascript"@ {
        kind == "function_declaration"@ || kind == "class_declaration"@ || kind
            == "export_statement"@ || kind == "interface_declaration"@ || kind
            == "type_alias_declaration"@ || kind == "enum_declaration"@
    } else if language == "python"@ {
        kind == "function_definition"@ || kind == "class_definition"@ || kind
            == "decorated_definition"@
    } else if language == "go"@ {
        kind == "function_declaration"@ || kind == "method_declaration"@ || kind
            == "type_declaration"@
    } else if language == "java"@ || language == "c_sharp"@ {
        kind == "class_declaration"@ || kind == "interface_declaration"@ || kind
            == "enum_declaration"@ || kind == "method_declaration"@ || kind
            == "struct_declaration"@ || kind == "namespace_declaration"@
    } else {
        false
    }
}

pub fn is_substantial(kind: &Vec<char>, language: &Vec<char>) -> (r: bool)
    ensures
        r == substantial(kind@, language@),
{
    if eq_str(language, "rust") {
        eq_str(kind, "function_item") || eq_str(kind, "struct_item") || eq_str(kind, "enum_item")
            || eq_str(kind, "impl_item") || eq_str(kind, "trait_item") || eq_str(
            kind,
            "mod_item",
        )
    } else if eq_str(language, "typescript") || eq_str(language, "tsx") || eq_str(
        language,
        "javascript",
    ) {
        eq_str(kind, "function_declaration") || eq_str(kind, "class_declaration") || eq_str(
            kind,
            "export_statement",
        ) || eq_str(kind, "interface_declaration") || eq_str(kind, "type_alias_declaration")
            || eq_str(kind, "enum_declaration")
    } else if eq_str(language, "python") {
        eq_str(kind, "function_definition") || eq_str(kind, "class_definition") || eq_str(
            kind,
            "decorated_definition",
        )
    } else if eq_str(language, "go") {
        eq_str(kind, "function_declaration") || eq_str(kind, "method_declaration") || eq_str(
            kind,
            "type_declaration",
        )
    } else if eq_str(language, "java") || eq_str(language, "c_sharp") {
        eq_str(kind, "class_declaration") || eq_str(kind, "interface_declaration") || eq_str(
            kind,
            "enum_declaration",
        ) || eq_str(kind, "method_declaration") || eq_str(kind, "struct_declaration")
            || eq_str(kind, "namespace_declaration")
    } else {
        false
    }
}

/// The header line that starts every chunk: `// File: {path} | Lines: {start}-{end}`.
pub open spec fn chunk_header(file_path: Seq<char>, start: nat, end: nat) -> Seq<char> {
    "// File: "@ + file_path + " | Lines: "@ + decimal(start) + seq!['-'] + decimal(end) + seq![
        '\n',
    ]
}

/// The chunk of `file_path` covering lines `start..=end` with body `text`.
pub open spec fn chunk_of(
    file_path: Seq<char>,
    start: nat,
    end: nat,
    text: Seq<char>,
    language: Seq<char>,
) -> ChunkView {
    ChunkView {
        file_path,
        start_line: start,
        end_line: end,
        content: chunk_header(file_path, start, end) + text,
        language,
    }
}

pub fn make_chunk(
    file_path: &Vec<char>,
    start_line: usize,
    end_line: usize,
    text: &Vec<char>,
    language: &Vec<char>,
) -> (c: CodeChunk)
    ensures
        c@ == chunk_of(file_path@, start_line as nat, end_line as nat, text@, language@),
{
    let mut content: Vec<char> = Vec::new();
    push_str(&mut content, "// File: ");
    push_all(&mut content, file_path);
    push_str(&mut content, " | Lines: ");
    push_decimal(&mut content, start_line);
    content.push('-');
    push_decimal(&mut content, end_line);
    content.push('\n');
    push_all(&mut content, text);
    assert(content@ == chunk_header(file_path@, start_line as nat, end_line as nat) + text@);
    CodeChunk {
        file_path: string_from_chars(file_path),
        start_line,
        end_line,
        content: string_from_chars(&content),
        language: string_from_chars(language),
    }
}

/// Emits the accumulated pieces in `buf` as one chunk (joined by newlines) and
/// empties `buf`; does nothing when `buf` is empty.
pub fn flush_small_buf(
    chunks: &mut Vec<CodeChunk>,
    buf: &mut Vec<Vec<char>>,
    file_path: &Vec<char>,
    start_line: usize,
    end_line: usize,
    language: &Vec<char>,
)
    ensures
        final(buf)@.len() == 0,
        chunk_views(final(chunks)@) == chunk_views(old(chunks)@) + flushed(
            old(buf)@.map_values(|x: Vec<char>| x@),
            file_path@,
            start_line as nat,
            end_line as nat,
            language@,
        ),
{
    if buf.len() == 0 {
        assert(chunk_views(chunks@) == chunk_views(chunks@) + Seq::<ChunkView>::empty());
        return ;
    }
    let nl = chars_of("\n");
    let text = join_chars(buf, &nl);
    let ghost before = chunks@;
    chunks.push(make_chunk(file_path, start_line, end_line, &text, language));
    assert(chunk_views(chunks@) == chunk_views(before).push(chunks@.last()@));
    buf.clear();
}

/// The chunk made of the pieces in `buf`, or nothing when there are none.
pub open spec fn flushed(
    buf: Seq<Seq<char>>,
    file_path: Seq<char>,
    start: nat,
    end: nat,
    language: Seq<char>,
) -> Seq<ChunkView> {
    if buf.len() == 0 {
        seq![]
    } else {
        seq![chunk_of(file_path, start, end, join(buf, "\n"@), language)]
    }
}

// ---------------------------------------------------------------------------
// Line-window chunking
// ---------------------------------------------------------------------------

/// Chunks of `window` lines each, starting at line index `start` and then every
/// `step` lines, until a chunk reaches the last line.
pub open spec fn line_windows(
    ls: Seq<Seq<char>>,
    file_path: Seq<char>,
    window: nat,
    step: nat,
    start: nat,
) -> Seq<ChunkView>
    decreases ls.len() + step - start,
{
    if start >= ls.len() || step == 0 {
        seq![]
    } else {
        let end: nat = if start + window < ls.len() {
            start + window
        } else {
            ls.len()
        };
        let c = chunk_of(
            file_path,
            start + 1,
            end,
            join(ls.subrange(start as int, end as int), "\n"@),
            "text"@,
        );
        if end >= ls.len() {
            seq![c]
        } else {
            seq![c] + line_windows(ls, file_path, window, step, start + step)
        }
    }
}

/// Distance between the first lines of consecutive windows: `window - overlap`,
/// at least one.
pub open spec fn window_step(window: nat, overlap: nat) -> nat {
    if window > overlap {
        (window - overlap) as nat
    } else {
        1
    }
}

/// The line-window chunks of `content`.
pub open spec fn line_chunks(
    content: Seq<char>,
    file_path: Seq<char>,
    window: nat,
    overlap: nat,
) -> Seq<ChunkView> {
    line_windows(lines(content), file_path, window, window_step(window, overlap), 0)
}

proof fn lemma_line_windows_cover(
    ls: Seq<Seq<char>>,
    file_path: Seq<char>,
    window: nat,
    step: nat,
    start: nat,
    l: nat,
)
    requires
        0 < step <= window,
        start <= l < ls.len(),
    ensures
        exists|k: int|
            0 <= k < line_windows(ls, file_path, window, step, start).len() && (
            #[trigger] line_windows(ls, file_path, window, step, start)[k]).start_line <= l + 1
                <= line_windows(ls, file_path, window, step, start)[k].end_line,
    decreases ls.len() + step - start,
{
    let ws = line_windows(ls, file_path, window, step, start);
    let end: nat = if start + window < ls.len() {
        start + window
    } else {
        ls.len()
    };
    if l < end {
        assert(ws[0].start_line <= l + 1 <= ws[0].end_line);
    } else {
        lemma_line_windows_cover(ls, file_path, window, step, start + step, l);
        let rest = line_windows(ls, file_path, window, step, start + step);
        let k = choose|k: int| 0 <= k < rest.len() && (#[trigger] rest[k]).start_line <= l + 1 <= rest[k].end_line;
        assert(ws[k + 1] == rest[k]);
    }
}

/// Chunking by line windows leaves no line out: with windows of at least one
/// line, every line of the content lies in some chunk's line range.
pub proof fn law_every_line_is_chunked(
    content: Seq<char>,
    file_path: Seq<char>,
    window: nat,
    overlap: nat,
    l: nat,
)
    requires
        window > 0,
        l < lines(content).len(),
    ensures
        exists|k: int|
            0 <= k < line_chunks(content, file_path, window, overlap).len() && (
            #[trigger] line_chunks(content, file_path, window, overlap)[k]).start_line <= l + 1
                <= line_chunks(content, file_path, window, overlap)[k].end_line,
{
    let ws = line_windows(lines(content), file_path, window, window_step(window, overlap), 0);
    lemma_line_windows_cover(lines(content), file_path, window, window_step(window, overlap), 0, l);
    assert(line_chunks(content, file_path, window, overlap) == ws);
    let k = choose|k: int| 0 <= k < ws.len() && (#[trigger] ws[k]).start_line <= l + 1 <= ws[k].end_line;
    assert(line_chunks(content, file_path, window, overlap)[k] == ws[k]);
}

/// Splits `content` into windows of `window` lines that overlap by `overlap`
/// lines; each chunk starts with a `// File: … | Lines: a-b` header and has
/// language `text`.
pub fn chunk_lines(content: &str, file_path: &str, window: usize, overlap: usize) -> (r: Vec<
    CodeChunk,
>)
    ensures
        chunk_views(r@) == line_chunks(content@, file_path@, window as nat, overlap as nat),
{
    let cs = chars_of(content);
    let fp = chars_of(file_path);
    chunk_lines_chars(&cs, &fp, window, overlap)
}

pub fn chunk_lines_chars(content: &Vec<char>, file_path: &Vec<char>, window: usize, overlap: usize) -> (r: Vec<
    CodeChunk,
>)
    ensures
        chunk_views(r@) == line_chunks(content@, file_path@, window as nat, overlap as nat),
{
    let ls = split_lines(content);
    let ghost all = lines(content@);
    assert(ls@.map_values(|x: Vec<char>| x@) == all);
    let mut chunks: Vec<CodeChunk> = Vec::new();
    if ls.len() == 0 {
        assert(chunk_views(chunks@) == Seq::<ChunkView>::empty());
        return chunks;
    }
    let step: usize = if window > overlap {
        window - overlap
    } else {
        1
    };
    let ghost stepn = window_step(window as nat, overlap as nat);
    assert(step == stepn);
    let nl = chars_of("\n");
    let text_lang = chars_of("text");
    let mut start: usize = 0;
    assert(chunk_views(chunks@) == Seq::<ChunkView>::empty());
    while start < ls.len()
        invariant
            start <= ls@.len(),
            step == stepn,
            step >= 1,
            window == 0 || step <= window,
            window == 0 ==> step == 1,
            nl@ == "\n"@,
            text_lang@ == "text"@,
            all == ls@.map_values(|x: Vec<char>| x@),
            line_chunks(content@, file_path@, window as nat, overlap as nat) == chunk_views(
                chunks@,
            ) + line_windows(all, file_path@, window as nat, stepn, start as nat),
        decreases ls.len() - start,
    {
        let n = ls.len();
        let end: usize = if window < n - start {
            start + window
        } else {
            n
        };
        let mut part: Vec<Vec<char>> = Vec::new();
        let mut k = start;
        while k < end
            invariant
                start <= k <= end <= ls@.len(),
                part@.map_values(|x: Vec<char>| x@) == all.subrange(start as int, k as int),
                all == ls@.map_values(|x: Vec<char>| x@),
            decreases end - k,
        {
            let ghost before = part@;
            let piece = slice_chars(&ls[k], 0, ls[k].len());
            assert(piece@ == all[k as int]);
            part.push(piece);
            k += 1;
            assert(part@.map_values(|x: Vec<char>| x@) == before.map_values(|x: Vec<char>| x@).push(
                all[k - 1],
            ));
            assert(all.subrange(start as int, k as int) == all.subrange(start as int, k - 1).push(
                all[k - 1],
            ));
        }
        let text = join_chars(&part, &nl);
        let ghost before = chunks@;
        chunks.push(make_chunk(file_path, start + 1, end, &text, &text_lang));
        assert(chunk_views(chunks@) == chunk_views(before).push(chunks@.last()@));
        if end >= n {
            return chunks;
        }
        start = start + step;
    }
    chunks
}

// ---------------------------------------------------------------------------
// Syntax-aware chunking
// ---------------------------------------------------------------------------

/// The text of lines `start..=end` joined by newlines, or nothing when that
/// range is not within the file.
pub open spec fn node_text(ls: Seq<Seq<char>>, start: nat, end: nat) -> Seq<char> {
    if end + 1 <= ls.len() && start <= end + 1 {
        join(ls.subrange(start as int, end + 1 as int), "\n"@)
    } else {
        seq![]
    }
}

/// Bytes taken by the pieces of a buffer, counting one separator per piece.
pub open spec fn buf_len(buf: Seq<Seq<char>>) -> nat
    decreases buf.len(),
{
    if buf.len() == 0 {
        0
    } else {
        buf_len(buf.drop_last()) + utf8_len(buf.last()) + 1
    }
}

/// Chunks being gathered: the finished ones and a buffer of pieces that
/// started at line `start` and reach line `end`.
pub struct ChunkScan {
    pub chunks: Seq<ChunkView>,
    pub buf: Seq<Seq<char>>,
    pub start: nat,
    pub end: nat,
}

pub open spec fn scan_begin() -> ChunkScan {
    ChunkScan { chunks: seq![], buf: seq![], start: 0, end: 0 }
}

/// The finished chunks followed by one made of whatever is still buffered.
pub open spec fn scan_finish(st: ChunkScan, file_path: Seq<char>, language: Seq<char>) -> Seq<
    ChunkView,
> {
    st.chunks + flushed(st.buf, file_path, st.start, st.end, language)
}

/// Effect of one child (its row span) of an oversized node: its text joins the
/// buffer, which is emitted first when the text would push it past `max` bytes.
pub open spec fn child_step(
    st: ChunkScan,
    span: (nat, nat),
    ls: Seq<Seq<char>>,
    file_path: Seq<char>,
    language: Seq<char>,
    max: nat,
) -> ChunkScan {
    let text = node_text(ls, span.0, span.1);
    if text.len() == 0 {
        st
    } else {
        let overflow = st.buf.len() > 0 && buf_len(st.buf) + utf8_len(text) > max;
        let chunks = if overflow {
            st.chunks + flushed(st.buf, file_path, st.start, st.end, language)
        } else {
            st.chunks
        };
        let buf = if overflow {
            seq![]
        } else {
            st.buf
        };
        ChunkScan {
            chunks,
            buf: buf.push(text),
            start: if buf.len() == 0 {
                span.0 + 1
            } else {
                st.start
            },
            end: span.1 + 1,
        }
    }
}

pub open spec fn child_scan(
    spans: Seq<(nat, nat)>,
    n: int,
    ls: Seq<Seq<char>>,
    file_path: Seq<char>,
    language: Seq<char>,
    max: nat,
) -> ChunkScan
    decreases n,
{
    if n <= 0 {
        scan_begin()
    } else {
        child_step(
            child_scan(spans, n - 1, ls, file_path, language, max),
            spans[n - 1],
            ls,
            file_path,
            language,
            max,
        )
    }
}

/// Chunks that an oversized node is split into: its children's texts grouped
/// so that each group stays within `max` bytes where possible.
pub open spec fn child_chunks(
    spans: Seq<(nat, nat)>,
    ls: Seq<Seq<char>>,
    file_path: Seq<char>,
    language: Seq<char>,
    max: nat,
) -> Seq<ChunkView> {
    scan_finish(
        child_scan(spans, spans.len() as int, ls, file_path, language, max),
        file_path,
        language,
    )
}

/// Effect of one top-level node. A substantial node (see [`substantial`])
/// flushes the buffer and becomes its own chunk, or is split by its children
/// when its text is longer than `max` bytes. Any other node is buffered with
/// its neighbours until the buffer holds more than `max` bytes.
pub open spec fn top_step(
    st: ChunkScan,
    node: SyntaxNodeView,
    ls: Seq<Seq<char>>,
    file_path: Seq<char>,
    language: Seq<char>,
    max: nat,
) -> ChunkScan {
    let s1 = node.start_row + 1;
    let e1 = node.end_row + 1;
    let text = node_text(ls, node.start_row, node.end_row);
    if substantial(node.kind, language) {
        let whole = seq![chunk_of(file_path, s1, e1, text, language)];
        let emitted = if utf8_len(text) > max {
            let sub = child_chunks(node.children, ls, file_path, language, max);
            if sub.len() == 0 {
                whole
            } else {
                sub
            }
        } else {
            whole
        };
        ChunkScan {
            chunks: st.chunks + flushed(st.buf, file_path, st.start, st.end, language) + emitted,
            buf: seq![],
            start: st.start,
            end: st.end,
        }
    } else {
        let start = if st.buf.len() == 0 {
            s1
        } else {
            st.start
        };
        let buf = st.buf.push(text);
        if buf_len(buf) > max {
            ChunkScan {
                chunks: st.chunks + flushed(buf, file_path, start, e1, language),
                buf: seq![],
                start,
                end: e1,
            }
        } else {
            ChunkScan { chunks: st.chunks, buf, start, end: e1 }
        }
    }
}

pub open spec fn top_scan(
    nodes: Seq<SyntaxNodeView>,
    n: int,
    ls: Seq<Seq<char>>,
    file_path: Seq<char>,
    language: Seq<char>,
    max: nat,
) -> ChunkScan
    decreases n,
{
    if n <= 0 {
        scan_begin()
    } else {
        top_step(
            top_scan(nodes, n - 1, ls, file_path, language, max),
            nodes[n - 1],
            ls,
            file_path,
            language,
            max,
        )
    }
}

/// The chunks of `content` given its top-level syntax nodes; when they yield no
/// chunk at all, the line-window chunks (50 lines, overlap 10) instead.
pub open spec fn node_chunks(
    content: Seq<char>,
    file_path: Seq<char>,
    language: Seq<char>,
    max: nat,
    nodes: Seq<SyntaxNodeView>,
) -> Seq<ChunkView> {
    let ls = lines(content);
    let chunks = scan_finish(
        top_scan(nodes, nodes.len() as int, ls, file_path, language, max),
        file_path,
        language,
    );
    if chunks.len() == 0 {
        line_chunks(content, file_path, 50, 10)
    } else {
        chunks
    }
}

/// A chunk of `file_path` in `language` whose line range starts at line 1 or
/// later and ends no earlier than it starts, and whose content opens with the
/// header for that range.
pub open spec fn framed(c: ChunkView, file_path: Seq<char>, language: Seq<char>) -> bool {
    &&& c.file_path == file_path
    &&& c.language == language
    &&& 1 <= c.start_line <= c.end_line
    &&& chunk_header(file_path, c.start_line, c.end_line).is_prefix_of(c.content)
}

/// Every chunk is [`framed`].
pub open spec fn all_framed(cs: Seq<ChunkView>, file_path: Seq<char>, language: Seq<char>) -> bool {
    forall|i: int| 0 <= i < cs.len() ==> framed(#[trigger] cs[i], file_path, language)
}

proof fn lemma_chunk_of_framed(
    file_path: Seq<char>,
    start: nat,
    end: nat,
    text: Seq<char>,
    language: Seq<char>,
)
    requires
        1 <= start <= end,
    ensures
        framed(chunk_of(file_path, start, end, text, language), file_path, language),
{
    let h = chunk_header(file_path, start, end);
    assert((h + text).subrange(0, h.len() as int) =~= h);
}

proof fn lemma_all_framed_append(
    a: Seq<ChunkView>,
    b: Seq<ChunkView>,
    file_path: Seq<char>,
    language: Seq<char>,
)
    requires
        all_framed(a, file_path, language),
        all_framed(b, file_path, language),
    ensures
        all_framed(a + b, file_path, language),
{
    assert forall|i: int| 0 <= i < (a + b).len() implies framed(
        #[trigger] (a + b)[i],
        file_path,
        language,
    ) by {
        if i < a.len() {
            assert((a + b)[i] == a[i]);
        } else {
            assert((a + b)[i] == b[i - a.len()]);
        }
    }
}

proof fn lemma_flushed_framed(
    buf: Seq<Seq<char>>,
    file_path: Seq<char>,
    start: nat,
    end: nat,
    language: Seq<char>,
)
    requires
        buf.len() > 0 ==> 1 <= start <= end,
    ensures
        all_framed(flushed(buf, file_path, start, end, language), file_path, language),
{
    if buf.len() > 0 {
        lemma_chunk_of_framed(file_path, start, end, join(buf, "\n"@), language);
    }
}

proof fn lemma_line_windows_framed(
    ls: Seq<Seq<char>>,
    file_path: Seq<char>,
    window: nat,
    step: nat,
    start: nat,
)
    requires
        window > 0,
        step > 0,
    ensures
        all_framed(line_windows(ls, file_path, window, step, start), file_path, "text"@),
        start < ls.len() ==> line_windows(ls, file_path, window, step, start).len() > 0,
    decreases ls.len() + step - start,
{
    if start < ls.len() {
        let end: nat = if start + window < ls.len() {
            start + window
        } else {
            ls.len()
        };
        let text = join(ls.subrange(start as int, end as int), "\n"@);
        lemma_chunk_of_framed(file_path, start + 1, end, text, "text"@);
        let c = chunk_of(file_path, start + 1, end, text, "text"@);
        assert(all_framed(seq![c], file_path, "text"@));
        if end < ls.len() {
            lemma_line_windows_framed(ls, file_path, window, step, start + step);
            lemma_all_framed_append(
                seq![c],
                line_windows(ls, file_path, window, step, start + step),
                file_path,
                "text"@,
            );
        }
    }
}

/// The line-window chunks of `content`, with windows of at least one line, are
/// all [`framed`] in language `text`, and there is at least one when the
/// content has a line.
proof fn lemma_line_chunks_framed(
    content: Seq<char>,
    file_path: Seq<char>,
    window: nat,
    overlap: nat,
)
    requires
        window > 0,
    ensures
        all_framed(line_chunks(content, file_path, window, overlap), file_path, "text"@),
        lines(content).len() > 0 ==> line_chunks(content, file_path, window, overlap).len() > 0,
{
    lemma_line_windows_framed(lines(content), file_path, window, window_step(window, overlap), 0);
}

proof fn lemma_child_scan_framed(
    spans: Seq<(nat, nat)>,
    n: int,
    ls: Seq<Seq<char>>,
    file_path: Seq<char>,
    language: Seq<char>,
    max: nat,
)
    requires
        0 <= n <= spans.len(),
        spans_in_order(spans),
        forall|j: int| 0 <= j < spans.len() ==> #[trigger] spans[j].0 <= spans[j].1,
    ensures
        ({
            let st = child_scan(spans, n, ls, file_path, language, max);
            &&& all_framed(st.chunks, file_path, language)
            &&& st.buf.len() > 0 ==> 0 < n && 1 <= st.start <= st.end && st.end <= spans[n
                - 1].1 + 1
        }),
    decreases n,
{
    if n > 0 {
        lemma_child_scan_framed(spans, n - 1, ls, file_path, language, max);
        let st = child_scan(spans, n - 1, ls, file_path, language, max);
        let span = spans[n - 1];
        assert(span.0 <= span.1);
        if st.buf.len() > 0 {
            assert(spans[n - 2].1 <= spans[n - 1].0);
        }
        lemma_flushed_framed(st.buf, file_path, st.start, st.end, language);
        lemma_all_framed_append(
            st.chunks,
            flushed(st.buf, file_path, st.start, st.end, language),
            file_path,
            language,
        );
    }
}

proof fn lemma_child_chunks_framed(
    spans: Seq<(nat, nat)>,
    ls: Seq<Seq<char>>,
    file_path: Seq<char>,
    language: Seq<char>,
    max: nat,
)
    requires
        spans_in_order(spans),
        forall|j: int| 0 <= j < spans.len() ==> #[trigger] spans[j].0 <= spans[j].1,
    ensures
        all_framed(child_chunks(spans, ls, file_path, language, max), file_path, language),
{
    lemma_child_scan_framed(spans, spans.len() as int, ls, file_path, language, max);
    let st = child_scan(spans, spans.len() as int, ls, file_path, language, max);
    lemma_flushed_framed(st.buf, file_path, st.start, st.end, language);
    lemma_all_framed_append(
        st.chunks,
        flushed(st.buf, file_path, st.start, st.end, language),
        file_path,
        language,
    );
}

proof fn lemma_top_scan_framed(
    nodes: Seq<SyntaxNodeView>,
    n: int,
    ls: Seq<Seq<char>>,
    file_path: Seq<char>,
    language: Seq<char>,
    max: nat,
)
    requires
        0 <= n <= nodes.len(),
        rows_ordered(nodes),
        nodes_in_order(nodes),
    ensures
        ({
            let st = top_scan(nodes, n, ls, file_path, language, max);
            &&& all_framed(st.chunks, file_path, language)
            &&& st.buf.len() > 0 ==> 0 < n && 1 <= st.start <= st.end && st.end <= nodes[n
                - 1].end_row + 1
        }),
    decreases n,
{
    if n > 0 {
        lemma_top_scan_framed(nodes, n - 1, ls, file_path, language, max);
        let st = top_scan(nodes, n - 1, ls, file_path, language, max);
        let node = nodes[n - 1];
        assert(node.start_row <= node.end_row);
        if st.buf.len() > 0 {
            assert(nodes[n - 2].end_row <= nodes[n - 1].start_row);
        }
        let s1 = node.start_row + 1;
        let e1 = node.end_row + 1;
        let text = node_text(ls, node.start_row, node.end_row);
        lemma_flushed_framed(st.buf, file_path, st.start, st.end, language);
        let done = st.chunks + flushed(st.buf, file_path, st.start, st.end, language);
        lemma_all_framed_append(
            st.chunks,
            flushed(st.buf, file_path, st.start, st.end, language),
            file_path,
            language,
        );
        if substantial(node.kind, language) {
            let whole = seq![chunk_of(file_path, s1, e1, text, language)];
            lemma_chunk_of_framed(file_path, s1, e1, text, language);
            assert(all_framed(whole, file_path, language));
            assert(spans_in_order(node.children));
            assert forall|j: int| 0 <= j < node.children.len() implies #[trigger] node.children[j].0
                <= node.children[j].1 by {
                assert(nodes[n - 1].children[j].0 <= nodes[n - 1].children[j].1);
            }
            lemma_child_chunks_framed(node.children, ls, file_path, language, max);
            lemma_all_framed_append(done, whole, file_path, language);
            lemma_all_framed_append(
                done,
                child_chunks(node.children, ls, file_path, language, max),
                file_path,
                language,
            );
        } else {
            let start = if st.buf.len() == 0 {
                s1
            } else {
                st.start
            };
            let buf = st.buf.push(text);
            lemma_flushed_framed(buf, file_path, start, e1, language);
            lemma_all_framed_append(
                st.chunks,
                flushed(buf, file_path, start, e1, language),
                file_path,
                language,
            );
        }
    }
}

/// The chunks of a parsed file, when its nodes' rows run forward and come in
/// document order, are all [`framed`]: in `language` when the nodes yield
/// chunks, in `text` when the line windows stand in; and there is at least one
/// when the content has a line.
proof fn lemma_node_chunks_framed(
    content: Seq<char>,
    file_path: Seq<char>,
    language: Seq<char>,
    max: nat,
    nodes: Seq<SyntaxNodeView>,
)
    requires
        rows_ordered(nodes),
        nodes_in_order(nodes),
    ensures
        all_framed(node_chunks(content, file_path, language, max, nodes), file_path, language)
            || all_framed(node_chunks(content, file_path, language, max, nodes), file_path, "text"@),
        lines(content).len() > 0 ==> node_chunks(content, file_path, language, max, nodes).len()
            > 0,
{
    let ls = lines(content);
    lemma_top_scan_framed(nodes, nodes.len() as int, ls, file_path, language, max);
    let st = top_scan(nodes, nodes.len() as int, ls, file_path, language, max);
    lemma_flushed_framed(st.buf, file_path, st.start, st.end, language);
    lemma_all_framed_append(
        st.chunks,
        flushed(st.buf, file_path, st.start, st.end, language),
        file_path,
        language,
    );
    lemma_line_chunks_framed(content, file_path, 50, 10);
}

pub open spec fn buf_views(b: Seq<Vec<char>>) -> Seq<Seq<char>> {
    b.map_values(|x: Vec<char>| x@)
}

/// The text of lines `start..=end`, as [`node_text`] defines it.
fn node_text_of(ls: &Vec<Vec<char>>, start: usize, end: usize) -> (r: Vec<char>)
    requires
        end < usize::MAX,
    ensures
        r@ == node_text(buf_views(ls@), start as nat, end as nat),
{
    let ghost all = buf_views(ls@);
    if end + 1 <= ls.len() && start <= end + 1 {
        let mut part: Vec<Vec<char>> = Vec::new();
        let mut k = start;
        while k <= end
            invariant
                start <= k <= end + 1 <= ls@.len(),
                end < usize::MAX,
                buf_views(part@) == all.subrange(start as int, k as int),
                all == buf_views(ls@),
            decreases end + 1 - k,
        {
            let ghost before = part@;
            let piece = slice_chars(&ls[k], 0, ls[k].len());
            assert(piece@ == all[k as int]);
            part.push(piece);
            k += 1;
            assert(buf_views(part@) == buf_views(before).push(all[k - 1]));
            assert(all.subrange(start as int, k as int) == all.subrange(start as int, k - 1).push(
                all[k - 1],
            ));
        }
        let nl = chars_of("\n");
        join_chars(&part, &nl)
    } else {
        Vec::new()
    }
}

/// Whether the buffered pieces plus `extra` take more than `max` bytes, that is
/// `buf_len(buf) + utf8_len(extra) > max`.
fn buf_exceeds(buf: &Vec<Vec<char>>, extra: &Vec<char>, max: usize) -> (r: bool)
    ensures
        r == (buf_len(buf_views(buf@)) + utf8_len(extra@) > max),
{
    let ghost all = buf_views(buf@);
    let mut acc: usize = 0;
    let mut i: usize = 0;
    while i < buf.len()
        invariant
            i <= buf@.len(),
            all == buf_views(buf@),
            acc == buf_len(all.take(i as int)),
            acc <= max,
        decreases buf.len() - i,
    {
        assert(all.take(i + 1).drop_last() == all.take(i as int));
        assert(all.take(i + 1).last() == buf@[i as int]@);
        proof {
            lemma_buf_len_mono(all, i + 1);
        }
        if utf8_len_exceeds(&buf[i], max - acc) {
            return true;
        }
        let n = crate::text::utf8_len_of(&buf[i]);
        acc = acc + n;
        if acc == max {
            return true;
        }
        acc = acc + 1;
        i += 1;
    }
    assert(all.take(buf@.len() as int) == all);
    !(utf8_len_exceeds(extra, max - acc) == false)
}

proof fn lemma_buf_len_mono(b: Seq<Seq<char>>, n: int)
    requires
        0 <= n <= b.len(),
    ensures
        buf_len(b.take(n)) <= buf_len(b),
    decreases b.len() - n,
{
    if n < b.len() {
        lemma_buf_len_mono(b, n + 1);
        assert(b.take(n + 1).drop_last() == b.take(n));
    } else {
        assert(b.take(n) == b);
    }
}

/// Splits an oversized node by its children (see [`child_chunks`]).
pub fn chunk_node_children(
    spans: &Vec<RowSpan>,
    ls: &Vec<Vec<char>>,
    file_path: &Vec<char>,
    language: &Vec<char>,
    max_chunk_chars: usize,
) -> (r: Vec<CodeChunk>)
    requires
        forall|j: int| 0 <= j < spans@.len() ==> #[trigger] spans@[j].start_row < usize::MAX
            && spans@[j].end_row < usize::MAX,
    ensures
        chunk_views(r@) == child_chunks(
            spans@.map_values(|c: RowSpan| (c.start_row as nat, c.end_row as nat)),
            buf_views(ls@),
            file_path@,
            language@,
            max_chunk_chars as nat,
        ),
{
    let ghost sv = spans@.map_values(|c: RowSpan| (c.start_row as nat, c.end_row as nat));
    let ghost all = buf_views(ls@);
    let mut chunks: Vec<CodeChunk> = Vec::new();
    let mut buf: Vec<Vec<char>> = Vec::new();
    let mut buf_start: usize = 0;
    let mut buf_end: usize = 0;
    let mut i: usize = 0;
    assert(chunk_views(chunks@) == Seq::<ChunkView>::empty());
    assert(buf_views(buf@) == Seq::<Seq<char>>::empty());
    while i < spans.len()
        invariant
            i <= spans@.len(),
            sv == spans@.map_values(|c: RowSpan| (c.start_row as nat, c.end_row as nat)),
            all == buf_views(ls@),
            forall|j: int| 0 <= j < spans@.len() ==> #[trigger] spans@[j].start_row < usize::MAX
                && spans@[j].end_row < usize::MAX,
            child_scan(sv, i as int, all, file_path@, language@, max_chunk_chars as nat) == (
            ChunkScan {
                chunks: chunk_views(chunks@),
                buf: buf_views(buf@),
                start: buf_start as nat,
                end: buf_end as nat,
            }),
        decreases spans.len() - i,
    {
        let ghost before = child_scan(sv, i as int, all, file_path@, language@, max_chunk_chars as nat);
        let span = &spans[i];
        assert(sv[i as int] == (span.start_row as nat, span.end_row as nat));
        let text = node_text_of(ls, span.start_row, span.end_row);
        if text.len() > 0 {
            if buf.len() > 0 && buf_exceeds(&buf, &text, max_chunk_chars) {
                flush_small_buf(&mut chunks, &mut buf, file_path, buf_start, buf_end, language);
                assert(buf_views(buf@) =~= Seq::<Seq<char>>::empty());
            }
            if buf.len() == 0 {
                buf_start = span.start_row + 1;
            }
            buf_end = span.end_row + 1;
            let ghost bb = buf@;
            buf.push(text);
            assert(buf_views(buf@) == buf_views(bb).push(text@));
        }
        i += 1;
        assert(child_scan(sv, i as int, all, file_path@, language@, max_chunk_chars as nat)
            == child_step(before, sv[i - 1], all, file_path@, language@, max_chunk_chars as nat));
    }
    assert(sv.len() == spans@.len());
    flush_small_buf(&mut chunks, &mut buf, file_path, buf_start, buf_end, language);
    chunks
}

/// Chunks a parsed file from its top-level syntax nodes (see [`node_chunks`]).
pub fn chunk_syntax_nodes(
    content: &str,
    file_path: &str,
    language: &str,
    max_chunk_chars: usize,
    nodes: &Vec<SyntaxNode>,
) -> (r: Vec<CodeChunk>)
    requires
        rows_below(node_views(nodes@), usize::MAX as nat),
    ensures
        chunk_views(r@) == node_chunks(
            content@,
            file_path@,
            language@,
            max_chunk_chars as nat,
            node_views(nodes@),
        ),
{
    let cs = chars_of(content);
    let fp = chars_of(file_path);
    let lang = chars_of(language);
    let ls = split_lines(&cs);
    let ghost all = lines(content@);
    assert(buf_views(ls@) == all);
    let ghost nv = node_views(nodes@);
    let mut chunks: Vec<CodeChunk> = Vec::new();
    let mut buf: Vec<Vec<char>> = Vec::new();
    let mut small_start: usize = 0;
    let mut small_end: usize = 0;
    let mut i: usize = 0;
    assert(chunk_views(chunks@) == Seq::<ChunkView>::empty());
    assert(buf_views(buf@) == Seq::<Seq<char>>::empty());
    while i < nodes.len()
        invariant
            i <= nodes@.len(),
            nv == node_views(nodes@),
            all == buf_views(ls@),
            fp@ == file_path@,
            lang@ == language@,
            rows_below(nv, usize::MAX as nat),
            top_scan(nv, i as int, all, fp@, lang@, max_chunk_chars as nat) == (ChunkScan {
                chunks: chunk_views(chunks@),
                buf: buf_views(buf@),
                start: small_start as nat,
                end: small_end as nat,
            }),
        decreases nodes.len() - i,
    {
        let ghost before = top_scan(nv, i as int, all, fp@, lang@, max_chunk_chars as nat);
        let node = &nodes[i];
        assert(nv[i as int] == node@);
        assert(nv[i as int].start_row < usize::MAX as nat);
        assert(node.start_row < usize::MAX && node.end_row < usize::MAX);
        let kind = chars_of(node.kind.as_str());
        let text = node_text_of(&ls, node.start_row, node.end_row);
        let start_1 = node.start_row + 1;
        let end_1 = node.end_row + 1;
        if is_substantial(&kind, &lang) {
            flush_small_buf(&mut chunks, &mut buf, &fp, small_start, small_end, &lang);
            assert(buf_views(buf@) =~= Seq::<Seq<char>>::empty());
            let ghost flushed_views = chunk_views(chunks@);
            if utf8_len_exceeds(&text, max_chunk_chars) {
                proof {
                    assert forall|j: int| 0 <= j < node.children@.len() implies #[trigger]
                        node.children@[j].start_row < usize::MAX && node.children@[j].end_row
                        < usize::MAX by {
                        assert(nv[i as int].children[j] == (
                            node.children@[j].start_row as nat,
                            node.children@[j].end_row as nat,
                        ));
                        assert(nv[i as int].children[j].0 < usize::MAX as nat);
                        assert(nv[i as int].children[j].1 < usize::MAX as nat);
                    }
                }
                let sub = chunk_node_children(&node.children, &ls, &fp, &lang, max_chunk_chars);
                if sub.len() == 0 {
                    chunks.push(make_chunk(&fp, start_1, end_1, &text, &lang));
                    assert(chunk_views(chunks@) == flushed_views + seq![chunks@.last()@]);
                } else {
                    let mut k: usize = 0;
                    while k < sub.len()
                        invariant
                            k <= sub@.len(),
                            chunk_views(chunks@) == flushed_views + chunk_views(sub@).take(
                                k as int,
                            ),
                        decreases sub.len() - k,
                    {
                        let c = make_chunk_copy(&sub[k]);
                        let ghost cb = chunks@;
                        chunks.push(c);
                        k += 1;
                        assert(chunk_views(chunks@) == chunk_views(cb).push(sub@[k - 1]@));
                        assert(chunk_views(sub@).take(k as int) == chunk_views(sub@).take(
                            k - 1,
                        ).push(sub@[k - 1]@));
                    }
                    assert(chunk_views(sub@).take(sub@.len() as int) == chunk_views(sub@));
                }
            } else {
                chunks.push(make_chunk(&fp, start_1, end_1, &text, &lang));
                assert(chunk_views(chunks@) == flushed_views + seq![chunks@.last()@]);
            }
        } else {
            if buf.len() == 0 {
                small_start = start_1;
            }
            small_end = end_1;
            let ghost bb = buf@;
            let over = max_chunk_chars == 0 || buf_exceeds(&buf, &text, max_chunk_chars - 1);
            buf.push(text);
            assert(buf_views(buf@) == buf_views(bb).push(text@));
            assert(buf_views(buf@).drop_last() == buf_views(bb));
            assert(buf_len(buf_views(buf@)) == buf_len(buf_views(bb)) + utf8_len(text@) + 1);
            if over {
                flush_small_buf(&mut chunks, &mut buf, &fp, small_start, small_end, &lang);
                assert(buf_views(buf@) =~= Seq::<Seq<char>>::empty());
            }
        }
        i += 1;
        assert(top_scan(nv, i as int, all, fp@, lang@, max_chunk_chars as nat) == top_step(
            before,
            nv[i - 1],
            all,
            fp@,
            lang@,
            max_chunk_chars as nat,
        ));
    }
    flush_small_buf(&mut chunks, &mut buf, &fp, small_start, small_end, &lang);
    if chunks.len() == 0 {
        chunk_lines_chars(&cs, &fp, 50, 10)
    } else {
        chunks
    }
}

/// A copy of a chunk.
fn make_chunk_copy(c: &CodeChunk) -> (r: CodeChunk)
    ensures
        r@ == c@,
{
    CodeChunk {
        file_path: c.file_path.clone(),
        start_line: c.start_line,
        end_line: c.end_line,
        content: c.content.clone(),
        language: c.language.clone(),
    }
}

/// The chunks of a source file in `language`: for a language without a bundled
/// grammar, the line windows (50 lines overlapping by 10); otherwise the chunks
/// of the top-level nodes tree-sitter finds in it ([`node_chunks`], which falls
/// back to the line windows when no chunk comes out), unless a row number is
/// too large to count lines from.
pub open spec fn syntax_chunks(
    content: Seq<char>,
    file_path: Seq<char>,
    language: Seq<char>,
    max: nat,
) -> Seq<ChunkView> {
    match grammar_of(language) {
        None => line_chunks(content, file_path, 50, 10),
        Some(g) => {
            let nodes = top_level_syntax(g, content);
            if rows_below(nodes, usize::MAX as nat) {
                node_chunks(content, file_path, language, max, nodes)
            } else {
                line_chunks(content, file_path, 50, 10)
            }
        },
    }
}

/// Chunk a source file using its syntax tree (see [`syntax_chunks`]). Every
/// chunk belongs to `file_path`, covers lines `a..=b` with `1 <= a <= b`, and
/// opens with the `// File: … | Lines: a-b` header; the chunks are all in
/// `language`, or all in `text` when the line windows are used. A file with at
/// least one line gives at least one chunk.
pub fn chunk_file(content: &str, file_path: &str, language: &str, max_chunk_chars: usize) -> (r:
    Vec<CodeChunk>)
    ensures
        chunk_views(r@) == syntax_chunks(content@, file_path@, language@, max_chunk_chars as nat),
        !has_grammar(language@) ==> chunk_views(r@) == line_chunks(content@, file_path@, 50, 10),
        all_framed(chunk_views(r@), file_path@, language@) || all_framed(
            chunk_views(r@),
            file_path@,
            "text"@,
        ),
        lines(content@).len() > 0 ==> r@.len() > 0,
        !has_grammar(language@) ==> (r@.len() == 0 <==> lines(content@).len() == 0),
{
    proof {
        lemma_line_chunks_framed(content@, file_path@, 50, 10);
    }
    let lang = chars_of(language);
    let bundled = match get_language(&lang) {
        Some(b) => b,
        None => return chunk_lines(content, file_path, 50, 10),
    };
    let nodes = match parse_top_level(&bundled, content) {
        Some(n) => n,
        None => return chunk_lines(content, file_path, 50, 10),
    };
    if !rows_fit(&nodes) {
        return chunk_lines(content, file_path, 50, 10);
    }
    proof {
        lemma_node_chunks_framed(
            content@,
            file_path@,
            language@,
            max_chunk_chars as nat,
            node_views(nodes@),
        );
    }
    chunk_syntax_nodes(content, file_path, language, max_chunk_chars, &nodes)
}

/// Whether every row number is below `usize::MAX`, so that 1-based line
/// numbers can be formed.
fn rows_fit(nodes: &Vec<SyntaxNode>) -> (r: bool)
    ensures
        r == rows_below(node_views(nodes@), usize::MAX as nat),
{
    let ghost nv = node_views(nodes@);
    let mut i: usize = 0;
    while i < nodes.len()
        invariant
            i <= nodes@.len(),
            nv == node_views(nodes@),
            forall|a: int| 0 <= a < i ==> {
                &&& #[trigger] nv[a].start_row < usize::MAX
                &&& nv[a].end_row < usize::MAX
                &&& forall|j: int|
                    0 <= j < nv[a].children.len() ==> #[trigger] nv[a].children[j].0 < usize::MAX
                        && nv[a].children[j].1 < usize::MAX
            },
        decreases nodes.len() - i,
    {
        let node = &nodes[i];
        assert(nv[i as int] == node@);
        if node.start_row == usize::MAX || node.end_row == usize::MAX {
            assert(!(nv[i as int].start_row < usize::MAX && nv[i as int].end_row < usize::MAX));
            return false;
        }
        let mut j: usize = 0;
        while j < node.children.len()
            invariant
                j <= node.children@.len(),
                i < nodes@.len(),
                nv == node_views(nodes@),
                node == &nodes@[i as int],
                nv[i as int] == node@,
                forall|b: int|
                    0 <= b < j ==> #[trigger] nv[i as int].children[b].0 < usize::MAX
                        && nv[i as int].children[b].1 < usize::MAX,
            decreases node.children.len() - j,
        {
            let c = &node.children[j];
            assert(nv[i as int].children[j as int] == (c.start_row as nat, c.end_row as nat));
            if c.start_row == usize::MAX || c.end_row == usize::MAX {
                assert(!rows_below(nv, usize::MAX as nat)) by {
                    if rows_below(nv, usize::MAX as nat) {
                        assert(nv[i as int].start_row < usize::MAX as nat);
                        assert(nv[i as int].children[j as int].0 < usize::MAX as nat);
                        assert(nv[i as int].children[j as int].1 < usize::MAX as nat);
                    }
                }
                return false;
            }
            j += 1;
        }
        i += 1;
    }
    true
}

} // verus!
