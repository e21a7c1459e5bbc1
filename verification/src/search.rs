//! Keyword side of retrieval: picking search terms out of a question and
//! building the full-text query, and deciding how many results to keep.
use vstd::prelude::*;

use crate::pattern::{
    alphanumeric, captures_of, captures_or_none, is_alphanumeric, matches_of, matches_or_none,
    strings_view,
};
use crate::text::{
    chars_of, contains, contains_chars, is_whitespace, is_ws, join, join_chars, push_all,
    slice_chars, string_from_chars, utf8_len, utf8_len_exceeds,
};

verus! {

/// CamelCase identifiers of two or more capitalised words.
pub const CAMEL_CASE_PATTERN: &'static str = r"\b[A-Z][a-z]+(?:[A-Z][a-z]+)+\b";

/// snake_case identifiers of two or more words.
pub const SNAKE_CASE_PATTERN: &'static str = r"\b[a-z]+(?:_[a-z]+)+\b";

/// Text between double quotes (group 1).
pub const QUOTED_PATTERN: &'static str = r#""([^"]+)""#;

/// `@repo/path` mentions; group 1 is the path without the `@`.
pub const MENTION_PATTERN: &'static str = r"@([\w.\-]+/[\w.\-/]+)";

/// Number of retrieved chunks kept by default.
pub const TOP_K: usize = 8;

/// Number of retrieved chunks kept for questions that name many identifiers.
pub const WIDE_TOP_K: usize = 15;

/// `s` with each run of equal adjacent elements reduced to one (`Vec::dedup`).
pub open spec fn dedup_adjacent(s: Seq<Seq<char>>) -> Seq<Seq<char>>
    decreases s.len(),
{
    if s.len() <= 1 {
        s
    } else if s.last() == s[s.len() - 2] {
        dedup_adjacent(s.drop_last())
    } else {
        dedup_adjacent(s.drop_last()).push(s.last())
    }
}

/// The search terms of `text`: CamelCase identifiers, then snake_case
/// identifiers, then quoted strings, then `@` mentions, with adjacent repeats
/// removed.
pub open spec fn search_terms(text: Seq<char>) -> Seq<Seq<char>> {
    dedup_adjacent(
        matches_or_none(CAMEL_CASE_PATTERN@, text) + matches_or_none(SNAKE_CASE_PATTERN@, text)
            + captures_or_none(QUOTED_PATTERN@, text) + captures_or_none(MENTION_PATTERN@, text),
    )
}

fn append_strings(dst: &mut Vec<String>, src: Vec<String>)
    ensures
        strings_view(final(dst)@) == strings_view(old(dst)@) + strings_view(src@),
{
    let mut src = src;
    let ghost a = old(dst)@;
    let ghost b = src@;
    dst.append(&mut src);
    assert(dst@ == a + b);
    assert(strings_view(dst@) =~= strings_view(a) + strings_view(b));
}

/// Removes adjacent repeats, keeping the first of each run.
pub fn dedup_strings(v: Vec<String>) -> (r: Vec<String>)
    ensures
        strings_view(r@) == dedup_adjacent(strings_view(v@)),
{
    let ghost sv = strings_view(v@);
    let mut r: Vec<String> = Vec::new();
    let mut i: usize = 0;
    assert(sv.take(0) =~= Seq::<Seq<char>>::empty());
    assert(strings_view(r@) =~= Seq::<Seq<char>>::empty());
    while i < v.len()
        invariant
            i <= v@.len(),
            sv == strings_view(v@),
            strings_view(r@) == dedup_adjacent(sv.take(i as int)),
        decreases v.len() - i,
    {
        let ghost t = sv.take(i + 1);
        assert(t.drop_last() == sv.take(i as int));
        assert(t.last() == v@[i as int]@);
        let keep = i == 0 || v[i] != v[i - 1];
        if i > 0 {
            assert(t[t.len() - 2] == v@[i - 1]@);
        } else {
            assert(t.len() == 1);
        }
        if keep {
            let ghost rb = r@;
            r.push(v[i].clone());
            assert(strings_view(r@) == strings_view(rb).push(v@[i as int]@));
            if i == 0 {
                assert(dedup_adjacent(t) == t);
                assert(dedup_adjacent(sv.take(0)) =~= Seq::<Seq<char>>::empty());
                assert(strings_view(r@) =~= t);
            }
        }
        i += 1;
    }
    assert(sv.take(v@.len() as int) == sv);
    r
}

/// Pulls likely identifiers and phrases out of a question: CamelCase and
/// snake_case identifiers, quoted strings and `@repo/path` mentions, in that
/// order, with adjacent repeats removed.
pub fn extract_search_terms(text: &str) -> (r: Vec<String>)
    ensures
        strings_view(r@) == search_terms(text@),
{
    let mut terms: Vec<String> = Vec::new();
    append_strings(&mut terms, matches_of(CAMEL_CASE_PATTERN, text));
    append_strings(&mut terms, matches_of(SNAKE_CASE_PATTERN, text));
    append_strings(&mut terms, captures_of(QUOTED_PATTERN, text));
    append_strings(&mut terms, captures_of(MENTION_PATTERN, text));
    assert(strings_view(terms@) =~= matches_or_none(CAMEL_CASE_PATTERN@, text@) + matches_or_none(
        SNAKE_CASE_PATTERN@,
        text@,
    ) + captures_or_none(QUOTED_PATTERN@, text@) + captures_or_none(MENTION_PATTERN@, text@));
    dedup_strings(terms)
}

/// How many retrieved chunks to keep: more when the question names more than
/// three search terms.
pub fn adaptive_top_k(text: &str) -> (k: usize)
    ensures
        k == if search_terms(text@).len() > 3 {
            WIDE_TOP_K
        } else {
            TOP_K
        },
{
    let terms = extract_search_terms(text);
    if terms.len() > 3 {
        WIDE_TOP_K
    } else {
        TOP_K
    }
}

// ---------------------------------------------------------------------------
// Full-text query
// ---------------------------------------------------------------------------

/// Index of the first whitespace character at or after `i` (or the length).
pub open spec fn word_end(s: Seq<char>, i: int) -> int
    decreases s.len() - i,
{
    if 0 <= i < s.len() && !is_ws(s[i]) {
        word_end(s, i + 1)
    } else {
        i
    }
}

/// Index of the first non-whitespace character at or after `i` (or the length).
pub open spec fn skip_ws(s: Seq<char>, i: int) -> int
    decreases s.len() - i,
{
    if 0 <= i < s.len() && is_ws(s[i]) {
        skip_ws(s, i + 1)
    } else {
        i
    }
}

pub proof fn lemma_word_end(s: Seq<char>, i: int)
    ensures
        word_end(s, i) >= i,
        0 <= i < s.len() && !is_ws(s[i]) ==> word_end(s, i) > i,
        0 <= i <= s.len() ==> word_end(s, i) <= s.len(),
    decreases s.len() - i,
{
    if 0 <= i < s.len() && !is_ws(s[i]) {
        lemma_word_end(s, i + 1);
    }
}

pub proof fn lemma_skip_ws(s: Seq<char>, i: int)
    ensures
        skip_ws(s, i) >= i,
        0 <= i <= s.len() ==> skip_ws(s, i) <= s.len(),
        0 <= i && skip_ws(s, i) < s.len() ==> !is_ws(s[skip_ws(s, i)]),
    decreases s.len() - i,
{
    if 0 <= i < s.len() && is_ws(s[i]) {
        lemma_skip_ws(s, i + 1);
    }
}

/// The whitespace-separated words of `s` from position `i` on (`str::split_whitespace`).
pub open spec fn words_from(s: Seq<char>, i: int) -> Seq<Seq<char>>
    decreases s.len() - i,
{
    let a = skip_ws(s, i);
    if i < 0 || a >= s.len() {
        seq![]
    } else {
        let b = word_end(s, a);
        proof {
            lemma_skip_ws(s, i);
            lemma_word_end(s, a);
        }
        seq![s.subrange(a, b)] + words_from(s, b)
    }
}

pub open spec fn words(s: Seq<char>) -> Seq<Seq<char>> {
    words_from(s, 0)
}

/// The first ten words of `s` longer than three bytes.
pub open spec fn query_words(s: Seq<char>) -> Seq<Seq<char>> {
    let long = words(s).filter(|w: Seq<char>| utf8_len(w) > 3);
    if long.len() > 10 {
        long.take(10)
    } else {
        long
    }
}

/// `s` without its leading characters that are not alphanumeric.
pub open spec fn trim_non_alnum_start(s: Seq<char>) -> Seq<char>
    decreases s.len(),
{
    if s.len() > 0 && !alphanumeric(s[0]) {
        trim_non_alnum_start(s.drop_first())
    } else {
        s
    }
}

/// `s` without its trailing characters that are not alphanumeric.
pub open spec fn trim_non_alnum_end(s: Seq<char>) -> Seq<char>
    decreases s.len(),
{
    if s.len() > 0 && !alphanumeric(s.last()) {
        trim_non_alnum_end(s.drop_last())
    } else {
        s
    }
}

/// `s` without non-alphanumeric characters at either end.
pub open spec fn clean_word(s: Seq<char>) -> Seq<char> {
    trim_non_alnum_end(trim_non_alnum_start(s))
}

/// `s` between double quotes.
pub open spec fn quoted(s: Seq<char>) -> Seq<char> {
    seq!['"'] + s + seq!['"']
}

/// `s` with every double quote doubled.
pub open spec fn escape_quotes(s: Seq<char>) -> Seq<char>
    decreases s.len(),
{
    if s.len() == 0 {
        seq![]
    } else if s.last() == '"' {
        escape_quotes(s.drop_last()) + seq!['"', '"']
    } else {
        escape_quotes(s.drop_last()).push(s.last())
    }
}

/// Adds each of the first `n` words, cleaned and quoted, when it is longer than
/// three bytes and no part so far already contains it.
pub open spec fn add_words(parts: Seq<Seq<char>>, ws: Seq<Seq<char>>, n: int) -> Seq<Seq<char>>
    decreases n,
{
    if n <= 0 {
        parts
    } else {
        let ps = add_words(parts, ws, n - 1);
        let c = clean_word(ws[n - 1]);
        if utf8_len(c) > 3 && !(exists|k: int| 0 <= k < ps.len() && contains(ps[k], c)) {
            ps.push(quoted(c))
        } else {
            ps
        }
    }
}

/// The FTS5 query for a question: each search term and each distinct longer
/// word, quoted and joined by ` OR `; the whole question as one quoted phrase
/// when there is neither.
pub open spec fn expanded_fts_query(text: Seq<char>) -> Seq<char> {
    fts_query(search_terms(text), text)
}

/// The FTS5 query for a question, given the search terms found in it: each
/// term and each distinct longer word of the question, quoted and joined by
/// ` OR `; the whole question as one quoted phrase when there is neither.
pub open spec fn fts_query(terms: Seq<Seq<char>>, text: Seq<char>) -> Seq<char> {
    let ws = query_words(text);
    let parts = add_words(terms.map_values(|t: Seq<char>| quoted(t)), ws, ws.len() as int);
    if parts.len() == 0 {
        quoted(escape_quotes(text))
    } else {
        join(parts, " OR "@)
    }
}

/// The words of `v` (`str::split_whitespace`).
fn split_words(v: &Vec<char>) -> (r: Vec<Vec<char>>)
    ensures
        r@.map_values(|x: Vec<char>| x@) == words(v@),
{
    let mut r: Vec<Vec<char>> = Vec::new();
    let mut i: usize = 0;
    assert(r@.map_values(|x: Vec<char>| x@) =~= Seq::<Seq<char>>::empty());
    while i < v.len()
        invariant
            i <= v@.len(),
            words(v@) == r@.map_values(|x: Vec<char>| x@) + words_from(v@, i as int),
        decreases v.len() - i,
    {
        let ghost i0 = i as int;
        let mut a = i;
        while a < v.len() && is_whitespace(v[a])
            invariant
                i <= a <= v@.len(),
                skip_ws(v@, i0) == skip_ws(v@, a as int),
            decreases v.len() - a,
        {
            a += 1;
        }
        if a >= v.len() {
            proof {
                lemma_skip_ws(v@, i0);
            }
            assert(words_from(v@, i0) =~= Seq::<Seq<char>>::empty());
            i = a;
            assert(words_from(v@, i as int) =~= Seq::<Seq<char>>::empty());
        } else {
            let mut b = a;
            while b < v.len() && !is_whitespace(v[b])
                invariant
                    a <= b <= v@.len(),
                    word_end(v@, a as int) == word_end(v@, b as int),
                decreases v.len() - b,
            {
                b += 1;
            }
            let w = slice_chars(v, a, b);
            let ghost rb = r@;
            r.push(w);
            assert(r@.map_values(|x: Vec<char>| x@) == rb.map_values(|x: Vec<char>| x@).push(
                v@.subrange(a as int, b as int),
            ));
            assert(words_from(v@, i0) == seq![v@.subrange(a as int, b as int)] + words_from(
                v@,
                b as int,
            ));
            i = b;
        }
    }
    assert(words_from(v@, i as int) =~= Seq::<Seq<char>>::empty());
    r
}

/// The first ten words longer than three bytes.
fn long_words(v: &Vec<char>) -> (r: Vec<Vec<char>>)
    ensures
        r@.map_values(|x: Vec<char>| x@) == query_words(v@),
{
    let all = split_words(v);
    let ghost wv = all@.map_values(|x: Vec<char>| x@);
    let ghost pred = |w: Seq<char>| utf8_len(w) > 3;
    let mut r: Vec<Vec<char>> = Vec::new();
    let mut i: usize = 0;
    assert(wv.take(0).filter(pred) =~= Seq::<Seq<char>>::empty());
    assert(r@.map_values(|x: Vec<char>| x@) =~= Seq::<Seq<char>>::empty());
    while i < all.len() && r.len() < 10
        invariant
            i <= all@.len(),
            wv == all@.map_values(|x: Vec<char>| x@),
            wv == words(v@),
            pred == (|w: Seq<char>| utf8_len(w) > 3),
            r@.map_values(|x: Vec<char>| x@) == wv.take(i as int).filter(pred),
            r@.len() <= 10,
        decreases all.len() - i,
    {
        proof {
            assert(wv.take(i + 1).drop_last() == wv.take(i as int));
            assert(wv.take(i + 1) == wv.take(i as int).push(wv[i as int]));
            wv.take(i as int).lemma_filter_push(wv[i as int], pred);
            assert(pred(wv[i as int]) == (utf8_len(wv[i as int]) > 3));
            assert(wv.take(i + 1).filter(pred) == if pred(wv[i as int]) {
                wv.take(i as int).filter(pred).push(wv[i as int])
            } else {
                wv.take(i as int).filter(pred)
            });
        }
        assert(wv.take(i + 1).last() == wv[i as int]);
        assert(wv[i as int] == all@[i as int]@);
        if utf8_len_exceeds(&all[i], 3) {
            let ghost rb = r@;
            let w = slice_chars(&all[i], 0, all[i].len());
            assert(w@ == wv[i as int]);
            r.push(w);
            assert(r@.map_values(|x: Vec<char>| x@) == rb.map_values(|x: Vec<char>| x@).push(
                wv[i as int],
            ));
        }
        i += 1;
    }
    proof {
        let long = wv.filter(pred);
        if r@.len() < 10 {
            assert(wv.take(i as int) == wv);
        } else {
            lemma_filter_prefix(wv, pred, i as int);
            assert(long.take(10) == wv.take(i as int).filter(pred));
        }
    }
    r
}

proof fn lemma_filter_prefix(s: Seq<Seq<char>>, pred: spec_fn(Seq<char>) -> bool, n: int)
    requires
        0 <= n <= s.len(),
    ensures
        s.filter(pred).len() >= s.take(n).filter(pred).len(),
        s.take(n).filter(pred) == s.filter(pred).take(s.take(n).filter(pred).len() as int),
    decreases s.len() - n,
{
    if n == s.len() {
        assert(s.take(n) == s);
    } else {
        lemma_filter_prefix(s, pred, n + 1);
        reveal(Seq::filter);
        assert(s.take(n + 1).drop_last() == s.take(n));
        let a = s.take(n).filter(pred);
        let b = s.take(n + 1).filter(pred);
        if pred(s[n]) {
            assert(b == a.push(s[n]));
            assert(a == b.take(a.len() as int));
        } else {
            assert(b == a);
        }
        assert(s.filter(pred).take(a.len() as int) == s.filter(pred).take(b.len() as int).take(
            a.len() as int,
        ));
    }
}

/// `v` without non-alphanumeric characters at either end (`str::trim_matches`).
fn clean_word_of(v: &Vec<char>) -> (r: Vec<char>)
    ensures
        r@ == clean_word(v@),
{
    let mut i: usize = 0;
    assert(v@.skip(0) == v@);
    while i < v.len() && !is_alphanumeric(v[i])
        invariant
            i <= v@.len(),
            trim_non_alnum_start(v@) == trim_non_alnum_start(v@.skip(i as int)),
        decreases v.len() - i,
    {
        assert(v@.skip(i as int).drop_first() == v@.skip(i + 1));
        i += 1;
    }
    let rest = slice_chars(v, i, v.len());
    assert(rest@ == v@.skip(i as int));
    let mut j = rest.len();
    assert(rest@.take(j as int) == rest@);
    while j > 0 && !is_alphanumeric(rest[j - 1])
        invariant
            j <= rest@.len(),
            trim_non_alnum_end(rest@) == trim_non_alnum_end(rest@.take(j as int)),
        decreases j,
    {
        assert(rest@.take(j as int).drop_last() == rest@.take(j - 1));
        j -= 1;
    }
    slice_chars(&rest, 0, j)
}

pub(crate) fn quote_chars(v: &Vec<char>) -> (r: Vec<char>)
    ensures
        r@ == quoted(v@),
{
    let mut r: Vec<char> = Vec::new();
    r.push('"');
    push_all(&mut r, v);
    r.push('"');
    assert(r@ == quoted(v@));
    r
}

pub(crate) fn escape_quotes_of(v: &Vec<char>) -> (r: Vec<char>)
    ensures
        r@ == escape_quotes(v@),
{
    let mut r: Vec<char> = Vec::new();
    let mut i: usize = 0;
    assert(v@.take(0) =~= Seq::<char>::empty());
    while i < v.len()
        invariant
            i <= v@.len(),
            r@ == escape_quotes(v@.take(i as int)),
        decreases v.len() - i,
    {
        assert(v@.take(i + 1).drop_last() == v@.take(i as int));
        if v[i] == '"' {
            r.push('"');
            r.push('"');
            assert(r@ == escape_quotes(v@.take(i as int)) + seq!['"', '"']);
        } else {
            r.push(v[i]);
        }
        i += 1;
    }
    assert(v@.take(v@.len() as int) == v@);
    r
}

/// Whether some part contains `c`.
fn any_contains(parts: &Vec<Vec<char>>, c: &Vec<char>) -> (r: bool)
    ensures
        r == exists|k: int| 0 <= k < parts@.len() && contains(parts@[k]@, c@),
{
    let mut i: usize = 0;
    while i < parts.len()
        invariant
            i <= parts@.len(),
            forall|k: int| 0 <= k < i ==> !contains(#[trigger] parts@[k]@, c@),
        decreases parts.len() - i,
    {
        if contains_chars(&parts[i], c) {
            return true;
        }
        i += 1;
    }
    false
}

/// Builds the FTS5 `MATCH` query for a question: the quoted search terms and
/// the quoted, cleaned words longer than three bytes (at most ten words, each
/// only when no earlier part contains it), joined by ` OR `. When nothing
/// qualifies, the whole question becomes one quoted phrase with its quotes
/// doubled.
pub fn build_expanded_fts_query(user_text: &str) -> (r: String)
    ensures
        r@ == expanded_fts_query(user_text@),
{
    let terms = extract_search_terms(user_text);
    build_fts_query(&terms, user_text)
}

/// Builds the FTS5 `MATCH` query for a question from the search terms already
/// found in it (see [`fts_query`]).
pub fn build_fts_query(terms: &Vec<String>, user_text: &str) -> (r: String)
    ensures
        r@ == fts_query(strings_view(terms@), user_text@),
{
    let text = chars_of(user_text);
    let ws = long_words(&text);
    let ghost wv = ws@.map_values(|x: Vec<char>| x@);
    let ghost tv = strings_view(terms@);
    let mut parts: Vec<Vec<char>> = Vec::new();
    let mut i: usize = 0;
    assert(parts@.map_values(|x: Vec<char>| x@) =~= Seq::<Seq<char>>::empty());
    while i < terms.len()
        invariant
            i <= terms@.len(),
            tv == strings_view(terms@),
            parts@.map_values(|x: Vec<char>| x@) == tv.take(i as int).map_values(
                |t: Seq<char>| quoted(t),
            ),
        decreases terms.len() - i,
    {
        let t = chars_of(terms[i].as_str());
        let q = quote_chars(&t);
        let ghost pb = parts@;
        parts.push(q);
        assert(parts@.map_values(|x: Vec<char>| x@) == pb.map_values(|x: Vec<char>| x@).push(
            quoted(tv[i as int]),
        ));
        assert(tv.take(i + 1).map_values(|t: Seq<char>| quoted(t)) == tv.take(i as int).map_values(
            |t: Seq<char>| quoted(t),
        ).push(quoted(tv[i as int])));
        i += 1;
    }
    assert(tv.take(tv.len() as int) == tv);
    let ghost base = tv.map_values(|t: Seq<char>| quoted(t));
    let mut j: usize = 0;
    while j < ws.len()
        invariant
            j <= ws@.len(),
            wv == ws@.map_values(|x: Vec<char>| x@),
            parts@.map_values(|x: Vec<char>| x@) == add_words(base, wv, j as int),
        decreases ws.len() - j,
    {
        let c = clean_word_of(&ws[j]);
        assert(c@ == clean_word(wv[j as int]));
        let ghost ps = parts@.map_values(|x: Vec<char>| x@);
        if utf8_len_exceeds(&c, 3) && !any_contains(&parts, &c) {
            let q = quote_chars(&c);
            let ghost pb = parts@;
            parts.push(q);
            assert(parts@.map_values(|x: Vec<char>| x@) == pb.map_values(|x: Vec<char>| x@).push(
                quoted(c@),
            ));
        } else {
            proof {
                if utf8_len(c@) > 3 {
                    let k = choose|k: int| 0 <= k < parts@.len() && contains(parts@[k]@, c@);
                    assert(ps[k] == parts@[k]@);
                }
            }
        }
        proof {
            assert forall|k: int| 0 <= k < ps.len() && contains(ps[k], c@) implies exists|
                m: int,
            | 0 <= m < parts@.len() && contains(parts@[m]@, c@) by {
                assert(ps[k] == parts@[k]@);
            }
        }
        j += 1;
    }
    if parts.len() == 0 {
        let e = escape_quotes_of(&text);
        let q = quote_chars(&e);
        string_from_chars(&q)
    } else {
        let sep = chars_of(" OR ");
        let r = join_chars(&parts, &sep);
        string_from_chars(&r)
    }
}

} // verus!
