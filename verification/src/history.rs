//! Searching everything a user wrote: conversations, notes and document
//! sections. The database runs the queries; the query texts and the previews
//! are made here.
use vstd::prelude::*;
use crate::search::{escape_quotes, escape_quotes_of, quote_chars, quoted};
use crate::text::{
    char_utf8_width, chars_of, find, find_chars, lowercase, push_all, push_str, slice_chars,
    string_from_chars, to_lowercase, trim, trim_chars, utf8_len_of, utf8_len_sat,
    utf8_width,
};

verus! {

/// One hit of the global search.
pub struct SearchResult {
    /// `chat`, `note` or `doc`.
    pub content_type: String,
    pub session_id: String,
    pub session_name: String,
    pub thread_id: Option<String>,
    pub source_id: String,
    pub preview: String,
}

/// Whether a query is blank (only whitespace), in which case nothing is
/// searched.
pub fn is_blank_query(query: &str) -> (r: bool)
    ensures
        r == (trim(query@).len() == 0),
{
    let q = chars_of(query);
    trim_chars(&q).len() == 0
}

/// The full-text query that matches `query` as one phrase: quoted, with inner
/// quotes doubled.
pub fn phrase_query(query: &str) -> (r: String)
    ensures
        r@ == quoted(escape_quotes(query@)),
{
    let q = chars_of(query);
    let e = escape_quotes_of(&q);
    string_from_chars(&quote_chars(&e))
}

/// The `LIKE` pattern that matches any text containing `query`.
pub fn like_pattern(query: &str) -> (r: String)
    ensures
        r@ == seq!['%'] + query@ + seq!['%'],
{
    let mut v: Vec<char> = vec!['%'];
    push_str(&mut v, query);
    v.push('%');
    string_from_chars(&v)
}

/// The character position in `s` at which its UTF-8 encoding reaches byte
/// offset `b`; none when `b` falls inside a character or past the end.
pub open spec fn index_at_byte(s: Seq<char>, b: nat) -> Option<nat>
    decreases s.len(),
{
    if b == 0 {
        Some(0)
    } else if s.len() == 0 {
        None
    } else if utf8_width(s[0]) > b {
        None
    } else {
        match index_at_byte(s.drop_first(), (b - utf8_width(s[0])) as nat) {
            Some(k) => Some(k + 1),
            None => None,
        }
    }
}

/// How many bytes of context are shown on each side of a match.
pub open spec fn context_bytes() -> nat {
    40
}

/// The preview of a note or section for a query, as the search shows it;
/// `None` where the byte window around the match does not fall on character
/// boundaries of the text (the search cannot cut the text there).
///
/// The match is the first occurrence of the lowercased query in the
/// lowercased text; the window runs from 40 bytes before it to 40 bytes after
/// the query's length past it, within the text, with `...` marking a cut.
/// Without a match the preview is the first 80 characters. Byte counts are
/// those of `str::len` (saturated at `usize::MAX`, which no text in memory
/// reaches).
pub open spec fn text_preview(content: Seq<char>, query: Seq<char>) -> Option<Seq<char>> {
    let lower = lowercase(content);
    match find(lower, lowercase(query)) {
        Some(ci) => {
            let pos = utf8_len_sat(lower.take(ci));
            let start: nat = if pos >= 40 {
                (pos - 40) as nat
            } else {
                0
            };
            let far = pos + utf8_len_sat(query) + 40;
            let end: nat = if far < utf8_len_sat(content) {
                far as nat
            } else {
                utf8_len_sat(content)
            };
            match (index_at_byte(content, start), index_at_byte(content, end)) {
                (Some(a), Some(b)) => if a <= b {
                    let slice = content.subrange(a as int, b as int);
                    Some(
                        if start > 0 {
                            "..."@ + slice + "..."@
                        } else {
                            slice + "..."@
                        },
                    )
                } else {
                    None
                },
                _ => None,
            }
        },
        None => Some(
            content.take(
                if content.len() < 80 {
                    content.len() as int
                } else {
                    80
                },
            ),
        ),
    }
}

/// The character position at byte offset `b` of `v`.
fn index_at_byte_of(v: &Vec<char>, b: usize) -> (r: Option<usize>)
    ensures
        match r {
            Some(k) => index_at_byte(v@, b as nat) == Some(k as nat) && k <= v@.len(),
            None => index_at_byte(v@, b as nat) is None,
        },
{
    let mut i: usize = 0;
    let mut off: usize = 0;
    assert(v@.skip(0) =~= v@);
    while off < b && i < v.len()
        invariant
            i <= v@.len(),
            off <= b,
            match index_at_byte(v@.skip(i as int), (b - off) as nat) {
                Some(k) => index_at_byte(v@, b as nat) == Some((k + i) as nat),
                None => index_at_byte(v@, b as nat) is None,
            },
        decreases v.len() - i,
    {
        let w = char_utf8_width(v[i]);
        let ghost rest = v@.skip(i as int);
        assert(rest[0] == v@[i as int]);
        if w > b - off {
            return None;
        }
        assert(rest.drop_first() =~= v@.skip(i + 1));
        off = off + w;
        i = i + 1;
    }
    if off == b {
        Some(i)
    } else {
        assert(v@.skip(i as int).len() == 0);
        None
    }
}

/// The preview of `content` for `query` (see [`text_preview`]); `None` where
/// the window cannot be cut out.
pub fn match_preview(content: &str, query: &str) -> (r: Option<String>)
    ensures
        match r {
            Some(p) => text_preview(content@, query@) == Some(p@),
            None => text_preview(content@, query@) is None,
        },
{
    let cv = chars_of(content);
    let lower = chars_of(to_lowercase(content).as_str());
    let q = chars_of(to_lowercase(query).as_str());
    match find_chars(&lower, &q) {
        None => {
            let n = if cv.len() < 80 {
                cv.len()
            } else {
                80
            };
            let head = slice_chars(&cv, 0, n);
            Some(string_from_chars(&head))
        },
        Some(ci) => {
            proof {
                crate::text::lemma_find_from(lower@, q@, 0);
            }
            assert(ci <= lower@.len());
            let before = slice_chars(&lower, 0, ci);
            let pos = utf8_len_of(&before);
            let start: usize = if pos >= 40 {
                pos - 40
            } else {
                0
            };
            let qv = chars_of(query);
            let qlen = utf8_len_of(&qv);
            let clen = utf8_len_of(&cv);
            let ghost far: int = pos + qlen + 40;
            let end: usize = if pos as u128 + qlen as u128 + 40 < clen as u128 {
                pos + qlen + 40
            } else {
                clen
            };
            assert(end == (if far < clen { far as nat } else { clen as nat }));
            match index_at_byte_of(&cv, start) {
                Some(a) => match index_at_byte_of(&cv, end) {
                    Some(b) => {
                        if a <= b {
                            let slice = slice_chars(&cv, a, b);
                            let mut out: Vec<char> = Vec::new();
                            if start > 0 {
                                push_str(&mut out, "...");
                            }
                            push_all(&mut out, &slice);
                            push_str(&mut out, "...");
                            Some(string_from_chars(&out))
                        } else {
                            None
                        }
                    },
                    None => None,
                },
                None => None,
            }
        },
    }
}

} // verus!
