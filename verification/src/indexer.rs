//! Which files of a repository are indexed, and how each is cut into chunks.
use vstd::prelude::*;
use crate::chunker::{
    chunk_file, chunk_lines, chunk_views, detect_language, language_for_path, line_chunks,
    syntax_chunks, CodeChunk,
};
use crate::text::{decode_lossy, utf8_lossy};

verus! {

/// Files larger than this many bytes are not indexed.
pub const MAX_INDEXED_FILE_BYTES: u64 = 100_000;

/// The character budget of a chunk cut along the syntax tree.
pub const SYNTAX_CHUNK_CHARS: usize = 1600;

/// The lines in a window of a file chunked by lines, and the overlap between
/// consecutive windows.
pub const TEXT_WINDOW_LINES: usize = 50;
pub const TEXT_WINDOW_OVERLAP: usize = 10;

/// Whether a walked entry is indexed: a regular file not known to be larger
/// than the limit (a file whose size could not be read is indexed).
pub fn should_index(is_file: bool, size: Option<u64>) -> (r: bool)
    ensures
        r == (is_file && !(size matches Some(n) && n > MAX_INDEXED_FILE_BYTES)),
{
    if !is_file {
        return false;
    }
    match size {
        Some(n) => n <= MAX_INDEXED_FILE_BYTES,
        None => true,
    }
}

/// Whether some byte is NUL.
pub open spec fn has_nul(bytes: Seq<u8>) -> bool {
    exists|i: int| 0 <= i < bytes.len() && #[trigger] bytes[i] == 0u8
}

fn contains_nul(bytes: &Vec<u8>) -> (r: bool)
    ensures
        r == has_nul(bytes@),
{
    let mut i: usize = 0;
    while i < bytes.len()
        invariant
            i <= bytes@.len(),
            forall|m: int| 0 <= m < i ==> bytes@[m] != 0u8,
        decreases bytes.len() - i,
    {
        if bytes[i] == 0 {
            return true;
        }
        i += 1;
    }
    false
}

/// The chunks indexed for one file, from its path relative to the repository
/// and its bytes. A file with a NUL byte is binary and gets none (`None`).
/// Otherwise its text (invalid UTF-8 replaced) is chunked: by windows of 50
/// lines overlapping by 10 when its language is not recognised, and along its
/// syntax tree (at most 1600 characters a chunk) when it is, as
/// [`syntax_chunks`] describes.
pub fn file_chunks(relative_path: &str, bytes: &Vec<u8>) -> (r: Option<Vec<CodeChunk>>)
    ensures
        r is None <==> has_nul(bytes@),
        r matches Some(cs) ==> {
            let text = utf8_lossy(bytes@);
            match language_for_path(relative_path@) {
                None => chunk_views(cs@) == line_chunks(text, relative_path@, 50, 10),
                Some(lang) => chunk_views(cs@) == syntax_chunks(text, relative_path@, lang, 1600),
            }
        },
{
    if contains_nul(bytes) {
        return None;
    }
    let content = decode_lossy(bytes.as_slice());
    match detect_language(relative_path) {
        None => Some(chunk_lines(content.as_str(), relative_path, TEXT_WINDOW_LINES, TEXT_WINDOW_OVERLAP)),
        Some(language) => {
            proof {
                law_detected_languages_have_grammars(relative_path@);
            }
            Some(chunk_file(content.as_str(), relative_path, language, SYNTAX_CHUNK_CHARS))
        },
    }
}

/// Every language that detection reports has a bundled grammar.
pub proof fn law_detected_languages_have_grammars(p: Seq<char>)
    ensures
        language_for_path(p) matches Some(l) ==> crate::syntax::has_grammar(l),
{
}

} // verus!
