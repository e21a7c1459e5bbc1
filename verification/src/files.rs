//! Reading a repository file for display: where it may lie and which
//! contents count as text.
use vstd::prelude::*;
use crate::text::{chars_of, decode_utf8_exact, has_prefix, push_str, starts_with, string_from_chars};

verus! {

/// How many leading bytes are probed for a NUL byte.
pub const BINARY_PROBE_BYTES: usize = 512;

/// Whether any of the first `n` bytes (or all, if fewer) is a NUL byte.
pub open spec fn has_nul_within(bytes: Seq<u8>, n: nat) -> bool {
    exists|i: int| 0 <= i < bytes.len() && i < n && #[trigger] bytes[i] == 0u8
}

/// Whether `path` lies inside `root`, both canonical absolute paths with `/`
/// between components: it is the root itself, or the root followed by `/` and
/// more components.
pub open spec fn within(root: Seq<char>, path: Seq<char>) -> bool {
    path == root || (has_prefix(path, root) && ((root.len() > 0 && root.last() == '/') || path[root.len() as int] == '/'))
}

/// Whether the canonical path `path` lies inside the canonical root `root`.
pub fn is_within(root: &str, path: &str) -> (r: bool)
    ensures
        r == within(root@, path@),
{
    let rv = chars_of(root);
    let pv = chars_of(path);
    if !starts_with(&pv, &rv) {
        proof {
            if pv@ == rv@ {
                assert(pv@.take(rv@.len() as int) =~= rv@);
            }
        }
        return false;
    }
    if pv.len() == rv.len() {
        assert(pv@ =~= rv@) by {
            assert(pv@.take(rv@.len() as int) == rv@);
            assert(pv@.take(pv@.len() as int) =~= pv@);
        }
        return true;
    }
    assert(pv@ != rv@);
    (rv.len() > 0 && rv[rv.len() - 1] == '/') || pv[rv.len()] == '/'
}

/// Whether one of the first `n` bytes is a NUL byte.
fn nul_within(bytes: &Vec<u8>, n: usize) -> (r: bool)
    ensures
        r == has_nul_within(bytes@, n as nat),
{
    let mut i: usize = 0;
    while i < bytes.len() && i < n
        invariant
            i <= bytes@.len(),
            forall|m: int| 0 <= m < i ==> bytes@[m] != 0u8,
        decreases bytes.len() - i,
    {
        if bytes[i] == 0 {
            return true;
        }
        i += 1;
    }
    false
}

/// Why a repository file cannot be shown as text.
pub enum FileTextError {
    /// A NUL byte among the first bytes: the file is taken as binary.
    Binary,
    /// The contents are not valid UTF-8.
    NotUtf8,
}

impl FileTextError {
    /// The message shown for the error, naming the file.
    pub fn message(&self, relative_path: &str) -> (m: String)
        ensures
            m@ == (match self {
                FileTextError::Binary => "File '"@ + relative_path@ + "' appears to be binary"@,
                FileTextError::NotUtf8 => "File '"@ + relative_path@ + "' is not valid UTF-8"@,
            }),
    {
        let mut v: Vec<char> = Vec::new();
        push_str(&mut v, "File '");
        push_str(&mut v, relative_path);
        match self {
            FileTextError::Binary => push_str(&mut v, "' appears to be binary"),
            FileTextError::NotUtf8 => push_str(&mut v, "' is not valid UTF-8"),
        }
        string_from_chars(&v)
    }
}

/// The text of a repository file from its bytes: refused as binary when a NUL
/// byte appears among the first 512 bytes, and as not UTF-8 when the bytes are
/// not valid UTF-8; otherwise the decoded text.
pub fn file_text(bytes: Vec<u8>) -> (r: Result<String, FileTextError>)
    ensures
        match r {
            Ok(s) => !has_nul_within(bytes@, BINARY_PROBE_BYTES as nat) && vstd::utf8::valid_utf8(
                bytes@,
            ) && s@ == vstd::utf8::decode_utf8(bytes@),
            Err(FileTextError::Binary) => has_nul_within(bytes@, BINARY_PROBE_BYTES as nat),
            Err(FileTextError::NotUtf8) => !has_nul_within(bytes@, BINARY_PROBE_BYTES as nat)
                && !vstd::utf8::valid_utf8(bytes@),
        },
{
    if nul_within(&bytes, BINARY_PROBE_BYTES) {
        return Err(FileTextError::Binary);
    }
    let ghost b = bytes@;
    match decode_utf8_exact(bytes) {
        Some(s) => Ok(s),
        None => Err(FileTextError::NotUtf8),
    }
}

} // verus!
