//! Repositories attached to a session: naming them, telling git remotes from
//! local paths, and the computations behind the file tree, the summary and the
//! file search.
use vstd::prelude::*;

use crate::chunker::{rfind_char, rfind_char_in};
use crate::text::{
    chars_of, has_prefix, has_suffix, slice_chars, starts_with, string_from_chars, trim_end_char,
    trim_end_char_chars, trim_end_matches, trim_end_matches_chars,
};

verus! {

/// A repository attached to a session.
pub struct RepoContext {
    pub id: String,
    pub session_id: String,
    pub name: String,
    pub source: String,
    pub local_path: String,
    pub created_at: String,
}

/// A file or directory in a repository tree; `path` is relative to the root.
pub struct FileNode {
    pub name: String,
    pub path: String,
    pub is_dir: bool,
    pub children: Vec<FileNode>,
}

/// A file found by a name search.
pub struct FileSearchResult {
    pub repo_id: String,
    pub repo_name: String,
    pub relative_path: String,
    pub display: String,
}

/// A file mentioned in a conversation, with its content.
pub struct RepoFileContext {
    pub display: String,
    pub content: String,
}

/// The repository name in a clone URL: the last path segment, without
/// trailing slashes and without `.git` suffixes.
pub open spec fn repo_name_of(url: Seq<char>) -> Seq<char> {
    let t = trim_end_char(url, '/');
    let seg = match rfind_char(t, '/') {
        Some(k) => t.skip(k + 1),
        None => t,
    };
    trim_end_matches(seg, ".git"@)
}

/// The name a cloned repository gets, from its URL
/// (`https://github.com/user/my-repo.git` gives `my-repo`).
pub fn extract_repo_name(url: &str) -> (r: String)
    ensures
        r@ == repo_name_of(url@),
{
    let u = chars_of(url);
    let t = trim_end_char_chars(&u, '/');
    let seg = match rfind_char_in(&t, '/') {
        Some(k) => {
            let s = slice_chars(&t, k + 1, t.len());
            assert(s@ == t@.skip(k + 1));
            s
        },
        None => {
            let s = slice_chars(&t, 0, t.len());
            assert(s@ == t@);
            s
        },
    };
    let suffix = chars_of(".git");
    let name = trim_end_matches_chars(&seg, &suffix);
    string_from_chars(&name)
}

/// Whether a source names a git remote: it starts with `http://`, `https://`,
/// `git@` or `ssh://`.
pub open spec fn is_remote(source: Seq<char>) -> bool {
    has_prefix(source, "http://"@) || has_prefix(source, "https://"@) || has_prefix(
        source,
        "git@"@,
    ) || has_prefix(source, "ssh://"@)
}

/// Whether a repository source is a git URL (to clone) rather than a local path.
pub fn is_git_url(source: &str) -> (r: bool)
    ensures
        r == is_remote(source@),
{
    let s = chars_of(source);
    starts_with(&s, &chars_of("http://")) || starts_with(&s, &chars_of("https://"))
        || starts_with(&s, &chars_of("git@")) || starts_with(&s, &chars_of("ssh://"))
}

/// The name a local repository gets: the last component of its canonical
/// path, or `repo` when the path has none.
pub fn local_repo_name(canonical_path: &str) -> (r: String)
    ensures
        r@ == (match crate::chunker::file_name(canonical_path@) {
            Some(n) => n,
            None => "repo"@,
        }),
{
    let p = chars_of(canonical_path);
    match crate::chunker::file_name_of(&p) {
        Some(n) => string_from_chars(&n),
        None => "repo".to_string(),
    }
}

// ---------------------------------------------------------------------------
// Laws
// ---------------------------------------------------------------------------

/// `k` copies of `.git`, one after another.
pub open spec fn git_suffixes(k: nat) -> Seq<char>
    decreases k,
{
    if k == 0 {
        seq![]
    } else {
        git_suffixes((k - 1) as nat) + ".git"@
    }
}

/// `n` slashes.
pub open spec fn slashes(n: nat) -> Seq<char> {
    Seq::new(n, |_i: int| '/')
}

proof fn lemma_trim_end_slashes(s: Seq<char>) -> (n: nat)
    ensures
        s == trim_end_char(s, '/') + slashes(n),
        trim_end_char(s, '/').len() == 0 || trim_end_char(s, '/').last() != '/',
    decreases s.len(),
{
    if s.len() > 0 && s.last() == '/' {
        let m = lemma_trim_end_slashes(s.drop_last());
        assert(slashes(m).push('/') =~= slashes(m + 1));
        assert(s =~= s.drop_last().push('/'));
        assert(s =~= trim_end_char(s, '/') + slashes(m + 1));
        m + 1
    } else {
        assert(s == s + slashes(0));
        0
    }
}

proof fn lemma_rfind_last(s: Seq<char>, c: char)
    ensures
        rfind_char(s, c) matches Some(k) ==> 0 <= k < s.len() && s[k] == c && forall|j: int|
            k < j < s.len() ==> s[j] != c,
        rfind_char(s, c) is None ==> forall|j: int| 0 <= j < s.len() ==> s[j] != c,
    decreases s.len(),
{
    if s.len() > 0 && s.last() != c {
        lemma_rfind_last(s.drop_last(), c);
        assert forall|j: int| 0 <= j < s.len() - 1 implies s[j] == s.drop_last()[j] by {}
    }
}

proof fn lemma_trim_git(s: Seq<char>) -> (k: nat)
    ensures
        s == trim_end_matches(s, ".git"@) + git_suffixes(k),
        !has_suffix(trim_end_matches(s, ".git"@), ".git"@),
    decreases s.len(),
{
    reveal_strlit(".git");
    if has_suffix(s, ".git"@) {
        let t = s.take(s.len() - 4);
        let m = lemma_trim_git(t);
        assert(s == t + ".git"@);
        assert(s == trim_end_matches(s, ".git"@) + git_suffixes(m + 1));
        m + 1
    } else {
        assert(s == s + git_suffixes(0));
        0
    }
}

/// The name of a cloned repository is the last `/`-separated segment of its
/// URL (trailing slashes ignored) with the `.git` endings taken off and
/// nothing else: the URL is some text that is empty or ends in `/`, then the
/// name followed by zero or more `.git`, with no `/` in that segment, then
/// zero or more slashes; and the name does not itself end in `.git`.
pub proof fn law_repo_name_is_last_segment(url: Seq<char>)
    ensures
        exists|pre: Seq<char>, k: nat, n: nat|
            #![trigger git_suffixes(k), slashes(n), pre.len()]
            {
                let seg = repo_name_of(url) + git_suffixes(k);
                &&& url == pre + seg + slashes(n)
                &&& pre.len() == 0 || pre.last() == '/'
                &&& seg.len() == 0 ==> pre.len() == 0
                &&& forall|j: int| 0 <= j < seg.len() ==> seg[j] != '/'
            },
        !has_suffix(repo_name_of(url), ".git"@),
{
    let n = lemma_trim_end_slashes(url);
    let t = trim_end_char(url, '/');
    lemma_rfind_last(t, '/');
    let (pre, seg) = match rfind_char(t, '/') {
        Some(k) => (t.take(k + 1), t.skip(k + 1)),
        None => (Seq::<char>::empty(), t),
    };
    assert(t == pre + seg);
    let k = lemma_trim_git(seg);
    assert(repo_name_of(url) == trim_end_matches(seg, ".git"@));
    assert(forall|j: int| 0 <= j < seg.len() ==> seg[j] == t[pre.len() + j]);
    assert(url == pre + (repo_name_of(url) + git_suffixes(k)) + slashes(n));
    assert(pre.len() == 0 || pre.last() == '/');
    assert(seg.len() == 0 ==> pre.len() == 0);
}


} // verus!
