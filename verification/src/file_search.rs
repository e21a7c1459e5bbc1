//! Searching a repository's files by name: case-insensitive matches of the
//! file name or path, best matches first.
//!
//! The application walks the repository (respecting `.gitignore`) and hands
//! the regular files over in walk order.
use vstd::prelude::*;
use vstd::relations::total_ordering;
use crate::order::{chars_le, chars_le_exec, key_order, key_views, sort_keys, SortKey};
use crate::repo::FileSearchResult;
use crate::text::{chars_eq, chars_of, contains, contains_chars, lowercase, push_str,
    string_from_chars, to_lowercase};

verus! {

// ---------------------------------------------------------------------------
// File search
// ---------------------------------------------------------------------------

/// A regular file met by the walk: its path relative to the repository root
/// and its file name.
pub struct WalkFile {
    pub relative_path: String,
    pub file_name: String,
}

pub open spec fn walk_file_views(fs: Seq<WalkFile>) -> Seq<(Seq<char>, Seq<char>)> {
    fs.map_values(|f: WalkFile| (f.relative_path@, f.file_name@))
}

/// How well a file matches a query, case-insensitively: 100 when its name is
/// the query, 50 when its name contains it, 10 when its path contains it, and
/// 0 (no match) otherwise.
pub open spec fn match_score(query: Seq<char>, f: (Seq<char>, Seq<char>)) -> nat {
    let q = lowercase(query);
    let name = lowercase(f.1);
    if name == q {
        100
    } else if contains(name, q) {
        50
    } else if contains(lowercase(f.0), q) {
        10
    } else {
        0
    }
}

/// The files with the given score, in walk order.
pub open spec fn files_scoring(fs: Seq<(Seq<char>, Seq<char>)>, query: Seq<char>, score: nat) -> Seq<
    (Seq<char>, Seq<char>),
>
    decreases fs.len(),
{
    if fs.len() == 0 {
        seq![]
    } else {
        files_scoring(fs.drop_last(), query, score) + if match_score(query, fs.last()) == score {
            seq![fs.last()]
        } else {
            Seq::<(Seq<char>, Seq<char>)>::empty()
        }
    }
}

/// All matching files, best score first and in walk order within a score.
pub open spec fn ranked_files(fs: Seq<(Seq<char>, Seq<char>)>, query: Seq<char>) -> Seq<
    (Seq<char>, Seq<char>),
> {
    files_scoring(fs, query, 100) + files_scoring(fs, query, 50) + files_scoring(fs, query, 10)
}

/// At most the first twenty of a sequence.
pub open spec fn first_twenty<T>(s: Seq<T>) -> Seq<T> {
    s.take(if s.len() < 20 {
        s.len() as int
    } else {
        20
    })
}

fn score_file(query_lower: &Vec<char>, Ghost(query): Ghost<Seq<char>>, f: &WalkFile) -> (s: u32)
    requires
        query_lower@ == lowercase(query),
    ensures
        s == match_score(query, (f.relative_path@, f.file_name@)),
{
    let name = chars_of(to_lowercase(f.file_name.as_str()).as_str());
    if chars_eq(&name, query_lower) {
        100
    } else if contains_chars(&name, query_lower) {
        50
    } else {
        let path = chars_of(to_lowercase(f.relative_path.as_str()).as_str());
        if contains_chars(&path, query_lower) {
            10
        } else {
            0
        }
    }
}

/// The search result for a file of a repository.
fn search_result(repo_id: &str, repo_name: &str, relative_path: &String) -> (r: FileSearchResult)
    ensures
        r.repo_id@ == repo_id@,
        r.repo_name@ == repo_name@,
        r.relative_path@ == relative_path@,
        r.display@ == repo_name@ + ": "@ + relative_path@,
{
    let mut d: Vec<char> = Vec::new();
    push_str(&mut d, repo_name);
    push_str(&mut d, ": ");
    push_str(&mut d, relative_path.as_str());
    FileSearchResult {
        repo_id: repo_id.to_string(),
        repo_name: repo_name.to_string(),
        relative_path: relative_path.clone(),
        display: string_from_chars(&d),
    }
}

/// Whether the search results are those for the given files of a repository.
pub open spec fn results_for(
    r: Seq<FileSearchResult>,
    files: Seq<(Seq<char>, Seq<char>)>,
    repo_id: Seq<char>,
    repo_name: Seq<char>,
) -> bool {
    &&& r.len() == files.len()
    &&& forall|i: int|
        0 <= i < r.len() ==> {
            &&& (#[trigger] r[i]).repo_id@ == repo_id
            &&& r[i].repo_name@ == repo_name
            &&& r[i].relative_path@ == files[i].0
            &&& r[i].display@ == repo_name + ": "@ + files[i].0
        }
}

/// The files of a repository whose name or path matches `query`, case
/// insensitively: exact name matches first, then names containing the
/// query, then paths containing it, each group in walk order, at most twenty.
pub fn rank_file_matches(files: &Vec<WalkFile>, query: &str, repo_id: &str, repo_name: &str) -> (r:
    Vec<FileSearchResult>)
    ensures
        results_for(
            r@,
            first_twenty(ranked_files(walk_file_views(files@), query@)),
            repo_id@,
            repo_name@,
        ),
{
    let ghost fs = walk_file_views(files@);
    let ql = chars_of(to_lowercase(query).as_str());
    let mut scores: Vec<u32> = Vec::new();
    let mut i: usize = 0;
    while i < files.len()
        invariant
            i <= files@.len(),
            fs == walk_file_views(files@),
            ql@ == lowercase(query@),
            scores@.len() == i,
            forall|m: int| 0 <= m < i ==> #[trigger] scores@[m] == match_score(query@, fs[m]),
        decreases files.len() - i,
    {
        let s = score_file(&ql, Ghost(query@), &files[i]);
        scores.push(s);
        i += 1;
    }
    let mut out: Vec<FileSearchResult> = Vec::new();
    let ghost mut done: Seq<(Seq<char>, Seq<char>)> = seq![];
    let targets: [u32; 3] = [100, 50, 10];
    let mut t: usize = 0;
    while t < 3
        invariant
            t <= 3,
            fs == walk_file_views(files@),
            scores@.len() == fs.len(),
            forall|m: int| 0 <= m < fs.len() ==> #[trigger] scores@[m] == match_score(query@, fs[m]),
            targets@ == seq![100u32, 50, 10],
            done == (if t == 0 {
                seq![]
            } else if t == 1 {
                files_scoring(fs, query@, 100)
            } else if t == 2 {
                files_scoring(fs, query@, 100) + files_scoring(fs, query@, 50)
            } else {
                ranked_files(fs, query@)
            }),
            results_for(out@, done, repo_id@, repo_name@),
        decreases 3 - t,
    {
        let target = targets[t];
        let ghost start = done;
        let mut k: usize = 0;
        while k < files.len()
            invariant
                k <= fs.len(),
                fs == walk_file_views(files@),
                scores@.len() == fs.len(),
                forall|m: int| 0 <= m < fs.len() ==> #[trigger] scores@[m] == match_score(query@, fs[m]),
                done == start + files_scoring(fs.take(k as int), query@, target as nat),
                results_for(out@, done, repo_id@, repo_name@),
            decreases files.len() - k,
        {
            proof {
                assert(fs.take(k + 1).drop_last() == fs.take(k as int));
                assert(fs.take(k + 1).last() == fs[k as int]);
            }
            if scores[k] == target {
                let res = search_result(repo_id, repo_name, &files[k].relative_path);
                let ghost before_out = out@;
                let ghost before_done = done;
                out.push(res);
                proof {
                    assert(fs[k as int].0 == files@[k as int].relative_path@);
                    done = done.push(fs[k as int]);
                    assert(start + files_scoring(fs.take(k + 1), query@, target as nat) =~= done);
                    assert forall|m: int| 0 <= m < out@.len() implies {
                        &&& (#[trigger] out@[m]).repo_id@ == repo_id@
                        &&& out@[m].repo_name@ == repo_name@
                        &&& out@[m].relative_path@ == done[m].0
                        &&& out@[m].display@ == repo_name@ + ": "@ + done[m].0
                    } by {
                        if m < out@.len() - 1 {
                            assert(out@[m] == before_out[m]);
                            assert(done[m] == before_done[m]);
                        }
                    }
                }
            } else {
                proof {
                    assert(start + files_scoring(fs.take(k + 1), query@, target as nat) =~= done);
                }
            }
            k += 1;
        }
        proof {
            assert(fs.take(fs.len() as int) == fs);
        }
        t += 1;
    }
    out.truncate(20);
    out
}

pub proof fn lemma_files_scoring(fs: Seq<(Seq<char>, Seq<char>)>, query: Seq<char>, score: nat)
    ensures
        forall|i: int|
            0 <= i < files_scoring(fs, query, score).len() ==> match_score(
                query,
                #[trigger] files_scoring(fs, query, score)[i],
            ) == score,
    decreases fs.len(),
{
    if fs.len() > 0 {
        lemma_files_scoring(fs.drop_last(), query, score);
        let prev = files_scoring(fs.drop_last(), query, score);
        assert forall|i: int| 0 <= i < files_scoring(fs, query, score).len() implies match_score(
            query,
            #[trigger] files_scoring(fs, query, score)[i],
        ) == score by {
            if i < prev.len() {
                assert(files_scoring(fs, query, score)[i] == prev[i]);
            }
        }
    }
}

/// File search returns at most twenty files, every one a match, the best
/// matches first.
pub proof fn law_file_matches_best_first(fs: Seq<(Seq<char>, Seq<char>)>, query: Seq<char>)
    ensures
        first_twenty(ranked_files(fs, query)).len() <= 20,
        forall|i: int|
            0 <= i < first_twenty(ranked_files(fs, query)).len() ==> match_score(
                query,
                #[trigger] first_twenty(ranked_files(fs, query))[i],
            ) > 0,
        forall|i: int, j: int|
            0 <= i < j < first_twenty(ranked_files(fs, query)).len() ==> match_score(
                query,
                #[trigger] first_twenty(ranked_files(fs, query))[i],
            ) >= match_score(query, #[trigger] first_twenty(ranked_files(fs, query))[j]),
{
    let a = files_scoring(fs, query, 100);
    let b = files_scoring(fs, query, 50);
    let c = files_scoring(fs, query, 10);
    lemma_files_scoring(fs, query, 100);
    lemma_files_scoring(fs, query, 50);
    lemma_files_scoring(fs, query, 10);
    let r = ranked_files(fs, query);
    assert forall|i: int| 0 <= i < r.len() implies (match_score(query, #[trigger] r[i]) == 100
        && i < a.len()) || (match_score(query, r[i]) == 50 && a.len() <= i < a.len() + b.len())
        || (match_score(query, r[i]) == 10 && a.len() + b.len() <= i) by {
        if i < a.len() {
            assert(r[i] == a[i]);
        } else if i < a.len() + b.len() {
            assert(r[i] == b[i - a.len()]);
        } else {
            assert(r[i] == c[i - a.len() - b.len()]);
        }
    }
    let t = first_twenty(r);
    assert forall|i: int| 0 <= i < t.len() implies #[trigger] t[i] == r[i] by {}
}

proof fn lemma_files_scoring_has(
    fs: Seq<(Seq<char>, Seq<char>)>,
    query: Seq<char>,
    score: nat,
    i: int,
)
    requires
        0 <= i < fs.len(),
        match_score(query, fs[i]) == score,
    ensures
        files_scoring(fs, query, score).contains(fs[i]),
    decreases fs.len(),
{
    let prev = files_scoring(fs.drop_last(), query, score);
    if i == fs.len() - 1 {
        assert(files_scoring(fs, query, score)[prev.len() as int] == fs[i]);
    } else {
        lemma_files_scoring_has(fs.drop_last(), query, score, i);
        let j = choose|j: int| 0 <= j < prev.len() && prev[j] == fs.drop_last()[i];
        assert(files_scoring(fs, query, score)[j] == prev[j]);
    }
}

proof fn lemma_files_scoring_from(
    fs: Seq<(Seq<char>, Seq<char>)>,
    query: Seq<char>,
    score: nat,
    x: (Seq<char>, Seq<char>),
)
    requires
        files_scoring(fs, query, score).contains(x),
    ensures
        fs.contains(x),
    decreases fs.len(),
{
    let prev = files_scoring(fs.drop_last(), query, score);
    let j = choose|j: int| 0 <= j < files_scoring(fs, query, score).len() && files_scoring(
        fs,
        query,
        score,
    )[j] == x;
    if j < prev.len() {
        assert(prev[j] == x);
        lemma_files_scoring_from(fs.drop_last(), query, score, x);
        let i = choose|i: int| 0 <= i < fs.drop_last().len() && fs.drop_last()[i] == x;
        assert(fs[i] == x);
    } else {
        assert(fs[fs.len() - 1] == x);
    }
}

/// Whether a file's name or path contains the query, ignoring case, or its
/// name is the query, ignoring case.
pub open spec fn name_or_path_matches(query: Seq<char>, f: (Seq<char>, Seq<char>)) -> bool {
    let q = lowercase(query);
    lowercase(f.1) == q || contains(lowercase(f.1), q) || contains(lowercase(f.0), q)
}

/// File search finds what it should, ignoring case: a walked file whose name
/// or path contains the query (both lowercased) is among the results unless
/// twenty results are already returned; and every result is a walked file
/// whose name or path matches the query that way.
pub proof fn law_search_finds_case_insensitive_matches(
    fs: Seq<(Seq<char>, Seq<char>)>,
    query: Seq<char>,
    i: int,
    x: (Seq<char>, Seq<char>),
)
    ensures
        0 <= i < fs.len() && (contains(lowercase(fs[i].1), lowercase(query)) || contains(
            lowercase(fs[i].0),
            lowercase(query),
        )) ==> first_twenty(ranked_files(fs, query)).contains(fs[i]) || first_twenty(
            ranked_files(fs, query),
        ).len() == 20,
        first_twenty(ranked_files(fs, query)).contains(x) ==> fs.contains(x)
            && name_or_path_matches(query, x),
{
    let a = files_scoring(fs, query, 100);
    let b = files_scoring(fs, query, 50);
    let c = files_scoring(fs, query, 10);
    let r = ranked_files(fs, query);
    let t = first_twenty(r);
    assert forall|m: int| 0 <= m < t.len() implies #[trigger] t[m] == r[m] by {}
    if 0 <= i < fs.len() && (contains(lowercase(fs[i].1), lowercase(query)) || contains(
        lowercase(fs[i].0),
        lowercase(query),
    )) {
        let s = match_score(query, fs[i]);
        lemma_files_scoring_has(fs, query, s, i);
        let pos: int = if s == 100 {
            let j = choose|j: int| 0 <= j < a.len() && a[j] == fs[i];
            assert(r[j] == a[j]);
            j
        } else if s == 50 {
            let j = choose|j: int| 0 <= j < b.len() && b[j] == fs[i];
            assert(r[a.len() + j] == b[j]);
            a.len() + j
        } else {
            let j = choose|j: int| 0 <= j < c.len() && c[j] == fs[i];
            assert(r[a.len() + b.len() + j] == c[j]);
            a.len() + b.len() + j
        };
        assert(r[pos] == fs[i]);
        if pos < 20 {
            assert(t[pos] == fs[i]);
        }
    }
    if t.contains(x) {
        let m = choose|m: int| 0 <= m < t.len() && t[m] == x;
        lemma_files_scoring(fs, query, 100);
        lemma_files_scoring(fs, query, 50);
        lemma_files_scoring(fs, query, 10);
        if m < a.len() {
            assert(r[m] == a[m]);
            assert(a.contains(x));
            lemma_files_scoring_from(fs, query, 100, x);
        } else if m < a.len() + b.len() {
            assert(r[m] == b[m - a.len()]);
            assert(b.contains(x));
            lemma_files_scoring_from(fs, query, 50, x);
        } else {
            assert(r[m] == c[m - a.len() - b.len()]);
            assert(c.contains(x));
            lemma_files_scoring_from(fs, query, 10, x);
        }
    }
}

/// File search ranks by how the name matches, ignoring case: a result whose
/// name is the query comes before any whose name is not, and a result whose
/// name contains the query comes before any whose name neither is nor
/// contains it (where only the path matches).
pub proof fn law_search_ranks_name_matches_first(
    fs: Seq<(Seq<char>, Seq<char>)>,
    query: Seq<char>,
    i: int,
    j: int,
)
    requires
        0 <= i < j < first_twenty(ranked_files(fs, query)).len(),
    ensures
        ({
            let t = first_twenty(ranked_files(fs, query));
            let q = lowercase(query);
            &&& lowercase(t[j].1) == q ==> lowercase(t[i].1) == q
            &&& contains(lowercase(t[j].1), q) ==> lowercase(t[i].1) == q || contains(
                lowercase(t[i].1),
                q,
            )
        }),
{
    law_file_matches_best_first(fs, query);
    let t = first_twenty(ranked_files(fs, query));
    assert(match_score(query, t[i]) >= match_score(query, t[j]));
    assert(match_score(query, t[j]) > 0);
}

/// Two lists of files that differ at most in the case of their names and
/// paths, position by position.
pub open spec fn same_but_case(a: Seq<(Seq<char>, Seq<char>)>, b: Seq<(Seq<char>, Seq<char>)>) -> bool {
    &&& a.len() == b.len()
    &&& forall|k: int|
        0 <= k < a.len() ==> lowercase((#[trigger] a[k]).0) == lowercase(b[k].0) && lowercase(
            a[k].1,
        ) == lowercase(b[k].1)
}

proof fn lemma_same_but_case_scoring(
    a: Seq<(Seq<char>, Seq<char>)>,
    b: Seq<(Seq<char>, Seq<char>)>,
    query: Seq<char>,
    score: nat,
)
    requires
        same_but_case(a, b),
    ensures
        same_but_case(files_scoring(a, query, score), files_scoring(b, query, score)),
    decreases a.len(),
{
    if a.len() > 0 {
        assert(same_but_case(a.drop_last(), b.drop_last())) by {
            assert forall|k: int| 0 <= k < a.len() - 1 implies #[trigger] a.drop_last()[k] == a[k]
                && b.drop_last()[k] == b[k] by {}
        }
        lemma_same_but_case_scoring(a.drop_last(), b.drop_last(), query, score);
        assert(a.last() == a[a.len() - 1] && b.last() == b[b.len() - 1]);
        assert(match_score(query, a.last()) == match_score(query, b.last()));
        let pa = files_scoring(a.drop_last(), query, score);
        let pb = files_scoring(b.drop_last(), query, score);
        let fa = files_scoring(a, query, score);
        let fb = files_scoring(b, query, score);
        assert forall|k: int| 0 <= k < fa.len() implies lowercase((#[trigger] fa[k]).0) == lowercase(
            fb[k].0,
        ) && lowercase(fa[k].1) == lowercase(fb[k].1) by {
            if k < pa.len() {
                assert(fa[k] == pa[k] && fb[k] == pb[k]);
            } else {
                assert(fa[k] == a.last() && fb[k] == b.last());
            }
        }
    }
}

proof fn lemma_same_but_case_append(
    a: Seq<(Seq<char>, Seq<char>)>,
    b: Seq<(Seq<char>, Seq<char>)>,
    c: Seq<(Seq<char>, Seq<char>)>,
    d: Seq<(Seq<char>, Seq<char>)>,
)
    requires
        same_but_case(a, b),
        same_but_case(c, d),
    ensures
        same_but_case(a + c, b + d),
{
    assert forall|k: int| 0 <= k < (a + c).len() implies lowercase((#[trigger] (a + c)[k]).0)
        == lowercase((b + d)[k].0) && lowercase((a + c)[k].1) == lowercase((b + d)[k].1) by {
        if k < a.len() {
            assert((a + c)[k] == a[k] && (b + d)[k] == b[k]);
        } else {
            assert((a + c)[k] == c[k - a.len()] && (b + d)[k] == d[k - a.len()]);
        }
    }
}

/// File search ignores case: changing the case of letters in the walked
/// files' names and paths gives results for the same files, in the same
/// order (each result the same file, up to case).
pub proof fn law_search_ignores_case(
    a: Seq<(Seq<char>, Seq<char>)>,
    b: Seq<(Seq<char>, Seq<char>)>,
    query: Seq<char>,
)
    requires
        same_but_case(a, b),
    ensures
        same_but_case(first_twenty(ranked_files(a, query)), first_twenty(ranked_files(b, query))),
{
    lemma_same_but_case_scoring(a, b, query, 100);
    lemma_same_but_case_scoring(a, b, query, 50);
    lemma_same_but_case_scoring(a, b, query, 10);
    lemma_same_but_case_append(
        files_scoring(a, query, 100),
        files_scoring(b, query, 100),
        files_scoring(a, query, 50),
        files_scoring(b, query, 50),
    );
    lemma_same_but_case_append(
        files_scoring(a, query, 100) + files_scoring(a, query, 50),
        files_scoring(b, query, 100) + files_scoring(b, query, 50),
        files_scoring(a, query, 10),
        files_scoring(b, query, 10),
    );
    let ra = ranked_files(a, query);
    let rb = ranked_files(b, query);
    let ta = first_twenty(ra);
    let tb = first_twenty(rb);
    assert forall|k: int| 0 <= k < ta.len() implies lowercase((#[trigger] ta[k]).0) == lowercase(
        tb[k].0,
    ) && lowercase(ta[k].1) == lowercase(tb[k].1) by {
        assert(ta[k] == ra[k] && tb[k] == rb[k]);
    }
}

/// The order of merged results: by display text, and in the order given where
/// display texts agree.
pub open spec fn display_le(a: (Seq<char>, nat), b: (Seq<char>, nat)) -> bool {
    chars_le(a.0, b.0) && (a.0 != b.0 || a.1 <= b.1)
}

/// The display texts of results, each with its position.
pub open spec fn display_keys(rs: Seq<FileSearchResult>) -> Seq<(Seq<char>, nat)> {
    Seq::new(rs.len(), |i: int| (rs[i].display@, i as nat))
}

/// The results of several repositories merged: ordered by display text (in
/// the given order where display texts agree), at most twenty.
pub open spec fn merged_results(rs: Seq<FileSearchResult>) -> Seq<FileSearchResult> {
    let order = display_keys(rs).sort_by(|a: (Seq<char>, nat), b: (Seq<char>, nat)| display_le(a, b));
    first_twenty(order).map_values(|k: (Seq<char>, nat)| rs[k.1 as int])
}

pub proof fn lemma_display_le_total_ordering()
    ensures
        total_ordering(|a: (Seq<char>, nat), b: (Seq<char>, nat)| display_le(a, b)),
{
    assert forall|a: (Seq<char>, nat)| #[trigger] display_le(a, a) by {
        crate::order::lemma_chars_le_reflexive(a.0);
    }
    assert forall|a: (Seq<char>, nat), b: (Seq<char>, nat)|
        #[trigger] display_le(a, b) && #[trigger] display_le(b, a) implies a == b by {
        crate::order::lemma_chars_le_antisymmetric(a.0, b.0);
    }
    assert forall|a: (Seq<char>, nat), b: (Seq<char>, nat), c: (Seq<char>, nat)|
        #[trigger] display_le(a, b) && #[trigger] display_le(b, c) implies display_le(a, c) by {
        crate::order::lemma_chars_le_transitive(a.0, b.0, c.0);
        if a.0 == c.0 {
            crate::order::lemma_chars_le_antisymmetric(a.0, b.0);
        }
    }
    assert forall|a: (Seq<char>, nat), b: (Seq<char>, nat)| #[trigger] display_le(a, b)
        || #[trigger] display_le(b, a) by {
        crate::order::lemma_chars_le_total(a.0, b.0);
    }
}

/// The sort key of one result when merging.
pub struct DisplayKey {
    pub display: Vec<char>,
    pub index: usize,
}

impl View for DisplayKey {
    type V = (Seq<char>, nat);

    open spec fn view(&self) -> (Seq<char>, nat) {
        (self.display@, self.index as nat)
    }
}

impl SortKey for DisplayKey {
    open spec fn key_le(a: (Seq<char>, nat), b: (Seq<char>, nat)) -> bool {
        display_le(a, b)
    }

    proof fn lemma_key_le_total() {
        lemma_display_le_total_ordering();
        let leq = |a: (Seq<char>, nat), b: (Seq<char>, nat)| Self::key_le(a, b);
        let d = |a: (Seq<char>, nat), b: (Seq<char>, nat)| display_le(a, b);
        assert(leq =~= d);
    }

    fn le(&self, other: &Self) -> (r: bool) {
        proof {
            crate::order::lemma_chars_le_reflexive(self.display@);
        }
        if chars_eq(&self.display, &other.display) {
            self.index <= other.index
        } else {
            chars_le_exec(&self.display, &other.display)
        }
    }
}

fn copy_result(r: &FileSearchResult) -> (c: FileSearchResult)
    ensures
        c == *r,
{
    FileSearchResult {
        repo_id: r.repo_id.clone(),
        repo_name: r.repo_name.clone(),
        relative_path: r.relative_path.clone(),
        display: r.display.clone(),
    }
}

/// The file matches of all a session's repositories as one list: ordered by
/// display text (stably), at most twenty.
pub fn merge_file_matches(results: &Vec<FileSearchResult>) -> (r: Vec<FileSearchResult>)
    ensures
        r@ == merged_results(results@),
{
    let ghost rs = results@;
    let mut keys: Vec<DisplayKey> = Vec::new();
    let mut i: usize = 0;
    while i < results.len()
        invariant
            i <= rs.len(),
            rs == results@,
            key_views(keys@) == display_keys(rs).take(i as int),
        decreases results.len() - i,
    {
        let ghost before = key_views(keys@);
        let key = DisplayKey { display: chars_of(results[i].display.as_str()), index: i };
        assert(key@ == display_keys(rs)[i as int]);
        keys.push(key);
        assert(key_views(keys@) =~= before.push(display_keys(rs)[i as int]));
        assert(key_views(keys@) =~= display_keys(rs).take(i + 1));
        i += 1;
    }
    assert(display_keys(rs).take(rs.len() as int) =~= display_keys(rs));
    let sorted = sort_keys(keys);
    let ghost order = key_views(sorted@);
    proof {
        let d = |a: (Seq<char>, nat), b: (Seq<char>, nat)| display_le(a, b);
        assert(key_order::<DisplayKey>() =~= d);
        lemma_display_le_total_ordering();
        display_keys(rs).lemma_sort_by_ensures(d);
        assert forall|j: int| 0 <= j < order.len() implies (#[trigger] order[j]).1 < rs.len() by {
            assert(order.contains(order[j]));
            if !display_keys(rs).contains(order[j]) {
                assert(!order.contains(order[j]));
            }
            let m = choose|m: int| 0 <= m < display_keys(rs).len() && display_keys(rs)[m] == order[j];
            assert(display_keys(rs)[m].1 == m);
        }
    }
    let n: usize = if sorted.len() < 20 {
        sorted.len()
    } else {
        20
    };
    let mut out: Vec<FileSearchResult> = Vec::new();
    let mut j: usize = 0;
    while j < n
        invariant
            n <= sorted@.len(),
            n <= 20,
            j <= n,
            rs == results@,
            order == key_views(sorted@),
            forall|m: int| 0 <= m < order.len() ==> (#[trigger] order[m]).1 < rs.len(),
            out@ == order.take(j as int).map_values(|k: (Seq<char>, nat)| rs[k.1 as int]),
        decreases n - j,
    {
        let idx = sorted[j].index;
        assert(order[j as int] == sorted@[j as int]@);
        let c = copy_result(&results[idx]);
        out.push(c);
        assert(out@ =~= order.take(j + 1).map_values(|k: (Seq<char>, nat)| rs[k.1 as int]));
        j += 1;
    }
    assert(first_twenty(order) =~= order.take(n as int));
    out
}

} // verus!
