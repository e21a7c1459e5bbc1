//! The one-line summary of a repository's top levels: how many files, which
//! extensions are most frequent, and which well-known directories it has.
//!
//! The application walks the top two levels (respecting `.gitignore`) and
//! hands the entries over in walk order.
use vstd::prelude::*;
use vstd::relations::total_ordering;
use crate::chunker::{extension, extension_of};
use crate::order::{chars_le, chars_le_exec, key_order, key_views, lemma_chars_le_total_ordering,
    sort_keys, SortKey};
use crate::text::{chars_eq, chars_of, decimal, eq_str, has_suffix, join, join_chars, push_all, push_decimal,
    push_str, string_from_chars};

verus! {

// ---------------------------------------------------------------------------
// Walk entries
// ---------------------------------------------------------------------------

/// The kind of a directory entry met by the walk.
#[derive(Clone, Copy, PartialEq, Eq, Structural)]
pub enum EntryKind {
    Dir,
    File,
    /// Neither a directory nor a regular file (a symbolic link, a socket).
    Other,
}

/// One entry of a walk of the top two levels: its file name and kind.
pub struct WalkEntry {
    pub name: String,
    pub kind: EntryKind,
}

pub open spec fn entry_views(es: Seq<WalkEntry>) -> Seq<(Seq<char>, EntryKind)> {
    es.map_values(|e: WalkEntry| (e.name@, e.kind))
}

// ---------------------------------------------------------------------------
// Summary
// ---------------------------------------------------------------------------

/// Number of regular files among the entries.
pub open spec fn file_count(es: Seq<(Seq<char>, EntryKind)>) -> nat
    decreases es.len(),
{
    if es.len() == 0 {
        0
    } else {
        file_count(es.drop_last()) + if es.last().1 == EntryKind::File {
            1nat
        } else {
            0nat
        }
    }
}

/// The extension label (`.` and the extension) of one entry, if it is a file
/// with an extension.
pub open spec fn ext_label(e: (Seq<char>, EntryKind)) -> Option<Seq<char>> {
    if e.1 == EntryKind::File {
        match extension(e.0) {
            Some(x) => Some(seq!['.'] + x),
            None => None,
        }
    } else {
        None
    }
}

/// The extension labels of the files, in walk order, repeats included.
pub open spec fn ext_labels(es: Seq<(Seq<char>, EntryKind)>) -> Seq<Seq<char>>
    decreases es.len(),
{
    if es.len() == 0 {
        seq![]
    } else {
        ext_labels(es.drop_last()) + match ext_label(es.last()) {
            Some(l) => seq![l],
            None => Seq::<Seq<char>>::empty(),
        }
    }
}

/// The position of the pair for `k` in a tally, searching from the end.
pub open spec fn key_index(t: Seq<(Seq<char>, nat)>, k: Seq<char>) -> Option<int>
    decreases t.len(),
{
    if t.len() == 0 {
        None
    } else if t.last().0 == k {
        Some(t.len() - 1)
    } else {
        key_index(t.drop_last(), k)
    }
}

/// A tally with one more occurrence of `k`.
pub open spec fn tally_add(t: Seq<(Seq<char>, nat)>, k: Seq<char>) -> Seq<(Seq<char>, nat)> {
    match key_index(t, k) {
        Some(i) => t.update(i, (k, t[i].1 + 1)),
        None => t.push((k, 1nat)),
    }
}

/// Each distinct label with the number of its occurrences, in order of first
/// occurrence.
pub open spec fn tally(labels: Seq<Seq<char>>) -> Seq<(Seq<char>, nat)>
    decreases labels.len(),
{
    if labels.len() == 0 {
        seq![]
    } else {
        tally_add(tally(labels.drop_last()), labels.last())
    }
}

/// The ranking order of extension counts: more files first, then by label.
pub open spec fn rank_le(a: (Seq<char>, nat), b: (Seq<char>, nat)) -> bool {
    a.1 > b.1 || (a.1 == b.1 && chars_le(a.0, b.0))
}

/// The extension counts of the entries, most frequent first.
pub open spec fn ranked_types(es: Seq<(Seq<char>, EntryKind)>) -> Seq<(Seq<char>, nat)> {
    tally(ext_labels(es)).sort_by(|a: (Seq<char>, nat), b: (Seq<char>, nat)| rank_le(a, b))
}

/// How one extension count is written: `.rs(12)`.
pub open spec fn type_label(p: (Seq<char>, nat)) -> Seq<char> {
    p.0 + seq!['('] + decimal(p.1) + seq![')']
}

/// The five most frequent extensions, written out.
pub open spec fn top_types(es: Seq<(Seq<char>, EntryKind)>) -> Seq<Seq<char>> {
    let r = ranked_types(es);
    r.take(if r.len() < 5 {
        r.len() as int
    } else {
        5
    }).map_values(|p: (Seq<char>, nat)| type_label(p))
}

/// Directory names that usually mark the layout of a project.
pub open spec fn well_known_dir(name: Seq<char>) -> bool {
    ||| name == "src"@
    ||| name == "lib"@
    ||| name == "test"@
    ||| name == "tests"@
    ||| name == "docs"@
    ||| name == "cmd"@
    ||| name == "internal"@
    ||| name == "api"@
    ||| name == "pkg"@
    ||| name == "app"@
    ||| name == "components"@
    ||| name == "features"@
}

/// The well-known directories met, each written with a trailing `/`, in walk
/// order.
pub open spec fn dir_labels(es: Seq<(Seq<char>, EntryKind)>) -> Seq<Seq<char>>
    decreases es.len(),
{
    if es.len() == 0 {
        seq![]
    } else {
        dir_labels(es.drop_last()) + if es.last().1 == EntryKind::Dir && well_known_dir(
            es.last().0,
        ) {
            seq![es.last().0 + seq!['/']]
        } else {
            Seq::<Seq<char>>::empty()
        }
    }
}

/// The well-known directories met, in the order of `str`.
pub open spec fn key_dirs(es: Seq<(Seq<char>, EntryKind)>) -> Seq<Seq<char>> {
    dir_labels(es).sort_by(|a: Seq<char>, b: Seq<char>| chars_le(a, b))
}

/// The sentences of the summary: the file count, then the top types and the
/// key directories where there are any.
pub open spec fn summary_parts(es: Seq<(Seq<char>, EntryKind)>) -> Seq<Seq<char>> {
    let tops = top_types(es);
    let dirs = key_dirs(es);
    seq![decimal(file_count(es)) + " files."@] + (if tops.len() > 0 {
        seq!["Top types: "@ + join(tops, ", "@) + "."@]
    } else {
        Seq::<Seq<char>>::empty()
    }) + (if dirs.len() > 0 {
        seq!["Key dirs: "@ + join(dirs, ", "@) + "."@]
    } else {
        Seq::<Seq<char>>::empty()
    })
}

/// The summary of a repository's top two levels, as one line.
pub open spec fn summary_text(es: Seq<(Seq<char>, EntryKind)>) -> Seq<char> {
    join(summary_parts(es), " "@)
}

pub proof fn lemma_rank_le_total_ordering()
    ensures
        total_ordering(|a: (Seq<char>, nat), b: (Seq<char>, nat)| rank_le(a, b)),
{
    lemma_chars_le_total_ordering();
    assert forall|a: (Seq<char>, nat), b: (Seq<char>, nat)|
        #[trigger] rank_le(a, b) && #[trigger] rank_le(b, a) implies a == b by {
        assert(a.1 == b.1);
        crate::order::lemma_chars_le_antisymmetric(a.0, b.0);
    }
    assert forall|a: (Seq<char>, nat), b: (Seq<char>, nat), c: (Seq<char>, nat)|
        #[trigger] rank_le(a, b) && #[trigger] rank_le(b, c) implies rank_le(a, c) by {
        if a.1 == b.1 && b.1 == c.1 {
            crate::order::lemma_chars_le_transitive(a.0, b.0, c.0);
        }
    }
    assert forall|a: (Seq<char>, nat), b: (Seq<char>, nat)| #[trigger] rank_le(a, b)
        || #[trigger] rank_le(b, a) by {
        crate::order::lemma_chars_le_total(a.0, b.0);
    }
    assert forall|a: (Seq<char>, nat)| #[trigger] rank_le(a, a) by {
        crate::order::lemma_chars_le_reflexive(a.0);
    }
}

/// An extension label and the number of files that carry it.
pub struct ExtCount {
    pub label: Vec<char>,
    pub count: usize,
}

impl View for ExtCount {
    type V = (Seq<char>, nat);

    open spec fn view(&self) -> (Seq<char>, nat) {
        (self.label@, self.count as nat)
    }
}

impl SortKey for ExtCount {
    open spec fn key_le(a: (Seq<char>, nat), b: (Seq<char>, nat)) -> bool {
        rank_le(a, b)
    }

    proof fn lemma_key_le_total() {
        lemma_rank_le_total_ordering();
        let leq = |a: (Seq<char>, nat), b: (Seq<char>, nat)| Self::key_le(a, b);
        let r = |a: (Seq<char>, nat), b: (Seq<char>, nat)| rank_le(a, b);
        assert(leq =~= r);
    }

    fn le(&self, other: &Self) -> (r: bool) {
        if self.count != other.count {
            self.count > other.count
        } else {
            chars_le_exec(&self.label, &other.label)
        }
    }
}

fn entry_ext_label(e: &WalkEntry) -> (r: Option<Vec<char>>)
    ensures
        match r {
            Some(l) => ext_label((e.name@, e.kind)) == Some(l@),
            None => ext_label((e.name@, e.kind)) is None,
        },
{
    if e.kind != EntryKind::File {
        return None;
    }
    let name = chars_of(e.name.as_str());
    match extension_of(&name) {
        Some(x) => {
            let mut l = vec!['.'];
            push_all(&mut l, &x);
            assert(l@ == seq!['.'] + x@);
            Some(l)
        },
        None => None,
    }
}

/// Counts the files and their extensions, in walk order.
fn tally_entries(entries: &Vec<WalkEntry>) -> (r: (usize, Vec<ExtCount>))
    ensures
        r.0 == file_count(entry_views(entries@)),
        key_views(r.1@) == tally(ext_labels(entry_views(entries@))),
{
    let ghost es = entry_views(entries@);
    let mut files: usize = 0;
    let mut t: Vec<ExtCount> = Vec::new();
    let mut i: usize = 0;
    while i < entries.len()
        invariant
            i <= entries@.len(),
            es == entry_views(entries@),
            files == file_count(es.take(i as int)),
            files <= i,
            key_views(t@) == tally(ext_labels(es.take(i as int))),
            forall|m: int| 0 <= m < t@.len() ==> (#[trigger] t@[m]).count <= i,
        decreases entries.len() - i,
    {
        let e = &entries[i];
        proof {
            assert(es.take(i + 1).drop_last() == es.take(i as int));
            assert(es.take(i + 1).last() == (e.name@, e.kind));
        }
        if e.kind == EntryKind::File {
            files = files + 1;
        }
        match entry_ext_label(e) {
            Some(l) => {
                let ghost before = key_views(t@);
                // search the tally from the end for the label
                let mut j = t.len();
                let mut found = false;
                assert(before.take(j as int) =~= before);
                while j > 0 && !found
                    invariant
                        j <= t@.len(),
                        before == key_views(t@),
                        !found ==> key_index(before, l@) == key_index(before.take(j as int), l@),
                        found ==> 0 < j && key_index(before, l@) == Some(j - 1),
                    decreases j + if found { 0int } else { 1int },
                {
                    if chars_eq_vec(&t[j - 1].label, &l) {
                        assert(before[j - 1] == t@[j - 1]@);
                        assert(before.take(j as int).last() == before[j - 1]);
                        found = true;
                    } else {
                        assert(before[j - 1] == t@[j - 1]@);
                        assert(before.take(j as int).drop_last() == before.take(j - 1));
                        j -= 1;
                    }
                }
                let ghost labels = ext_labels(es.take(i as int));
                if !found {
                    assert(key_index(before.take(0), l@) is None);
                    t.push(ExtCount { label: l, count: 1 });
                    assert(key_views(t@) == before.push((l@, 1nat)));
                } else {
                    let k = j - 1;
                    let c = t[k].count;
                    assert(c <= i);
                    assert(before[k as int] == t@[k as int]@);
                    let lab = l;
                    t.set(k, ExtCount { label: lab, count: c + 1 });
                    assert(key_views(t@) =~= before.update(k as int, (l@, before[k as int].1 + 1)));
                }
                proof {
                    assert(labels.push(l@).drop_last() =~= labels);
                    assert(tally(labels.push(l@)) == tally_add(tally(labels), l@));
                }
                proof {
                    assert(ext_labels(es.take(i + 1)) == ext_labels(es.take(i as int)).push(l@));
                }
            },
            None => {
                proof {
                    assert(ext_labels(es.take(i + 1)) =~= ext_labels(es.take(i as int)));
                }
            },
        }
        i += 1;
    }
    assert(es.take(entries@.len() as int) == es);
    (files, t)
}

fn chars_eq_vec(a: &Vec<char>, b: &Vec<char>) -> (r: bool)
    ensures
        r == (a@ == b@),
{
    crate::text::chars_eq(a, b)
}

fn is_well_known_dir(name: &Vec<char>) -> (r: bool)
    ensures
        r == well_known_dir(name@),
{
    eq_str(name, "src") || eq_str(name, "lib") || eq_str(name, "test") || eq_str(name, "tests")
        || eq_str(name, "docs") || eq_str(name, "cmd") || eq_str(name, "internal") || eq_str(
        name,
        "api",
    ) || eq_str(name, "pkg") || eq_str(name, "app") || eq_str(name, "components") || eq_str(
        name,
        "features",
    )
}

/// The well-known directories among the entries, written with a trailing `/`.
fn collect_dir_labels(entries: &Vec<WalkEntry>) -> (r: Vec<Vec<char>>)
    ensures
        key_views(r@) == dir_labels(entry_views(entries@)),
{
    let ghost es = entry_views(entries@);
    let mut r: Vec<Vec<char>> = Vec::new();
    let mut i: usize = 0;
    while i < entries.len()
        invariant
            i <= entries@.len(),
            es == entry_views(entries@),
            key_views(r@) == dir_labels(es.take(i as int)),
        decreases entries.len() - i,
    {
        let e = &entries[i];
        proof {
            assert(es.take(i + 1).drop_last() == es.take(i as int));
            assert(es.take(i + 1).last() == (e.name@, e.kind));
        }
        let ghost before = key_views(r@);
        if e.kind == EntryKind::Dir {
            let name = chars_of(e.name.as_str());
            if is_well_known_dir(&name) {
                let mut l = name;
                l.push('/');
                assert(l@ =~= e.name@ + seq!['/']);
                let ghost lv = l@;
                r.push(l);
                assert(key_views(r@) =~= before.push(lv));
            }
        }
        proof {
            assert(key_views(r@) == dir_labels(es.take(i + 1)));
        }
        i += 1;
    }
    assert(es.take(entries@.len() as int) == es);
    r
}

/// `label(count)` for the first (up to five) ranked extension counts.
fn top_type_labels(ranked: &Vec<ExtCount>) -> (r: Vec<Vec<char>>)
    ensures
        key_views(r@) == key_views(ranked@).take(if ranked@.len() < 5 {
            ranked@.len() as int
        } else {
            5
        }).map_values(|p: (Seq<char>, nat)| type_label(p)),
{
    let n: usize = if ranked.len() < 5 {
        ranked.len()
    } else {
        5
    };
    let ghost rv = key_views(ranked@);
    let mut r: Vec<Vec<char>> = Vec::new();
    let mut i: usize = 0;
    while i < n
        invariant
            n <= ranked@.len(),
            i <= n,
            rv == key_views(ranked@),
            key_views(r@) == rv.take(i as int).map_values(|p: (Seq<char>, nat)| type_label(p)),
        decreases n - i,
    {
        let mut l: Vec<char> = Vec::new();
        push_all(&mut l, &ranked[i].label);
        l.push('(');
        push_decimal(&mut l, ranked[i].count);
        l.push(')');
        proof {
            assert(rv[i as int] == ranked@[i as int]@);
            assert(l@ == type_label(rv[i as int]));
            assert(rv.take(i + 1) == rv.take(i as int).push(rv[i as int]));
        }
        let ghost lv = l@;
        let ghost before = key_views(r@);
        r.push(l);
        proof {
            assert(key_views(r@) =~= before.push(lv));
            assert(key_views(r@) =~= rv.take(i + 1).map_values(|p: (Seq<char>, nat)| type_label(p)));
        }
        i += 1;
    }
    r
}

/// The one-line summary of a repository's top two levels, from the entries of
/// the walk: the number of files, the five most frequent extensions (most
/// files first, then by name), and the well-known directories met (in the
/// order of `str`).
pub fn summarize_entries(entries: &Vec<WalkEntry>) -> (r: String)
    ensures
        r@ == summary_text(entry_views(entries@)),
{
    let ghost es = entry_views(entries@);
    let (files, counts) = tally_entries(entries);
    let ranked = sort_keys(counts);
    proof {
        let rl = |a: (Seq<char>, nat), b: (Seq<char>, nat)| rank_le(a, b);
        assert(key_order::<ExtCount>() =~= rl);
        assert(key_views(ranked@) == ranked_types(es));
    }
    let tops = top_type_labels(&ranked);
    let labels = collect_dir_labels(entries);
    let dirs = sort_keys(labels);
    proof {
        let cl = |a: Seq<char>, b: Seq<char>| chars_le(a, b);
        assert(key_order::<Vec<char>>() =~= cl);
        assert(key_views(dirs@) == key_dirs(es));
        assert(key_views(tops@) == top_types(es));
    }
    let mut parts: Vec<Vec<char>> = Vec::new();
    let mut first: Vec<char> = Vec::new();
    push_decimal(&mut first, files);
    push_str(&mut first, " files.");
    parts.push(first);
    let comma = chars_of(", ");
    if tops.len() > 0 {
        let mut p: Vec<char> = Vec::new();
        push_str(&mut p, "Top types: ");
        let j = join_chars(&tops, &comma);
        push_all(&mut p, &j);
        push_str(&mut p, ".");
        parts.push(p);
    }
    if dirs.len() > 0 {
        let mut p: Vec<char> = Vec::new();
        push_str(&mut p, "Key dirs: ");
        let j = join_chars(&dirs, &comma);
        push_all(&mut p, &j);
        push_str(&mut p, ".");
        parts.push(p);
    }
    proof {
        assert(parts@.map_values(|x: Vec<char>| x@) =~= summary_parts(es));
    }
    let space = chars_of(" ");
    let line = join_chars(&parts, &space);
    string_from_chars(&line)
}

// ---------------------------------------------------------------------------
// Independence from the walk's order
// ---------------------------------------------------------------------------

/// The files an entry adds to the count.
pub open spec fn file_weight(e: (Seq<char>, EntryKind)) -> nat {
    if e.1 == EntryKind::File {
        1
    } else {
        0
    }
}

/// The extension label an entry adds, as a sequence of at most one label.
pub open spec fn label_of(e: (Seq<char>, EntryKind)) -> Seq<Seq<char>> {
    match ext_label(e) {
        Some(l) => seq![l],
        None => Seq::<Seq<char>>::empty(),
    }
}

/// The directory label an entry adds, as a sequence of at most one label.
pub open spec fn dir_label_of(e: (Seq<char>, EntryKind)) -> Seq<Seq<char>> {
    if e.1 == EntryKind::Dir && well_known_dir(e.0) {
        seq![e.0 + seq!['/']]
    } else {
        Seq::<Seq<char>>::empty()
    }
}

proof fn lemma_remove_entry(s: Seq<(Seq<char>, EntryKind)>, i: int)
    requires
        0 <= i < s.len(),
    ensures
        file_count(s) == file_count(s.remove(i)) + file_weight(s[i]),
        ext_labels(s).to_multiset() == ext_labels(s.remove(i)).to_multiset().add(
            label_of(s[i]).to_multiset(),
        ),
        dir_labels(s).to_multiset() == dir_labels(s.remove(i)).to_multiset().add(
            dir_label_of(s[i]).to_multiset(),
        ),
    decreases s.len(),
{
    broadcast use vstd::seq_lib::lemma_multiset_commutative;
    broadcast use vstd::multiset::group_multiset_axioms;

    let d = s.drop_last();
    if i == s.len() - 1 {
        assert(s.remove(i) =~= d);
    } else {
        lemma_remove_entry(d, i);
        assert(d.remove(i) =~= s.remove(i).drop_last());
        assert(s.remove(i).last() == s.last());
        assert(ext_labels(s).to_multiset() =~= ext_labels(s.remove(i)).to_multiset().add(
            label_of(s[i]).to_multiset(),
        ));
        assert(dir_labels(s).to_multiset() =~= dir_labels(s.remove(i)).to_multiset().add(
            dir_label_of(s[i]).to_multiset(),
        ));
    }
}

/// What the summary counts does not depend on the order of the entries.
proof fn lemma_counts_ignore_order(a: Seq<(Seq<char>, EntryKind)>, b: Seq<(Seq<char>, EntryKind)>)
    requires
        a.to_multiset() == b.to_multiset(),
    ensures
        file_count(a) == file_count(b),
        ext_labels(a).to_multiset() == ext_labels(b).to_multiset(),
        dir_labels(a).to_multiset() == dir_labels(b).to_multiset(),
    decreases a.len(),
{
    broadcast use vstd::seq_lib::group_to_multiset_ensures;
    broadcast use vstd::seq_lib::lemma_multiset_commutative;
    broadcast use vstd::multiset::group_multiset_axioms;

    if a.len() == 0 {
        assert(a.to_multiset().len() == a.len());
        assert(b.to_multiset().len() == b.len());
        assert(b.len() == 0);
        assert(b =~= a);
    } else {
        let x = a.last();
        let a1 = a.drop_last();
        assert(a =~= a1.push(x));
        assert(b.to_multiset().count(x) > 0);
        assert(b.contains(x));
        let i = choose|i: int| 0 <= i < b.len() && b[i] == x;
        let b1 = b.remove(i);
        assert(b1.to_multiset() =~= a1.to_multiset());
        lemma_counts_ignore_order(a1, b1);
        lemma_remove_entry(b, i);
        assert(ext_labels(a).to_multiset() =~= ext_labels(a1).to_multiset().add(
            label_of(x).to_multiset(),
        ));
        assert(dir_labels(a).to_multiset() =~= dir_labels(a1).to_multiset().add(
            dir_label_of(x).to_multiset(),
        ));
    }
}

/// A tally of the labels counted in `m`: each label once, with its count.
pub open spec fn tally_ok(t: Seq<(Seq<char>, nat)>, m: vstd::multiset::Multiset<Seq<char>>) -> bool {
    &&& forall|i: int, j: int| 0 <= i < j < t.len() ==> (#[trigger] t[i]).0 != (#[trigger] t[j]).0
    &&& forall|i: int| 0 <= i < t.len() ==> (#[trigger] t[i]).1 == m.count(t[i].0) && t[i].1 > 0
    &&& forall|k: Seq<char>| #[trigger] m.count(k) > 0 ==> exists|i: int| 0 <= i < t.len() && (#[trigger] t[i]).0 == k
}

proof fn lemma_key_index(t: Seq<(Seq<char>, nat)>, k: Seq<char>)
    ensures
        key_index(t, k) matches Some(i) ==> 0 <= i < t.len() && t[i].0 == k,
        key_index(t, k) is None ==> forall|i: int| 0 <= i < t.len() ==> (#[trigger] t[i]).0 != k,
    decreases t.len(),
{
    if t.len() > 0 && t.last().0 != k {
        lemma_key_index(t.drop_last(), k);
        assert forall|i: int| 0 <= i < t.len() - 1 implies (#[trigger] t[i]).0 == t.drop_last()[i].0 by {}
    }
}

proof fn lemma_tally_ok(labels: Seq<Seq<char>>)
    ensures
        tally_ok(tally(labels), labels.to_multiset()),
    decreases labels.len(),
{
    broadcast use vstd::seq_lib::group_to_multiset_ensures;
    broadcast use vstd::multiset::group_multiset_axioms;

    if labels.len() > 0 {
        let l1 = labels.drop_last();
        let x = labels.last();
        assert(labels =~= l1.push(x));
        lemma_tally_ok(l1);
        let t1 = tally(l1);
        let m1 = l1.to_multiset();
        let m = labels.to_multiset();
        assert(m =~= m1.insert(x));
        lemma_key_index(t1, x);
        let t = tally(labels);
        match key_index(t1, x) {
            Some(i) => {
                assert(t == t1.update(i, (x, t1[i].1 + 1)));
                assert forall|k: Seq<char>| #[trigger] m.count(k) > 0 implies exists|j: int|
                    0 <= j < t.len() && (#[trigger] t[j]).0 == k by {
                    if k == x {
                        assert(t[i].0 == k);
                    } else {
                        assert(m1.count(k) > 0);
                        let j = choose|j: int| 0 <= j < t1.len() && (#[trigger] t1[j]).0 == k;
                        assert(t[j].0 == k);
                    }
                }
            },
            None => {
                assert(t == t1.push((x, 1nat)));
                if m1.count(x) > 0 {
                    let j = choose|j: int| 0 <= j < t1.len() && (#[trigger] t1[j]).0 == x;
                    assert(t1[j].0 != x);
                }
                assert forall|k: Seq<char>| #[trigger] m.count(k) > 0 implies exists|j: int|
                    0 <= j < t.len() && (#[trigger] t[j]).0 == k by {
                    if k == x {
                        assert(t[t1.len() as int].0 == k);
                    } else {
                        assert(m1.count(k) > 0);
                        let j = choose|j: int| 0 <= j < t1.len() && (#[trigger] t1[j]).0 == k;
                        assert(t[j].0 == k);
                    }
                }
            },
        }
    }
}

proof fn lemma_tally_ok_unique(
    t1: Seq<(Seq<char>, nat)>,
    t2: Seq<(Seq<char>, nat)>,
    m: vstd::multiset::Multiset<Seq<char>>,
)
    requires
        tally_ok(t1, m),
        tally_ok(t2, m),
    ensures
        t1.to_multiset() == t2.to_multiset(),
{
    broadcast use vstd::seq_lib::group_to_multiset_ensures;

    assert(t1.no_duplicates()) by {
        assert forall|i: int, j: int| 0 <= i < t1.len() && 0 <= j < t1.len() && i != j implies t1[i]
            != t1[j] by {
            if i < j {
                assert(t1[i].0 != t1[j].0);
            } else {
                assert(t1[j].0 != t1[i].0);
            }
        }
    }
    assert(t2.no_duplicates()) by {
        assert forall|i: int, j: int| 0 <= i < t2.len() && 0 <= j < t2.len() && i != j implies t2[i]
            != t2[j] by {
            if i < j {
                assert(t2[i].0 != t2[j].0);
            } else {
                assert(t2[j].0 != t2[i].0);
            }
        }
    }
    t1.lemma_multiset_has_no_duplicates();
    t2.lemma_multiset_has_no_duplicates();
    assert forall|p: (Seq<char>, nat)| t1.to_multiset().count(p) == t2.to_multiset().count(p) by {
        assert(t1.contains(p) <==> (m.count(p.0) > 0 && p.1 == m.count(p.0))) by {
            if t1.contains(p) {
                let i = choose|i: int| 0 <= i < t1.len() && t1[i] == p;
                assert(t1[i].1 == m.count(t1[i].0));
            }
            if m.count(p.0) > 0 && p.1 == m.count(p.0) {
                let i = choose|i: int| 0 <= i < t1.len() && (#[trigger] t1[i]).0 == p.0;
                assert(t1[i] == p);
            }
        }
        assert(t2.contains(p) <==> (m.count(p.0) > 0 && p.1 == m.count(p.0))) by {
            if t2.contains(p) {
                let i = choose|i: int| 0 <= i < t2.len() && t2[i] == p;
                assert(t2[i].1 == m.count(t2[i].0));
            }
            if m.count(p.0) > 0 && p.1 == m.count(p.0) {
                let i = choose|i: int| 0 <= i < t2.len() && (#[trigger] t2[i]).0 == p.0;
                assert(t2[i] == p);
            }
        }
    }
    assert(t1.to_multiset() =~= t2.to_multiset());
}

/// The summary of a repository does not depend on the order in which the walk
/// meets the entries: any reordering of the same entries gives the same line.
pub proof fn law_summary_ignores_walk_order(a: Seq<(Seq<char>, EntryKind)>, b: Seq<(Seq<char>, EntryKind)>)
    requires
        a.to_multiset() == b.to_multiset(),
    ensures
        summary_text(a) == summary_text(b),
{
    lemma_counts_ignore_order(a, b);
    let la = ext_labels(a);
    let lb = ext_labels(b);
    lemma_tally_ok(la);
    lemma_tally_ok(lb);
    lemma_tally_ok_unique(tally(la), tally(lb), la.to_multiset());
    let r = |x: (Seq<char>, nat), y: (Seq<char>, nat)| rank_le(x, y);
    lemma_rank_le_total_ordering();
    tally(la).lemma_sort_by_ensures(r);
    tally(lb).lemma_sort_by_ensures(r);
    vstd::seq_lib::lemma_sorted_unique(tally(la).sort_by(r), tally(lb).sort_by(r), r);
    assert(ranked_types(a) == ranked_types(b));
    let c = |x: Seq<char>, y: Seq<char>| chars_le(x, y);
    lemma_chars_le_total_ordering();
    dir_labels(a).lemma_sort_by_ensures(c);
    dir_labels(b).lemma_sort_by_ensures(c);
    vstd::seq_lib::lemma_sorted_unique(dir_labels(a).sort_by(c), dir_labels(b).sort_by(c), c);
    assert(key_dirs(a) == key_dirs(b));
    assert(top_types(a) == top_types(b));
    assert(summary_parts(a) == summary_parts(b));
}

// ---------------------------------------------------------------------------
// Key directories
// ---------------------------------------------------------------------------

proof fn lemma_dir_labels_has(es: Seq<(Seq<char>, EntryKind)>, i: int)
    requires
        0 <= i < es.len(),
        es[i].1 == EntryKind::Dir,
        well_known_dir(es[i].0),
    ensures
        dir_labels(es).contains(es[i].0 + seq!['/']),
    decreases es.len(),
{
    let d = dir_labels(es.drop_last());
    if i == es.len() - 1 {
        assert(dir_labels(es) == d + seq![es[i].0 + seq!['/']]);
        assert(dir_labels(es)[d.len() as int] == es[i].0 + seq!['/']);
    } else {
        lemma_dir_labels_has(es.drop_last(), i);
        let j = choose|j: int| 0 <= j < d.len() && d[j] == es[i].0 + seq!['/'];
        assert(dir_labels(es)[j] == d[j]);
    }
}

proof fn lemma_dir_labels_from(es: Seq<(Seq<char>, EntryKind)>, l: Seq<char>)
    requires
        dir_labels(es).contains(l),
    ensures
        exists|i: int|
            0 <= i < es.len() && (#[trigger] es[i]).1 == EntryKind::Dir && well_known_dir(es[i].0)
                && l == es[i].0 + seq!['/'],
    decreases es.len(),
{
    let d = dir_labels(es.drop_last());
    let j = choose|j: int| 0 <= j < dir_labels(es).len() && dir_labels(es)[j] == l;
    if j < d.len() {
        assert(d[j] == l);
        lemma_dir_labels_from(es.drop_last(), l);
        let i = choose|i: int|
            0 <= i < es.drop_last().len() && (#[trigger] es.drop_last()[i]).1 == EntryKind::Dir
                && well_known_dir(es.drop_last()[i].0) && l == es.drop_last()[i].0 + seq!['/'];
        assert(es[i] == es.drop_last()[i]);
    } else {
        assert(es[es.len() - 1] == es.last());
    }
}

/// The key directories of a summary are exactly the well-known directories
/// among the entries (`src`, `lib`, `test`, `tests`, `docs`, `cmd`,
/// `internal`, `api`, `pkg`, `app`, `components`, `features`), each written as
/// its name followed by `/`; and when there are any, the summary ends with
/// `Key dirs: ` and that list joined by `, `, then `.`.
pub proof fn law_summary_lists_key_dirs(es: Seq<(Seq<char>, EntryKind)>, l: Seq<char>)
    ensures
        key_dirs(es).contains(l) <==> exists|i: int|
            0 <= i < es.len() && (#[trigger] es[i]).1 == EntryKind::Dir && l == es[i].0 + seq!['/']
                && {
                let n = es[i].0;
                ||| n == "src"@
                ||| n == "lib"@
                ||| n == "test"@
                ||| n == "tests"@
                ||| n == "docs"@
                ||| n == "cmd"@
                ||| n == "internal"@
                ||| n == "api"@
                ||| n == "pkg"@
                ||| n == "app"@
                ||| n == "components"@
                ||| n == "features"@
            },
        key_dirs(es).len() > 0 ==> has_suffix(
            summary_text(es),
            "Key dirs: "@ + join(key_dirs(es), ", "@) + "."@,
        ),
{
    broadcast use vstd::seq_lib::group_to_multiset_ensures;

    let c = |x: Seq<char>, y: Seq<char>| chars_le(x, y);
    lemma_chars_le_total_ordering();
    dir_labels(es).lemma_sort_by_ensures(c);
    assert(key_dirs(es).to_multiset() == dir_labels(es).to_multiset());
    key_dirs(es).to_multiset_ensures();
    dir_labels(es).to_multiset_ensures();
    assert(key_dirs(es).to_multiset().count(l) == dir_labels(es).to_multiset().count(l));
    assert(key_dirs(es).contains(l) <==> dir_labels(es).contains(l));
    if dir_labels(es).contains(l) {
        lemma_dir_labels_from(es, l);
    }
    if exists|i: int|
        0 <= i < es.len() && (#[trigger] es[i]).1 == EntryKind::Dir && l == es[i].0 + seq!['/']
            && well_known_dir(es[i].0) {
        let i = choose|i: int|
            0 <= i < es.len() && (#[trigger] es[i]).1 == EntryKind::Dir && l == es[i].0 + seq!['/']
                && well_known_dir(es[i].0);
        lemma_dir_labels_has(es, i);
    }
    let parts = summary_parts(es);
    if key_dirs(es).len() > 0 {
        let last = "Key dirs: "@ + join(key_dirs(es), ", "@) + "."@;
        assert(parts.len() >= 2);
        assert(parts.last() == last);
        assert(summary_text(es) == join(parts.drop_last(), " "@) + " "@ + last);
        assert(summary_text(es).skip(summary_text(es).len() - last.len()) =~= last);
    }
}

} // verus!
