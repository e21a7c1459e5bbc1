//! The nested file tree of a repository, built from the flat list of entries
//! the walk yields: each directory's children listed directories first, then
//! by case-insensitive name.
use vstd::prelude::*;
use vstd::relations::total_ordering;
use crate::chunker::{rfind_char, rfind_char_in};
use crate::order::{chars_le, chars_le_exec, key_order, key_views, sort_keys, SortKey};
use crate::repo::FileNode;
use crate::text::{chars_eq, chars_of, lowercase, slice_chars, string_from_chars, to_lowercase};

verus! {

// ---------------------------------------------------------------------------
// File tree
// ---------------------------------------------------------------------------

/// An entry of the full walk: its path relative to the repository root, with
/// `/` between components, and whether it is a directory.
pub struct TreeEntry {
    pub relative_path: String,
    pub is_dir: bool,
}

pub open spec fn tree_entry_views(es: Seq<TreeEntry>) -> Seq<(Seq<char>, bool)> {
    es.map_values(|e: TreeEntry| (e.relative_path@, e.is_dir))
}

/// The path of the directory holding `p` (empty for a top-level entry).
pub open spec fn parent_path(p: Seq<char>) -> Seq<char> {
    match rfind_char(p, '/') {
        Some(k) => p.take(k),
        None => seq![],
    }
}

/// The last component of `p`.
pub open spec fn base_name(p: Seq<char>) -> Seq<char> {
    match rfind_char(p, '/') {
        Some(k) => p.skip(k + 1),
        None => p,
    }
}

/// The sort key of a child: whether it is a directory, its lowercased name,
/// and its position in the walk.
pub open spec fn child_key(es: Seq<(Seq<char>, bool)>, i: int) -> (bool, Seq<char>, nat) {
    (es[i].1, lowercase(base_name(es[i].0)), i as nat)
}

/// The keys of the entries among the first `n` whose parent is `parent`, in
/// walk order.
pub open spec fn child_keys(es: Seq<(Seq<char>, bool)>, parent: Seq<char>, n: int) -> Seq<
    (bool, Seq<char>, nat),
>
    decreases n,
{
    if n <= 0 {
        seq![]
    } else {
        child_keys(es, parent, n - 1) + if parent_path(es[n - 1].0) == parent {
            seq![child_key(es, n - 1)]
        } else {
            Seq::<(bool, Seq<char>, nat)>::empty()
        }
    }
}

/// The order of siblings: directories first, then by lowercased name, and in
/// walk order where those agree.
pub open spec fn child_le(a: (bool, Seq<char>, nat), b: (bool, Seq<char>, nat)) -> bool {
    (a.0 && !b.0) || (a.0 == b.0 && chars_le(a.1, b.1) && (a.1 != b.1 || a.2 <= b.2))
}

/// The keys of the children of `parent`, in the order they are listed.
pub open spec fn ordered_children(es: Seq<(Seq<char>, bool)>, parent: Seq<char>) -> Seq<
    (bool, Seq<char>, nat),
> {
    child_keys(es, parent, es.len() as int).sort_by(
        |a: (bool, Seq<char>, nat), b: (bool, Seq<char>, nat)| child_le(a, b),
    )
}

/// Whether `nodes` are the listed children of `parent`, each directory with
/// its own children below it, within `depth` levels.
pub open spec fn tree_ok(nodes: Seq<FileNode>, es: Seq<(Seq<char>, bool)>, parent: Seq<char>, depth: nat) -> bool
    decreases depth,
{
    let ks = ordered_children(es, parent);
    &&& nodes.len() == ks.len()
    &&& forall|i: int|
        0 <= i < nodes.len() ==> {
            let e = es[ks[i].2 as int];
            &&& (#[trigger] nodes[i]).name@ == base_name(e.0)
            &&& nodes[i].path@ == e.0
            &&& nodes[i].is_dir == e.1
            &&& if e.1 {
                depth > 0 && tree_ok(nodes[i].children@, es, e.0, (depth - 1) as nat)
            } else {
                nodes[i].children@.len() == 0
            }
        }
}

/// The length of the longest path among the entries.
pub open spec fn max_path_len(es: Seq<(Seq<char>, bool)>) -> nat
    decreases es.len(),
{
    if es.len() == 0 {
        0
    } else {
        let m = max_path_len(es.drop_last());
        if es.last().0.len() > m {
            es.last().0.len()
        } else {
            m
        }
    }
}

pub proof fn lemma_rfind_char_range(s: Seq<char>, c: char)
    ensures
        rfind_char(s, c) matches Some(k) ==> 0 <= k < s.len() && s[k] == c,
    decreases s.len(),
{
    if s.len() > 0 && s.last() != c {
        lemma_rfind_char_range(s.drop_last(), c);
    }
}

pub proof fn lemma_parent_shorter(p: Seq<char>)
    requires
        p.len() > 0,
    ensures
        parent_path(p).len() < p.len(),
{
    lemma_rfind_char_range(p, '/');
}

pub proof fn lemma_max_path_len(es: Seq<(Seq<char>, bool)>, i: int)
    requires
        0 <= i < es.len(),
    ensures
        es[i].0.len() <= max_path_len(es),
    decreases es.len(),
{
    if i < es.len() - 1 {
        lemma_max_path_len(es.drop_last(), i);
    }
}

pub proof fn lemma_child_keys(es: Seq<(Seq<char>, bool)>, parent: Seq<char>, n: int)
    requires
        0 <= n <= es.len(),
    ensures
        forall|j: int|
            0 <= j < child_keys(es, parent, n).len() ==> {
                let k = #[trigger] child_keys(es, parent, n)[j];
                &&& k.2 < n
                &&& k == child_key(es, k.2 as int)
                &&& parent_path(es[k.2 as int].0) == parent
            },
    decreases n,
{
    if n > 0 {
        lemma_child_keys(es, parent, n - 1);
        let prev = child_keys(es, parent, n - 1);
        assert forall|j: int| 0 <= j < child_keys(es, parent, n).len() implies {
            let k = #[trigger] child_keys(es, parent, n)[j];
            &&& k.2 < n
            &&& k == child_key(es, k.2 as int)
            &&& parent_path(es[k.2 as int].0) == parent
        } by {
            if j < prev.len() {
                assert(child_keys(es, parent, n)[j] == prev[j]);
            }
        }
    }
}

pub proof fn lemma_child_le_total_ordering()
    ensures
        total_ordering(
            |a: (bool, Seq<char>, nat), b: (bool, Seq<char>, nat)| child_le(a, b),
        ),
{
    assert forall|a: (bool, Seq<char>, nat)| #[trigger] child_le(a, a) by {
        crate::order::lemma_chars_le_reflexive(a.1);
    }
    assert forall|a: (bool, Seq<char>, nat), b: (bool, Seq<char>, nat)|
        #[trigger] child_le(a, b) && #[trigger] child_le(b, a) implies a == b by {
        crate::order::lemma_chars_le_antisymmetric(a.1, b.1);
    }
    assert forall|a: (bool, Seq<char>, nat), b: (bool, Seq<char>, nat), c: (bool, Seq<char>, nat)|
        #[trigger] child_le(a, b) && #[trigger] child_le(b, c) implies child_le(a, c) by {
        if a.0 == b.0 && b.0 == c.0 {
            crate::order::lemma_chars_le_transitive(a.1, b.1, c.1);
            if a.1 == c.1 {
                crate::order::lemma_chars_le_antisymmetric(a.1, b.1);
            }
        }
    }
    assert forall|a: (bool, Seq<char>, nat), b: (bool, Seq<char>, nat)| #[trigger] child_le(a, b)
        || #[trigger] child_le(b, a) by {
        crate::order::lemma_chars_le_total(a.1, b.1);
    }
}

/// The sort key of one child in the listing.
pub struct ChildKey {
    pub is_dir: bool,
    pub lower_name: Vec<char>,
    pub index: usize,
}

impl View for ChildKey {
    type V = (bool, Seq<char>, nat);

    open spec fn view(&self) -> (bool, Seq<char>, nat) {
        (self.is_dir, self.lower_name@, self.index as nat)
    }
}

impl SortKey for ChildKey {
    open spec fn key_le(a: (bool, Seq<char>, nat), b: (bool, Seq<char>, nat)) -> bool {
        child_le(a, b)
    }

    proof fn lemma_key_le_total() {
        lemma_child_le_total_ordering();
        let leq = |a: (bool, Seq<char>, nat), b: (bool, Seq<char>, nat)| Self::key_le(a, b);
        let c = |a: (bool, Seq<char>, nat), b: (bool, Seq<char>, nat)| child_le(a, b);
        assert(leq =~= c);
    }

    fn le(&self, other: &Self) -> (r: bool) {
        proof {
            crate::order::lemma_chars_le_reflexive(self.lower_name@);
        }
        if self.is_dir != other.is_dir {
            self.is_dir
        } else if chars_eq(&self.lower_name, &other.lower_name) {
            self.index <= other.index
        } else {
            chars_le_exec(&self.lower_name, &other.lower_name)
        }
    }
}

fn split_path(p: &Vec<char>) -> (r: (Vec<char>, Vec<char>))
    ensures
        r.0@ == parent_path(p@),
        r.1@ == base_name(p@),
{
    match rfind_char_in(p, '/') {
        Some(k) => (slice_chars(p, 0, k), slice_chars(p, k + 1, p.len())),
        None => (Vec::new(), slice_chars(p, 0, p.len())),
    }
}

/// The entries' paths split up once for the whole build.
struct PathParts {
    paths: Vec<Vec<char>>,
    parents: Vec<Vec<char>>,
    bases: Vec<Vec<char>>,
    lowers: Vec<Vec<char>>,
}

spec fn parts_ok(pp: PathParts, es: Seq<(Seq<char>, bool)>) -> bool {
    &&& pp.paths@.len() == es.len()
    &&& pp.parents@.len() == es.len()
    &&& pp.bases@.len() == es.len()
    &&& pp.lowers@.len() == es.len()
    &&& forall|i: int|
        #![trigger es[i]]
        0 <= i < es.len() ==> {
            &&& pp.paths@[i]@ == es[i].0
            &&& pp.parents@[i]@ == parent_path(es[i].0)
            &&& pp.bases@[i]@ == base_name(es[i].0)
            &&& pp.lowers@[i]@ == lowercase(base_name(es[i].0))
        }
}

fn path_parts(entries: &Vec<TreeEntry>) -> (pp: PathParts)
    ensures
        parts_ok(pp, tree_entry_views(entries@)),
{
    let ghost es = tree_entry_views(entries@);
    let mut pp = PathParts { paths: Vec::new(), parents: Vec::new(), bases: Vec::new(), lowers: Vec::new() };
    let mut i: usize = 0;
    while i < entries.len()
        invariant
            i <= entries@.len(),
            es == tree_entry_views(entries@),
            pp.paths@.len() == i,
            pp.parents@.len() == i,
            pp.bases@.len() == i,
            pp.lowers@.len() == i,
            forall|m: int|
                0 <= m < i ==> {
                    &&& (#[trigger] pp.paths@[m])@ == es[m].0
                    &&& pp.parents@[m]@ == parent_path(es[m].0)
                    &&& pp.bases@[m]@ == base_name(es[m].0)
                    &&& pp.lowers@[m]@ == lowercase(base_name(es[m].0))
                },
        decreases entries.len() - i,
    {
        let p = chars_of(entries[i].relative_path.as_str());
        let (parent, base) = split_path(&p);
        let bs = string_from_chars(&base);
        let lower = chars_of(to_lowercase(bs.as_str()).as_str());
        pp.paths.push(p);
        pp.parents.push(parent);
        pp.bases.push(base);
        pp.lowers.push(lower);
        i += 1;
    }
    pp
}

fn build_children(
    entries: &Vec<TreeEntry>,
    pp: &PathParts,
    parent: &Vec<char>,
    Ghost(es): Ghost<Seq<(Seq<char>, bool)>>,
    Ghost(depth): Ghost<nat>,
) -> (r: Vec<FileNode>)
    requires
        es == tree_entry_views(entries@),
        parts_ok(*pp, es),
        forall|i: int| 0 <= i < es.len() ==> (#[trigger] es[i]).0.len() > 0,
        parent@.len() + depth > max_path_len(es),
    ensures
        tree_ok(r@, es, parent@, depth),
    decreases depth,
{
    let mut keys: Vec<ChildKey> = Vec::new();
    let mut i: usize = 0;
    while i < entries.len()
        invariant
            i <= es.len(),
            es == tree_entry_views(entries@),
            parts_ok(*pp, es),
            key_views(keys@) == child_keys(es, parent@, i as int),
        decreases entries.len() - i,
    {
        let ghost before = key_views(keys@);
        proof {
            assert(es[i as int] == (entries@[i as int].relative_path@, entries@[i as int].is_dir));
            assert(pp.parents@[i as int]@ == parent_path(es[i as int].0));
            assert(pp.lowers@[i as int]@ == lowercase(base_name(es[i as int].0)));
        }
        if chars_eq(&pp.parents[i], parent) {
            let lower = slice_chars(&pp.lowers[i], 0, pp.lowers[i].len());
            let key = ChildKey { is_dir: entries[i].is_dir, lower_name: lower, index: i };
            assert(key@ == child_key(es, i as int));
            keys.push(key);
            assert(key_views(keys@) =~= before.push(child_key(es, i as int)));
            assert(child_keys(es, parent@, i + 1) == before.push(child_key(es, i as int)));
        } else {
            assert(key_views(keys@) =~= before);
            assert(child_keys(es, parent@, i + 1) == before);
        }
        i += 1;
    }
    let ghost all_keys = child_keys(es, parent@, es.len() as int);
    let sorted = sort_keys(keys);
    let ghost ks = key_views(sorted@);
    proof {
        let c = |a: (bool, Seq<char>, nat), b: (bool, Seq<char>, nat)| child_le(a, b);
        assert(key_order::<ChildKey>() =~= c);
        assert(ks == ordered_children(es, parent@));
        lemma_child_le_total_ordering();
        all_keys.lemma_sort_by_ensures(c);
        lemma_child_keys(es, parent@, es.len() as int);
        assert forall|j: int| 0 <= j < ks.len() implies {
            let k = #[trigger] ks[j];
            &&& k.2 < es.len()
            &&& k == child_key(es, k.2 as int)
            &&& parent_path(es[k.2 as int].0) == parent@
        } by {
            assert(ks.contains(ks[j]));
            if !all_keys.contains(ks[j]) {
                assert(!ks.contains(ks[j]));
            }
            let m = choose|m: int| 0 <= m < all_keys.len() && all_keys[m] == ks[j];
            assert(all_keys[m] == ks[j]);
        }
    }
    let mut nodes: Vec<FileNode> = Vec::new();
    let mut j: usize = 0;
    while j < sorted.len()
        invariant
            j <= sorted@.len(),
            ks == key_views(sorted@),
            ks == ordered_children(es, parent@),
            es == tree_entry_views(entries@),
            parts_ok(*pp, es),
            forall|i: int| 0 <= i < es.len() ==> (#[trigger] es[i]).0.len() > 0,
            parent@.len() + depth > max_path_len(es),
            forall|m: int|
                0 <= m < ks.len() ==> {
                    let k = #[trigger] ks[m];
                    &&& k.2 < es.len()
                    &&& k == child_key(es, k.2 as int)
                    &&& parent_path(es[k.2 as int].0) == parent@
                },
            nodes@.len() == j,
            forall|m: int|
                0 <= m < j ==> {
                    let e = es[ks[m].2 as int];
                    &&& (#[trigger] nodes@[m]).name@ == base_name(e.0)
                    &&& nodes@[m].path@ == e.0
                    &&& nodes@[m].is_dir == e.1
                    &&& if e.1 {
                        depth > 0 && tree_ok(nodes@[m].children@, es, e.0, (depth - 1) as nat)
                    } else {
                        nodes@[m].children@.len() == 0
                    }
                },
        decreases sorted.len() - j,
    {
        let idx = sorted[j].index;
        let ghost k = ks[j as int];
        assert(k == sorted@[j as int]@);
        assert(idx as nat == k.2);
        let e = &entries[idx];
        let ghost ev = es[idx as int];
        assert(ev == (e.relative_path@, e.is_dir));
        let children = if e.is_dir {
            proof {
                lemma_parent_shorter(ev.0);
                lemma_max_path_len(es, idx as int);
            }
            build_children(entries, pp, &pp.paths[idx], Ghost(es), Ghost((depth - 1) as nat))
        } else {
            Vec::new()
        };
        let name = string_from_chars(&pp.bases[idx]);
        let node = FileNode {
            name,
            path: e.relative_path.clone(),
            is_dir: e.is_dir,
            children,
        };
        let ghost before = nodes@;
        proof {
            assert(pp.bases@[idx as int]@ == base_name(es[idx as int].0));
            assert(node.name@ == base_name(ev.0));
            assert(node.path@ == ev.0);
            assert(node.is_dir == ev.1);
            if ev.1 {
                assert(pp.paths@[idx as int]@ == ev.0);
                assert(depth > 0);
                assert(tree_ok(node.children@, es, ev.0, (depth - 1) as nat));
            } else {
                assert(node.children@.len() == 0);
            }
        }
        nodes.push(node);
        proof {
            assert forall|m: int| 0 <= m < j + 1 implies {
                let e = es[ks[m].2 as int];
                &&& (#[trigger] nodes@[m]).name@ == base_name(e.0)
                &&& nodes@[m].path@ == e.0
                &&& nodes@[m].is_dir == e.1
                &&& if e.1 {
                    depth > 0 && tree_ok(nodes@[m].children@, es, e.0, (depth - 1) as nat)
                } else {
                    nodes@[m].children@.len() == 0
                }
            } by {
                if m < j {
                    assert(nodes@[m] == before[m]);
                }
            }
        }
        j += 1;
    }
    nodes
}

/// The nested file tree of a repository, from the entries of the walk (root
/// excluded): the children of each directory listed directories first, then
/// by case-insensitive name, in walk order where names agree.
pub fn build_file_tree(entries: &Vec<TreeEntry>) -> (r: Vec<FileNode>)
    requires
        forall|i: int| 0 <= i < entries@.len() ==> (#[trigger] entries@[i]).relative_path@.len() > 0,
    ensures
        tree_ok(r@, tree_entry_views(entries@), seq![], max_path_len(tree_entry_views(entries@)) + 1),
{
    let ghost es = tree_entry_views(entries@);
    let pp = path_parts(entries);
    let root: Vec<char> = Vec::new();
    proof {
        assert forall|i: int| 0 <= i < es.len() implies (#[trigger] es[i]).0.len() > 0 by {
            assert(es[i].0 == entries@[i].relative_path@);
        }
        assert(root@ == Seq::<char>::empty());
    }
    build_children(entries, &pp, &root, Ghost(es), Ghost(max_path_len(es) + 1))
}

/// In every listing of the tree, directories come before files, and within
/// each group names are in case-insensitive alphabetical order.
pub proof fn law_directories_listed_first(
    nodes: Seq<FileNode>,
    es: Seq<(Seq<char>, bool)>,
    parent: Seq<char>,
    depth: nat,
)
    requires
        tree_ok(nodes, es, parent, depth),
    ensures
        forall|i: int, j: int|
            0 <= i < j < nodes.len() ==> {
                &&& (#[trigger] nodes[j]).is_dir ==> (#[trigger] nodes[i]).is_dir
                &&& nodes[i].is_dir == nodes[j].is_dir ==> chars_le(
                    lowercase(nodes[i].name@),
                    lowercase(nodes[j].name@),
                )
            },
{
    let all_keys = child_keys(es, parent, es.len() as int);
    let c = |a: (bool, Seq<char>, nat), b: (bool, Seq<char>, nat)| child_le(a, b);
    let ks = ordered_children(es, parent);
    lemma_child_le_total_ordering();
    all_keys.lemma_sort_by_ensures(c);
    lemma_child_keys(es, parent, es.len() as int);
    assert forall|m: int| 0 <= m < ks.len() implies #[trigger] ks[m] == child_key(es, ks[m].2 as int) by {
        assert(ks.contains(ks[m]));
        if !all_keys.contains(ks[m]) {
            assert(!ks.contains(ks[m]));
        }
        let w = choose|w: int| 0 <= w < all_keys.len() && all_keys[w] == ks[m];
        assert(all_keys[w] == ks[m]);
    }
    assert forall|i: int, j: int| 0 <= i < j < nodes.len() implies {
        &&& (#[trigger] nodes[j]).is_dir ==> (#[trigger] nodes[i]).is_dir
        &&& nodes[i].is_dir == nodes[j].is_dir ==> chars_le(
            lowercase(nodes[i].name@),
            lowercase(nodes[j].name@),
        )
    } by {
        assert(c(ks[i], ks[j]));
        assert(ks[i] == child_key(es, ks[i].2 as int));
        assert(ks[j] == child_key(es, ks[j].2 as int));
    }
}

pub proof fn lemma_child_keys_complete(es: Seq<(Seq<char>, bool)>, parent: Seq<char>, n: int, i: int)
    requires
        0 <= i < n <= es.len(),
        parent_path(es[i].0) == parent,
    ensures
        child_keys(es, parent, n).contains(child_key(es, i)),
    decreases n,
{
    let prev = child_keys(es, parent, n - 1);
    if i == n - 1 {
        assert(child_keys(es, parent, n)[prev.len() as int] == child_key(es, i));
    } else {
        lemma_child_keys_complete(es, parent, n - 1, i);
        let j = choose|j: int| 0 <= j < prev.len() && prev[j] == child_key(es, i);
        assert(child_keys(es, parent, n)[j] == prev[j]);
    }
}

/// Every listing of the tree holds exactly the walked entries directly inside
/// that directory: each such entry appears among the nodes (with its path and
/// kind), and every node is such an entry.
pub proof fn law_listing_holds_each_child(
    nodes: Seq<FileNode>,
    es: Seq<(Seq<char>, bool)>,
    parent: Seq<char>,
    depth: nat,
)
    requires
        tree_ok(nodes, es, parent, depth),
    ensures
        forall|i: int|
            0 <= i < es.len() && parent_path(#[trigger] es[i].0) == parent ==> exists|j: int|
                0 <= j < nodes.len() && (#[trigger] nodes[j]).path@ == es[i].0 && nodes[j].is_dir
                    == es[i].1,
        forall|j: int| 0 <= j < nodes.len() ==> parent_path((#[trigger] nodes[j]).path@) == parent,
{
    let all_keys = child_keys(es, parent, es.len() as int);
    let c = |a: (bool, Seq<char>, nat), b: (bool, Seq<char>, nat)| child_le(a, b);
    let ks = ordered_children(es, parent);
    lemma_child_le_total_ordering();
    all_keys.lemma_sort_by_ensures(c);
    lemma_child_keys(es, parent, es.len() as int);
    assert forall|m: int| 0 <= m < ks.len() implies {
        let k = #[trigger] ks[m];
        &&& k.2 < es.len()
        &&& k == child_key(es, k.2 as int)
        &&& parent_path(es[k.2 as int].0) == parent
    } by {
        assert(ks.contains(ks[m]));
        if !all_keys.contains(ks[m]) {
            assert(!ks.contains(ks[m]));
        }
        let w = choose|w: int| 0 <= w < all_keys.len() && all_keys[w] == ks[m];
        assert(all_keys[w] == ks[m]);
    }
    assert forall|i: int|
        0 <= i < es.len() && parent_path(#[trigger] es[i].0) == parent implies exists|j: int|
            0 <= j < nodes.len() && (#[trigger] nodes[j]).path@ == es[i].0 && nodes[j].is_dir
                == es[i].1 by {
        broadcast use vstd::seq_lib::group_to_multiset_ensures;

        lemma_child_keys_complete(es, parent, es.len() as int, i);
        assert(all_keys.to_multiset().count(child_key(es, i)) > 0);
        assert(ks.to_multiset().count(child_key(es, i)) > 0);
        assert(ks.contains(child_key(es, i)));
        let j = choose|j: int| 0 <= j < ks.len() && ks[j] == child_key(es, i);
        assert(ks[j].2 == i);
        assert(nodes[j].path@ == es[i].0);
    }
    assert forall|j: int| 0 <= j < nodes.len() implies parent_path((#[trigger] nodes[j]).path@)
        == parent by {
        assert(ks[j] == child_key(es, ks[j].2 as int));
    }
}

} // verus!
