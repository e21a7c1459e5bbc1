//! Orders on text and a verified sort by any total order.
//!
//! Text is ordered as `str` orders it: character by character by code point,
//! a proper prefix first. The sort is stable in effect: it returns the unique
//! sequence that is ordered and holds the same elements, which is what
//! `Seq::sort_by` describes.
use vstd::prelude::*;
use vstd::relations::{sorted_by, total_ordering};

verus! {

broadcast use vstd::seq_lib::group_to_multiset_ensures;

/// Whether `a` comes no later than `b` in the order of `str`.
pub open spec fn chars_le(a: Seq<char>, b: Seq<char>) -> bool
    decreases a.len(),
{
    if a.len() == 0 {
        true
    } else if b.len() == 0 {
        false
    } else if a[0] != b[0] {
        (a[0] as int) < (b[0] as int)
    } else {
        chars_le(a.drop_first(), b.drop_first())
    }
}

pub proof fn lemma_chars_le_reflexive(a: Seq<char>)
    ensures
        chars_le(a, a),
    decreases a.len(),
{
    if a.len() > 0 {
        lemma_chars_le_reflexive(a.drop_first());
    }
}

pub proof fn lemma_chars_le_antisymmetric(a: Seq<char>, b: Seq<char>)
    requires
        chars_le(a, b),
        chars_le(b, a),
    ensures
        a == b,
    decreases a.len(),
{
    if a.len() == 0 {
        assert(b.len() == 0);
        assert(a =~= b);
    } else {
        assert(b.len() > 0);
        assert(a[0] == b[0]);
        lemma_chars_le_antisymmetric(a.drop_first(), b.drop_first());
        assert(a =~= seq![a[0]] + a.drop_first());
        assert(b =~= seq![b[0]] + b.drop_first());
    }
}

pub proof fn lemma_chars_le_transitive(a: Seq<char>, b: Seq<char>, c: Seq<char>)
    requires
        chars_le(a, b),
        chars_le(b, c),
    ensures
        chars_le(a, c),
    decreases a.len(),
{
    if a.len() > 0 && b.len() > 0 && c.len() > 0 {
        if a[0] == b[0] && b[0] == c[0] {
            lemma_chars_le_transitive(a.drop_first(), b.drop_first(), c.drop_first());
        }
    }
}

pub proof fn lemma_chars_le_total(a: Seq<char>, b: Seq<char>)
    ensures
        chars_le(a, b) || chars_le(b, a),
    decreases a.len(),
{
    if a.len() > 0 && b.len() > 0 {
        if a[0] == b[0] {
            lemma_chars_le_total(a.drop_first(), b.drop_first());
        } else {
            assert((a[0] as int) != (b[0] as int));
        }
    }
}

/// The order of `str` is a total order.
pub proof fn lemma_chars_le_total_ordering()
    ensures
        total_ordering(|a: Seq<char>, b: Seq<char>| chars_le(a, b)),
{
    assert forall|a: Seq<char>| #[trigger] chars_le(a, a) by {
        lemma_chars_le_reflexive(a);
    }
    assert forall|a: Seq<char>, b: Seq<char>|
        #[trigger] chars_le(a, b) && #[trigger] chars_le(b, a) implies a == b by {
        lemma_chars_le_antisymmetric(a, b);
    }
    assert forall|a: Seq<char>, b: Seq<char>, c: Seq<char>|
        #[trigger] chars_le(a, b) && #[trigger] chars_le(b, c) implies chars_le(a, c) by {
        lemma_chars_le_transitive(a, b, c);
    }
    assert forall|a: Seq<char>, b: Seq<char>| #[trigger] chars_le(a, b) || #[trigger] chars_le(
        b,
        a,
    ) by {
        lemma_chars_le_total(a, b);
    }
}

/// Compares two character buffers in the order of `str`.
pub fn chars_le_exec(a: &Vec<char>, b: &Vec<char>) -> (r: bool)
    ensures
        r == chars_le(a@, b@),
{
    let mut i: usize = 0;
    assert(a@.skip(0) =~= a@);
    assert(b@.skip(0) =~= b@);
    while i < a.len() && i < b.len()
        invariant
            i <= a@.len(),
            i <= b@.len(),
            chars_le(a@, b@) == chars_le(a@.skip(i as int), b@.skip(i as int)),
        decreases a.len() - i,
    {
        let x = a[i];
        let y = b[i];
        assert(a@.skip(i as int)[0] == x);
        assert(b@.skip(i as int)[0] == y);
        if x != y {
            return x < y;
        }
        assert(a@.skip(i as int).drop_first() =~= a@.skip(i + 1));
        assert(b@.skip(i as int).drop_first() =~= b@.skip(i + 1));
        i += 1;
    }
    i == a.len()
}

/// Values that can be sorted: a view and a total order on views, with an
/// executable comparison that computes it.
pub trait SortKey: View + Sized {
    spec fn key_le(a: Self::V, b: Self::V) -> bool;

    proof fn lemma_key_le_total()
        ensures
            total_ordering(|a: Self::V, b: Self::V| Self::key_le(a, b)),
    ;

    fn le(&self, other: &Self) -> (r: bool)
        ensures
            r == Self::key_le(self@, other@),
    ;
}

/// The views of a sequence of sortable values.
pub open spec fn key_views<T: SortKey>(s: Seq<T>) -> Seq<T::V> {
    s.map_values(|x: T| x@)
}

/// The order of a sortable type, as a relation.
pub open spec fn key_order<T: SortKey>() -> spec_fn(T::V, T::V) -> bool {
    |a: T::V, b: T::V| T::key_le(a, b)
}

impl SortKey for Vec<char> {
    open spec fn key_le(a: Seq<char>, b: Seq<char>) -> bool {
        chars_le(a, b)
    }

    proof fn lemma_key_le_total() {
        lemma_chars_le_total_ordering();
        let leq = |a: Seq<char>, b: Seq<char>| Self::key_le(a, b);
        let cle = |a: Seq<char>, b: Seq<char>| chars_le(a, b);
        assert(leq =~= cle);
    }

    fn le(&self, other: &Self) -> (r: bool) {
        chars_le_exec(self, other)
    }
}

/// Sorts `v` by the total order of its element type: the result holds the
/// same elements, in order.
pub fn sort_keys<T: SortKey>(v: Vec<T>) -> (r: Vec<T>)
    ensures
        key_views(r@) == key_views(v@).sort_by(key_order::<T>()),
{
    let ghost leq = key_order::<T>();
    let ghost all = key_views(v@);
    proof {
        T::lemma_key_le_total();
        assert(total_ordering(leq));
    }
    let mut rest = v;
    let mut r: Vec<T> = Vec::new();
    let ghost mut k: int = 0;
    assert(key_views(r@).to_multiset() =~= all.take(0).to_multiset()) by {
        assert(key_views(r@) =~= Seq::<T::V>::empty());
        assert(all.take(0) =~= Seq::<T::V>::empty());
    }
    while rest.len() > 0
        invariant
            total_ordering(leq),
            leq == key_order::<T>(),
            all == key_views(v@),
            0 <= k <= all.len(),
            key_views(rest@) == all.skip(k),
            sorted_by(key_views(r@), leq),
            key_views(r@).to_multiset() == all.take(k).to_multiset(),
        decreases rest.len(),
    {
        let ghost before = key_views(rest@);
        let x = rest.remove(0);
        proof {
            assert(before[0] == x@);
            assert(key_views(rest@) =~= before.drop_first());
            assert(all[k] == x@);
        }
        let mut j: usize = 0;
        while j < r.len() && r[j].le(&x)
            invariant
                j <= r@.len(),
                forall|m: int| 0 <= m < j ==> #[trigger] T::key_le(r@[m]@, x@),
            decreases r.len() - j,
        {
            j += 1;
        }
        let ghost rv = key_views(r@);
        proof {
            if j < r@.len() {
                assert(!T::key_le(r@[j as int]@, x@));
                assert(rv[j as int] == r@[j as int]@);
                assert(!leq(rv[j as int], x@));
                assert(leq(rv[j as int], x@) || leq(x@, rv[j as int]));
                assert(leq(x@, rv[j as int]));
                assert forall|m: int| j <= m < rv.len() implies #[trigger] leq(x@, rv[m]) by {
                    if m > j {
                        assert(leq(rv[j as int], rv[m]));
                    }
                }
            }
            assert forall|m: int| 0 <= m < j implies #[trigger] leq(rv[m], x@) by {
                assert(T::key_le(r@[m]@, x@));
            }
        }
        r.insert(j, x);
        proof {
            let nv = key_views(r@);
            assert(nv =~= rv.insert(j as int, x@));
            assert forall|a: int, b: int| 0 <= a < b < nv.len() implies #[trigger] leq(
                nv[a],
                nv[b],
            ) by {
                if a < j && b < j {
                    assert(leq(rv[a], rv[b]));
                } else if a < j && b == j {
                } else if a < j && b > j {
                    assert(leq(rv[a], x@));
                    assert(leq(x@, rv[b - 1]));
                } else if a == j {
                    assert(leq(x@, rv[b - 1]));
                } else {
                    assert(leq(rv[a - 1], rv[b - 1]));
                }
            }
            vstd::seq_lib::to_multiset_insert(rv, j as int, x@);
            assert(all.take(k + 1) =~= all.take(k).push(x@));
            k = k + 1;
        }
    }
    proof {
        assert(all.take(k) =~= all);
        all.lemma_sort_by_ensures(leq);
        vstd::seq_lib::lemma_sorted_unique(key_views(r@), all.sort_by(leq), leq);
    }
    r
}

} // verus!
