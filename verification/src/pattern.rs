//! Regular-expression matching through the `regex` crate, and character
//! classes from std that the search code needs.
use vstd::prelude::*;

verus! {

/// Whether `regex::Regex::new` accepts `pattern`.
pub uninterp spec fn regex_valid(pattern: Seq<char>) -> bool;

/// The texts of the successive non-overlapping leftmost-first matches of
/// `pattern` in `text`, as `regex::Regex::find_iter` yields them.
pub uninterp spec fn regex_matches(pattern: Seq<char>, text: Seq<char>) -> Seq<Seq<char>>;

/// Capture group 1 of each successive match of `pattern` in `text`, as
/// `regex::Regex::captures_iter` yields the matches: its text, or `None` where
/// the group took no part in the match.
pub uninterp spec fn regex_captures(pattern: Seq<char>, text: Seq<char>) -> Seq<Option<Seq<char>>>;

/// Unicode `Alphabetic` or `Numeric`, the property `char::is_alphanumeric` tests.
pub uninterp spec fn alphanumeric(c: char) -> bool;

pub open spec fn strings_view(v: Seq<String>) -> Seq<Seq<char>> {
    v.map_values(|s: String| s@)
}

/// `regex::Regex::new(pattern)` followed by `find_iter(text)`: the matched
/// texts in order; `None` when the pattern does not compile.
#[verifier::external_body]
pub(crate) fn find_all(pattern: &str, text: &str) -> (r: Option<Vec<String>>)
    ensures
        r is Some <==> regex_valid(pattern@),
        r matches Some(v) ==> strings_view(v@) == regex_matches(pattern@, text@),
{
    let re = regex::Regex::new(pattern).ok()?;
    Some(re.find_iter(text).map(|m| m.as_str().to_string()).collect())
}

pub open spec fn opt_strings_view(v: Seq<Option<String>>) -> Seq<Option<Seq<char>>> {
    v.map_values(
        |o: Option<String>|
            match o {
                Some(s) => Some(s@),
                None => None,
            },
    )
}

/// `regex::Regex::new(pattern)` followed by `captures_iter(text)`: capture
/// group 1 of each match, when it took part; `None` when the pattern does not
/// compile.
#[verifier::external_body]
pub(crate) fn capture_all(pattern: &str, text: &str) -> (r: Option<Vec<Option<String>>>)
    ensures
        r is Some <==> regex_valid(pattern@),
        r matches Some(v) ==> opt_strings_view(v@) == regex_captures(pattern@, text@),
{
    let re = regex::Regex::new(pattern).ok()?;
    Some(re.captures_iter(text).map(|c| c.get(1).map(|m| m.as_str().to_string())).collect())
}

/// The present entries of a sequence of optional texts, in order.
pub open spec fn present(s: Seq<Option<Seq<char>>>) -> Seq<Seq<char>>
    decreases s.len(),
{
    if s.len() == 0 {
        seq![]
    } else {
        present(s.drop_last()) + match s.last() {
            Some(t) => seq![t],
            None => Seq::<Seq<char>>::empty(),
        }
    }
}

/// `char::is_alphanumeric`.
#[verifier::external_body]
pub(crate) fn is_alphanumeric(c: char) -> (b: bool)
    ensures
        b == alphanumeric(c),
{
    c.is_alphanumeric()
}

/// The matches of `pattern` in `text`, or none when the pattern does not compile.
pub open spec fn matches_or_none(pattern: Seq<char>, text: Seq<char>) -> Seq<Seq<char>> {
    if regex_valid(pattern) {
        regex_matches(pattern, text)
    } else {
        seq![]
    }
}

/// The group-1 captures of `pattern` in `text` (matches where the group took
/// no part are passed over), or none when the pattern does not compile.
pub open spec fn captures_or_none(pattern: Seq<char>, text: Seq<char>) -> Seq<Seq<char>> {
    if regex_valid(pattern) {
        present(regex_captures(pattern, text))
    } else {
        seq![]
    }
}

/// [`find_all`], with no matches when the pattern does not compile.
pub fn matches_of(pattern: &str, text: &str) -> (r: Vec<String>)
    ensures
        strings_view(r@) == matches_or_none(pattern@, text@),
{
    match find_all(pattern, text) {
        Some(v) => v,
        None => {
            let v: Vec<String> = Vec::new();
            assert(strings_view(v@) =~= Seq::<Seq<char>>::empty());
            v
        },
    }
}

/// [`capture_all`], with no captures when the pattern does not compile.
pub fn captures_of(pattern: &str, text: &str) -> (r: Vec<String>)
    ensures
        strings_view(r@) == captures_or_none(pattern@, text@),
{
    match capture_all(pattern, text) {
        Some(v) => {
            let ghost all = opt_strings_view(v@);
            let mut r: Vec<String> = Vec::new();
            let mut rest = v;
            let ghost mut k: int = 0;
            assert(all.take(0) =~= Seq::<Option<Seq<char>>>::empty());
            assert(strings_view(r@) =~= Seq::<Seq<char>>::empty());
            while rest.len() > 0
                invariant
                    0 <= k <= all.len(),
                    opt_strings_view(rest@) == all.skip(k),
                    strings_view(r@) == present(all.take(k)),
                decreases rest.len(),
            {
                let ghost before = opt_strings_view(rest@);
                assert(before.len() == rest@.len());
                assert(before[0] == all.skip(k)[0]);
                assert(k < all.len());
                let item = rest.remove(0);
                proof {
                    assert(before[0] == all[k]);
                    assert(opt_strings_view(rest@) =~= before.drop_first());
                    assert(all.skip(k).drop_first() =~= all.skip(k + 1));
                    assert(all.take(k + 1).drop_last() =~= all.take(k));
                }
                let ghost rv = strings_view(r@);
                match item {
                    Some(s) => {
                        let ghost sv = s@;
                        r.push(s);
                        assert(strings_view(r@) =~= rv.push(sv));
                    },
                    None => {},
                }
                proof {
                    k = k + 1;
                }
            }
            assert(all.take(all.len() as int) =~= all);
            r
        },
        None => {
            let v: Vec<String> = Vec::new();
            assert(strings_view(v@) =~= Seq::<Seq<char>>::empty());
            v
        },
    }
}

} // verus!
