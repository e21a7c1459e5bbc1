//! Character-level text primitives shared by the rest of the library.
//!
//! Strings are modelled by their `Seq<char>` view. Executable helpers work on
//! `Vec<char>` buffers and convert to and from `&str` / `String` at the edges.
use vstd::prelude::*;

verus! {

// ---------------------------------------------------------------------------
// Conversions
// ---------------------------------------------------------------------------

/// The characters of `s`, in order.
pub fn chars_of(s: &str) -> (v: Vec<char>)
    ensures
        v@ == s@,
{
    broadcast use vstd::string::axiom_spec_iter;

    let mut v: Vec<char> = Vec::new();
    for c in it: s.chars()
        invariant
            v@ == it.seq().take(it.index() as int),
            it.seq() == s@,
    {
        v.push(c);
    }
    v
}

/// `String`'s `FromIterator<&char>` implementation (std): the string holds the
/// given characters in order.
#[verifier::external_body]
pub(crate) fn string_from_chars(v: &Vec<char>) -> (s: String)
    ensures
        s@ == v@,
{
    v.iter().collect()
}

/// Appends all of `src` to `dst`.
pub fn push_all(dst: &mut Vec<char>, src: &Vec<char>)
    ensures
        final(dst)@ == old(dst)@ + src@,
{
    let ghost start = dst@;
    let mut i: usize = 0;
    while i < src.len()
        invariant
            i <= src.len(),
            dst@ == start + src@.take(i as int),
        decreases src.len() - i,
    {
        dst.push(src[i]);
        i += 1;
        assert(src@.take(i as int) == src@.take((i - 1) as int).push(src@[i - 1]));
    }
    assert(src@.take(src.len() as int) == src@);
}

/// Appends the characters of the literal or slice `src` to `dst`.
pub fn push_str(dst: &mut Vec<char>, src: &str)
    ensures
        final(dst)@ == old(dst)@ + src@,
{
    let v = chars_of(src);
    push_all(dst, &v);
}

/// The characters of `v` in positions `[from, to)`.
pub fn slice_chars(v: &Vec<char>, from: usize, to: usize) -> (r: Vec<char>)
    requires
        from <= to <= v@.len(),
    ensures
        r@ == v@.subrange(from as int, to as int),
{
    let mut r: Vec<char> = Vec::new();
    let mut i = from;
    while i < to
        invariant
            from <= i <= to <= v@.len(),
            r@ == v@.subrange(from as int, i as int),
        decreases to - i,
    {
        r.push(v[i]);
        i += 1;
        assert(r@ == v@.subrange(from as int, i as int));
    }
    r
}

/// Whether two character buffers are equal.
pub fn chars_eq(a: &Vec<char>, b: &Vec<char>) -> (r: bool)
    ensures
        r == (a@ == b@),
{
    if a.len() != b.len() {
        return false;
    }
    let mut i: usize = 0;
    while i < a.len()
        invariant
            i <= a@.len() == b@.len(),
            a@.take(i as int) == b@.take(i as int),
        decreases a.len() - i,
    {
        if a[i] != b[i] {
            assert(a@[i as int] != b@[i as int]);
            return false;
        }
        i += 1;
        assert(a@.take(i as int) == a@.take((i - 1) as int).push(a@[i - 1]));
        assert(b@.take(i as int) == b@.take((i - 1) as int).push(b@[i - 1]));
    }
    assert(a@ == a@.take(a@.len() as int));
    assert(b@ == b@.take(b@.len() as int));
    true
}

// ---------------------------------------------------------------------------
// Whitespace and trimming
// ---------------------------------------------------------------------------

/// Unicode `White_Space`, the property that `char::is_whitespace` tests.
pub open spec fn is_ws(c: char) -> bool {
    let u = c as u32;
    ||| 0x09 <= u <= 0x0d
    ||| u == 0x20
    ||| u == 0x85
    ||| u == 0xa0
    ||| u == 0x1680
    ||| 0x2000 <= u <= 0x200a
    ||| u == 0x2028
    ||| u == 0x2029
    ||| u == 0x202f
    ||| u == 0x205f
    ||| u == 0x3000
}

pub fn is_whitespace(c: char) -> (b: bool)
    ensures
        b == is_ws(c),
{
    let u = c as u32;
    (0x09 <= u && u <= 0x0d) || u == 0x20 || u == 0x85 || u == 0xa0 || u == 0x1680 || (0x2000
        <= u && u <= 0x200a) || u == 0x2028 || u == 0x2029 || u == 0x202f || u == 0x205f || u
        == 0x3000
}

/// `s` without its leading whitespace.
pub open spec fn trim_start(s: Seq<char>) -> Seq<char>
    decreases s.len(),
{
    if s.len() > 0 && is_ws(s[0]) {
        trim_start(s.drop_first())
    } else {
        s
    }
}

/// `s` without its trailing whitespace.
pub open spec fn trim_end(s: Seq<char>) -> Seq<char>
    decreases s.len(),
{
    if s.len() > 0 && is_ws(s.last()) {
        trim_end(s.drop_last())
    } else {
        s
    }
}

/// `s` without leading and trailing whitespace (`str::trim`).
pub open spec fn trim(s: Seq<char>) -> Seq<char> {
    trim_end(trim_start(s))
}

/// Number of leading whitespace characters that `trim_start` removes.
pub fn trim_start_index(v: &Vec<char>) -> (i: usize)
    ensures
        i <= v@.len(),
        trim_start(v@) == v@.skip(i as int),
{
    let mut i: usize = 0;
    assert(v@.skip(0) == v@);
    while i < v.len() && is_whitespace(v[i])
        invariant
            i <= v@.len(),
            trim_start(v@) == trim_start(v@.skip(i as int)),
        decreases v.len() - i,
    {
        assert(v@.skip(i as int).drop_first() == v@.skip(i + 1));
        i += 1;
    }
    i
}

/// Number of characters that remain once `trim_end` has removed trailing whitespace.
pub fn trim_end_index(v: &Vec<char>) -> (j: usize)
    ensures
        j <= v@.len(),
        trim_end(v@) == v@.take(j as int),
{
    let mut j: usize = v.len();
    assert(v@.take(j as int) == v@);
    while j > 0 && is_whitespace(v[j - 1])
        invariant
            j <= v@.len(),
            trim_end(v@) == trim_end(v@.take(j as int)),
        decreases j,
    {
        assert(v@.take(j as int).drop_last() == v@.take(j - 1));
        j -= 1;
    }
    j
}

pub proof fn lemma_trim_end_take(s: Seq<char>, n: int)
    requires
        0 <= n <= s.len(),
        forall|k: int| n <= k < s.len() ==> is_ws(s[k]),
    ensures
        trim_end(s) == trim_end(s.take(n)),
    decreases s.len() - n,
{
    if n < s.len() {
        assert(s.drop_last() == s.take(s.len() - 1));
        lemma_trim_end_take(s.drop_last(), n);
        assert(s.drop_last().take(n) == s.take(n));
    } else {
        assert(s.take(n) == s);
    }
}

pub proof fn lemma_trim_start_idem(s: Seq<char>)
    ensures
        trim_start(trim_start(s)) == trim_start(s),
        trim_start(s).len() > 0 ==> !is_ws(trim_start(s)[0]),
    decreases s.len(),
{
    if s.len() > 0 && is_ws(s[0]) {
        lemma_trim_start_idem(s.drop_first());
    }
}

pub proof fn lemma_trim_end_props(s: Seq<char>)
    ensures
        trim_end(s).len() > 0 ==> !is_ws(trim_end(s).last()),
        trim_end(s).len() <= s.len(),
        trim_end(s) == s.take(trim_end(s).len() as int),
    decreases s.len(),
{
    if s.len() > 0 && is_ws(s.last()) {
        lemma_trim_end_props(s.drop_last());
        assert(s.drop_last().take(trim_end(s).len() as int) == s.take(trim_end(s).len() as int));
    } else {
        assert(s.take(s.len() as int) == s);
    }
}

/// Whether `s` has no leading or trailing whitespace.
pub open spec fn is_trimmed(s: Seq<char>) -> bool {
    s.len() > 0 ==> !is_ws(s[0]) && !is_ws(s.last())
}

pub proof fn lemma_trim_is_trimmed(s: Seq<char>)
    ensures
        is_trimmed(trim(s)),
{
    lemma_trim_start_idem(s);
    let t = trim_start(s);
    lemma_trim_end_props(t);
    if trim(s).len() > 0 {
        assert(trim(s)[0] == t[0]);
    }
}

/// `str::trim` on a character buffer.
pub fn trim_chars(v: &Vec<char>) -> (r: Vec<char>)
    ensures
        r@ == trim(v@),
{
    let i = trim_start_index(v);
    let rest = slice_chars(v, i, v.len());
    assert(rest@ == v@.skip(i as int));
    let j = trim_end_index(&rest);
    let r = slice_chars(&rest, 0, j);
    assert(r@ == rest@.take(j as int));
    r
}

// ---------------------------------------------------------------------------
// Prefixes, suffixes, occurrences
// ---------------------------------------------------------------------------

pub open spec fn has_prefix(s: Seq<char>, p: Seq<char>) -> bool {
    p.len() <= s.len() && s.take(p.len() as int) == p
}

pub open spec fn has_suffix(s: Seq<char>, p: Seq<char>) -> bool {
    p.len() <= s.len() && s.skip(s.len() - p.len()) == p
}

/// `p` occurs in `s` starting at position `i`.
pub open spec fn occurs_at(s: Seq<char>, p: Seq<char>, i: int) -> bool {
    0 <= i && i + p.len() <= s.len() && s.subrange(i, i + p.len()) == p
}

/// First position at or after `i` where `p` occurs in `s`.
pub open spec fn find_from(s: Seq<char>, p: Seq<char>, i: int) -> Option<int>
    decreases s.len() + 1 - i,
{
    if i < 0 || i + p.len() > s.len() {
        None
    } else if occurs_at(s, p, i) {
        Some(i)
    } else {
        find_from(s, p, i + 1)
    }
}

/// First position where `p` occurs in `s` (`str::find`).
pub open spec fn find(s: Seq<char>, p: Seq<char>) -> Option<int> {
    find_from(s, p, 0)
}

/// Whether `p` occurs in `s` (`str::contains`).
pub open spec fn contains(s: Seq<char>, p: Seq<char>) -> bool {
    find(s, p) is Some
}

pub proof fn lemma_find_from(s: Seq<char>, p: Seq<char>, i: int)
    requires
        0 <= i,
    ensures
        find_from(s, p, i) matches Some(k) ==> i <= k && occurs_at(s, p, k) && forall|m: int|
            i <= m < k ==> !occurs_at(s, p, m),
        find_from(s, p, i) is None ==> forall|m: int| i <= m ==> !occurs_at(s, p, m),
    decreases s.len() + 1 - i,
{
    if i + p.len() > s.len() {
    } else if occurs_at(s, p, i) {
    } else {
        lemma_find_from(s, p, i + 1);
    }
}

pub fn starts_with(v: &Vec<char>, p: &Vec<char>) -> (r: bool)
    ensures
        r == has_prefix(v@, p@),
{
    if p.len() > v.len() {
        return false;
    }
    matches_at(v, p, 0)
}

pub fn ends_with(v: &Vec<char>, p: &Vec<char>) -> (r: bool)
    ensures
        r == has_suffix(v@, p@),
{
    if p.len() > v.len() {
        return false;
    }
    let r = matches_at(v, p, v.len() - p.len());
    assert(v@.subrange(v@.len() - p@.len(), v@.len() as int) == v@.skip(v@.len() - p@.len()));
    r
}

/// Whether `p` occurs in `v` at position `i`.
pub fn matches_at(v: &Vec<char>, p: &Vec<char>, i: usize) -> (r: bool)
    ensures
        r == occurs_at(v@, p@, i as int),
{
    if i > v.len() || p.len() > v.len() - i {
        return false;
    }
    let mut k: usize = 0;
    while k < p.len()
        invariant
            i + p.len() <= v.len(),
            k <= p@.len(),
            v@.subrange(i as int, i + k) == p@.take(k as int),
        decreases p.len() - k,
    {
        if v[i + k] != p[k] {
            assert(v@.subrange(i as int, i + p@.len())[k as int] == v@[i + k]);
            return false;
        }
        k += 1;
        assert(v@.subrange(i as int, i + k) == v@.subrange(i as int, i + k - 1).push(v@[i + k - 1]));
        assert(p@.take(k as int) == p@.take(k - 1).push(p@[k - 1]));
    }
    assert(p@.take(p@.len() as int) == p@);
    true
}

/// `str::find` on character buffers.
pub fn find_chars(v: &Vec<char>, p: &Vec<char>) -> (r: Option<usize>)
    ensures
        match r {
            Some(k) => find(v@, p@) == Some(k as int),
            None => find(v@, p@) is None,
        },
{
    if p.len() > v.len() {
        return None;
    }
    let last = v.len() - p.len();
    let mut i: usize = 0;
    while i <= last
        invariant
            last + p@.len() == v@.len(),
            i <= last + 1,
            find(v@, p@) == find_from(v@, p@, i as int),
        decreases last + 1 - i,
    {
        if matches_at(v, p, i) {
            return Some(i);
        }
        if i == last {
            assert(find_from(v@, p@, i + 1) is None);
            assert(find_from(v@, p@, i as int) == find_from(v@, p@, i + 1));
            return None;
        }
        i += 1;
    }
    None
}

pub fn contains_chars(v: &Vec<char>, p: &Vec<char>) -> (r: bool)
    ensures
        r == contains(v@, p@),
{
    find_chars(v, p).is_some()
}

/// `s` with every trailing repetition of the non-empty pattern `p` removed
/// (`str::trim_end_matches`).
pub open spec fn trim_end_matches(s: Seq<char>, p: Seq<char>) -> Seq<char>
    decreases s.len(),
{
    if p.len() > 0 && has_suffix(s, p) {
        trim_end_matches(s.take(s.len() - p.len()), p)
    } else {
        s
    }
}

pub fn trim_end_matches_chars(v: &Vec<char>, p: &Vec<char>) -> (r: Vec<char>)
    ensures
        r@ == trim_end_matches(v@, p@),
{
    let mut j = v.len();
    let mut cur = slice_chars(v, 0, j);
    assert(cur@ == v@);
    while p.len() > 0 && ends_with(&cur, p)
        invariant
            cur@ == v@.take(j as int),
            j <= v@.len(),
            trim_end_matches(v@, p@) == trim_end_matches(cur@, p@),
        decreases j,
    {
        j = j - p.len();
        assert(cur@.take(cur@.len() - p@.len()) == v@.take(j as int));
        cur = slice_chars(v, 0, j);
    }
    cur
}

/// `s` with trailing occurrences of the character `c` removed.
pub open spec fn trim_end_char(s: Seq<char>, c: char) -> Seq<char>
    decreases s.len(),
{
    if s.len() > 0 && s.last() == c {
        trim_end_char(s.drop_last(), c)
    } else {
        s
    }
}

pub fn trim_end_char_chars(v: &Vec<char>, c: char) -> (r: Vec<char>)
    ensures
        r@ == trim_end_char(v@, c),
{
    let mut j = v.len();
    assert(v@.take(j as int) == v@);
    while j > 0 && v[j - 1] == c
        invariant
            j <= v@.len(),
            trim_end_char(v@, c) == trim_end_char(v@.take(j as int), c),
        decreases j,
    {
        assert(v@.take(j as int).drop_last() == v@.take(j - 1));
        j -= 1;
    }
    slice_chars(v, 0, j)
}

// ---------------------------------------------------------------------------
// Lines
// ---------------------------------------------------------------------------

/// `s` without one trailing carriage return, if it has one.
pub open spec fn strip_cr(s: Seq<char>) -> Seq<char> {
    if s.len() > 0 && s.last() == '\r' {
        s.drop_last()
    } else {
        s
    }
}

/// The position of the first line feed in `s`, if any.
pub open spec fn first_newline(s: Seq<char>) -> Option<int> {
    find(s, seq!['\n'])
}

/// The lines of `s` as `str::lines` yields them: split at each `'\n'`, one
/// `'\r'` before a `'\n'` dropped, and no empty line after a final `'\n'`.
pub open spec fn lines(s: Seq<char>) -> Seq<Seq<char>>
    decreases s.len(),
{
    if s.len() == 0 {
        seq![]
    } else {
        match first_newline(s) {
            Some(k) => if 0 <= k < s.len() {
                seq![strip_cr(s.take(k))] + lines(s.skip(k + 1))
            } else {
                seq![]
            },
            None => seq![s],
        }
    }
}

pub proof fn lemma_first_newline(s: Seq<char>)
    ensures
        first_newline(s) matches Some(k) ==> 0 <= k < s.len() && s[k] == '\n' && forall|m: int|
            0 <= m < k ==> s[m] != '\n',
        first_newline(s) is None ==> forall|m: int| 0 <= m < s.len() ==> s[m] != '\n',
{
    lemma_find_from(s, seq!['\n'], 0);
    if let Some(k) = first_newline(s) {
        assert(s.subrange(k, k + 1)[0] == s[k]);
        assert forall|m: int| 0 <= m < k implies s[m] != '\n' by {
            if s[m] == '\n' {
                assert(s.subrange(m, m + 1) == seq!['\n']);
                assert(occurs_at(s, seq!['\n'], m));
            }
        }
    } else {
        assert forall|m: int| 0 <= m < s.len() implies s[m] != '\n' by {
            if s[m] == '\n' {
                assert(s.subrange(m, m + 1) == seq!['\n']);
                assert(occurs_at(s, seq!['\n'], m));
            }
        }
    }
}

/// `str::lines` on a character buffer.
pub fn split_lines(v: &Vec<char>) -> (r: Vec<Vec<char>>)
    ensures
        r@.len() == lines(v@).len(),
        forall|i: int| 0 <= i < r@.len() ==> #[trigger] r@[i]@ == lines(v@)[i],
{
    let mut r: Vec<Vec<char>> = Vec::new();
    let mut start: usize = 0;
    let mut cur: Vec<char> = Vec::new();
    let mut i: usize = 0;
    assert(v@.skip(0) == v@);
    assert(r@.map_values(|x: Vec<char>| x@) == Seq::<Seq<char>>::empty());
    // `done` holds the lines of v[0..start]; `cur` the characters of the current line.
    while i < v.len()
        invariant
            start <= i <= v@.len(),
            cur@ == v@.subrange(start as int, i as int),
            forall|m: int| start <= m < i ==> v@[m] != '\n',
            lines(v@) == r@.map_values(|x: Vec<char>| x@) + lines(v@.skip(start as int)),
        decreases v.len() - i,
    {
        if v[i] == '\n' {
            let ghost rest = v@.skip(start as int);
            proof {
                lemma_first_newline(rest);
                assert(rest[i - start] == '\n');
                if let Some(k) = first_newline(rest) {
                    assert(k == i - start) by {
                        if k < i - start {
                            assert(rest[k] == v@[start + k]);
                        }
                    }
                } else {
                    assert(false);
                }
                assert(rest.take(i - start) == cur@);
                assert(rest.skip(i - start + 1) == v@.skip(i + 1));
            }
            let mut line = cur;
            if line.len() > 0 && line[line.len() - 1] == '\r' {
                line.pop();
            }
            let ghost before = r@;
            r.push(line);
            proof {
                assert(r@.map_values(|x: Vec<char>| x@) == before.map_values(|x: Vec<char>| x@).push(
                    strip_cr(cur@),
                ));
                assert(lines(rest) == seq![strip_cr(cur@)] + lines(v@.skip(i + 1)));
            }
            cur = Vec::new();
            start = i + 1;
        } else {
            cur.push(v[i]);
        }
        i += 1;
    }
    if start < v.len() {
        let ghost rest = v@.skip(start as int);
        proof {
            lemma_first_newline(rest);
            if let Some(k) = first_newline(rest) {
                assert(rest[k] == v@[start + k]);
            }
            assert(cur@ == rest);
        }
        let ghost before = r@;
        r.push(cur);
        assert(r@.map_values(|x: Vec<char>| x@) == before.map_values(|x: Vec<char>| x@).push(
            rest,
        ));
    } else {
        assert(v@.skip(start as int).len() == 0);
    }
    assert(lines(v@) == r@.map_values(|x: Vec<char>| x@));
    r
}

// ---------------------------------------------------------------------------
// UTF-8 byte lengths and decimal numbers
// ---------------------------------------------------------------------------

/// Number of bytes in the UTF-8 encoding of `c` (`char::len_utf8`).
pub open spec fn utf8_width(c: char) -> nat {
    let u = c as u32;
    if u < 0x80 {
        1
    } else if u < 0x800 {
        2
    } else if u < 0x10000 {
        3
    } else {
        4
    }
}

/// Number of bytes in the UTF-8 encoding of `s` (`str::len`).
pub open spec fn utf8_len(s: Seq<char>) -> nat
    decreases s.len(),
{
    if s.len() == 0 {
        0
    } else {
        utf8_len(s.drop_last()) + utf8_width(s.last())
    }
}

pub proof fn lemma_utf8_len_bounds(s: Seq<char>)
    ensures
        s.len() <= utf8_len(s) <= 4 * s.len(),
    decreases s.len(),
{
    if s.len() > 0 {
        lemma_utf8_len_bounds(s.drop_last());
    }
}

pub proof fn lemma_utf8_len_concat(a: Seq<char>, b: Seq<char>)
    ensures
        utf8_len(a + b) == utf8_len(a) + utf8_len(b),
    decreases b.len(),
{
    if b.len() == 0 {
        assert(a + b == a);
    } else {
        lemma_utf8_len_concat(a, b.drop_last());
        assert((a + b).drop_last() == a + b.drop_last());
    }
}

pub fn char_utf8_width(c: char) -> (w: usize)
    ensures
        w == utf8_width(c),
{
    let u = c as u32;
    if u < 0x80 {
        1
    } else if u < 0x800 {
        2
    } else if u < 0x10000 {
        3
    } else {
        4
    }
}

/// UTF-8 byte length of `s`, saturated at `usize::MAX`.
pub open spec fn utf8_len_sat(s: Seq<char>) -> nat {
    if utf8_len(s) <= usize::MAX {
        utf8_len(s)
    } else {
        usize::MAX as nat
    }
}

/// UTF-8 byte length of a character buffer (saturating at `usize::MAX`).
pub fn utf8_len_of(v: &Vec<char>) -> (n: usize)
    ensures
        n == utf8_len_sat(v@),
{
    let mut n: usize = 0;
    let mut i: usize = 0;
    while i < v.len()
        invariant
            i <= v@.len(),
            n == utf8_len_sat(v@.take(i as int)),
        decreases v.len() - i,
    {
        assert(v@.take(i + 1).drop_last() == v@.take(i as int));
        let w = char_utf8_width(v[i]);
        if n > usize::MAX - w {
            n = usize::MAX;
        } else {
            n = n + w;
        }
        i += 1;
    }
    assert(v@.take(v@.len() as int) == v@);
    n
}

/// The decimal digit for `d < 10`.
pub open spec fn digit_char(d: nat) -> char {
    if d == 0 {
        '0'
    } else if d == 1 {
        '1'
    } else if d == 2 {
        '2'
    } else if d == 3 {
        '3'
    } else if d == 4 {
        '4'
    } else if d == 5 {
        '5'
    } else if d == 6 {
        '6'
    } else if d == 7 {
        '7'
    } else if d == 8 {
        '8'
    } else {
        '9'
    }
}

/// Decimal representation of `n`, as `Display` writes an unsigned integer.
pub open spec fn decimal(n: nat) -> Seq<char>
    decreases n,
{
    if n < 10 {
        seq![digit_char(n)]
    } else {
        decimal(n / 10).push(digit_char(n % 10))
    }
}

fn digit(d: usize) -> (c: char)
    requires
        d < 10,
    ensures
        c == digit_char(d as nat),
{
    if d == 0 {
        '0'
    } else if d == 1 {
        '1'
    } else if d == 2 {
        '2'
    } else if d == 3 {
        '3'
    } else if d == 4 {
        '4'
    } else if d == 5 {
        '5'
    } else if d == 6 {
        '6'
    } else if d == 7 {
        '7'
    } else if d == 8 {
        '8'
    } else {
        '9'
    }
}

/// Appends the decimal representation of `n` to `dst`.
pub fn push_decimal(dst: &mut Vec<char>, n: usize)
    ensures
        final(dst)@ == old(dst)@ + decimal(n as nat),
    decreases n,
{
    if n < 10 {
        dst.push(digit(n));
        assert(old(dst)@.push(digit_char(n as nat)) == old(dst)@ + seq![digit_char(n as nat)]);
    } else {
        push_decimal(dst, n / 10);
        dst.push(digit(n % 10));
        assert(old(dst)@ + decimal((n / 10) as nat).push(digit_char((n % 10) as nat)) == (old(
            dst,
        )@ + decimal((n / 10) as nat)).push(digit_char((n % 10) as nat)));
    }
}

} // verus!

verus! {

/// Whether `v` holds exactly the characters of `lit`.
pub fn eq_str(v: &Vec<char>, lit: &str) -> (r: bool)
    ensures
        r == (v@ == lit@),
{
    let l = chars_of(lit);
    chars_eq(v, &l)
}

/// Whether the UTF-8 encoding of `v` is longer than `max` bytes.
pub fn utf8_len_exceeds(v: &Vec<char>, max: usize) -> (r: bool)
    ensures
        r == (utf8_len(v@) > max),
{
    let mut acc: usize = 0;
    let mut i: usize = 0;
    while i < v.len()
        invariant
            i <= v@.len(),
            acc == utf8_len(v@.take(i as int)),
            acc <= max,
        decreases v.len() - i,
    {
        assert(v@.take(i + 1).drop_last() == v@.take(i as int));
        let w = char_utf8_width(v[i]);
        if w > max - acc {
            proof {
                lemma_utf8_len_concat(v@.take(i + 1), v@.skip(i + 1));
                assert(v@.take(i + 1) + v@.skip(i + 1) == v@);
            }
            return true;
        }
        acc = acc + w;
        i += 1;
    }
    assert(v@.take(v@.len() as int) == v@);
    false
}

/// `parts` joined with `sep` between consecutive elements (`[T]::join`).
pub open spec fn join(parts: Seq<Seq<char>>, sep: Seq<char>) -> Seq<char>
    decreases parts.len(),
{
    if parts.len() == 0 {
        seq![]
    } else if parts.len() == 1 {
        parts[0]
    } else {
        join(parts.drop_last(), sep) + sep + parts.last()
    }
}

/// `p` occurs in `a + p + b` right after `a`.
pub proof fn lemma_occurs_between(a: Seq<char>, p: Seq<char>, b: Seq<char>)
    ensures
        occurs_at(a + p + b, p, a.len() as int),
{
    assert((a + p + b).subrange(a.len() as int, (a.len() + p.len()) as int) =~= p);
}

/// What occurs inside an occurrence occurs in the whole text.
pub proof fn lemma_occurs_trans(s: Seq<char>, t: Seq<char>, u: Seq<char>, i: int, j: int)
    requires
        occurs_at(s, t, i),
        occurs_at(t, u, j),
    ensures
        occurs_at(s, u, i + j),
{
    assert forall|x: int| 0 <= x < u.len() implies s[i + j + x] == u[x] by {
        assert(s.subrange(i, i + t.len())[j + x] == t[j + x]);
        assert(t.subrange(j, j + u.len())[x] == u[x]);
    }
    assert(s.subrange(i + j, i + j + u.len()) =~= u);
}

/// Each part occurs in the parts joined by `sep`.
pub proof fn lemma_join_contains(parts: Seq<Seq<char>>, sep: Seq<char>, k: int) -> (p: int)
    requires
        0 <= k < parts.len(),
    ensures
        occurs_at(join(parts, sep), parts[k], p),
    decreases parts.len(),
{
    if parts.len() == 1 {
        lemma_occurs_between(seq![], parts[0], seq![]);
        assert(Seq::<char>::empty() + parts[0] + Seq::<char>::empty() =~= join(parts, sep));
        0
    } else if k == parts.len() - 1 {
        let a = join(parts.drop_last(), sep) + sep;
        lemma_occurs_between(a, parts.last(), seq![]);
        assert(a + parts.last() + Seq::<char>::empty() =~= join(parts, sep));
        a.len() as int
    } else {
        let q = lemma_join_contains(parts.drop_last(), sep, k);
        let j = join(parts.drop_last(), sep);
        lemma_occurs_between(seq![], j, sep + parts.last());
        assert(Seq::<char>::empty() + j + (sep + parts.last()) =~= join(parts, sep));
        lemma_occurs_trans(join(parts, sep), j, parts[k], 0, q);
        q
    }
}

/// `parts` joined with `sep`.
pub fn join_chars(parts: &Vec<Vec<char>>, sep: &Vec<char>) -> (r: Vec<char>)
    ensures
        r@ == join(parts@.map_values(|x: Vec<char>| x@), sep@),
{
    let ghost views = parts@.map_values(|x: Vec<char>| x@);
    let mut r: Vec<char> = Vec::new();
    let mut i: usize = 0;
    while i < parts.len()
        invariant
            i <= parts@.len(),
            views == parts@.map_values(|x: Vec<char>| x@),
            r@ == join(views.take(i as int), sep@),
        decreases parts.len() - i,
    {
        if i > 0 {
            push_all(&mut r, sep);
        }
        push_all(&mut r, &parts[i]);
        proof {
            let t = views.take(i + 1);
            assert(t.drop_last() == views.take(i as int));
            assert(t.last() == parts@[i as int]@);
            if i == 0 {
                assert(t.len() == 1);
                assert(r@ == t[0]);
            }
        }
        i += 1;
    }
    assert(views.take(parts@.len() as int) == views);
    r
}

/// What `str::to_lowercase` gives for a text: each character replaced by its
/// Unicode lowercase mapping.
pub uninterp spec fn lowercase(s: Seq<char>) -> Seq<char>;

/// `str::to_lowercase` (std): the text with every character mapped to its
/// lowercase form by the Unicode tables. The result depends on the text alone.
#[verifier::external_body]
pub(crate) fn to_lowercase(s: &str) -> (r: String)
    ensures
        r@ == lowercase(s@),
{
    s.to_lowercase()
}

/// What `String::from_utf8_lossy` gives for a byte sequence: its text, with
/// each invalid sequence replaced by U+FFFD.
pub uninterp spec fn utf8_lossy(bytes: Seq<u8>) -> Seq<char>;

/// `String::from_utf8_lossy` (std): the text of the bytes, with invalid
/// sequences replaced; for valid UTF-8 it is the decoded text itself.
#[verifier::external_body]
pub(crate) fn decode_lossy(bytes: &[u8]) -> (r: String)
    ensures
        r@ == utf8_lossy(bytes@),
        vstd::utf8::valid_utf8(bytes@) ==> r@ == vstd::utf8::decode_utf8(bytes@),
{
    String::from_utf8_lossy(bytes).into_owned()
}

/// `String::from_utf8` (std): the text of the bytes when they are valid
/// UTF-8, and nothing otherwise.
#[verifier::external_body]
pub(crate) fn decode_utf8_exact(bytes: Vec<u8>) -> (r: Option<String>)
    ensures
        match r {
            Some(s) => vstd::utf8::valid_utf8(bytes@) && s@ == vstd::utf8::decode_utf8(bytes@),
            None => !vstd::utf8::valid_utf8(bytes@),
        },
{
    String::from_utf8(bytes).ok()
}

} // verus!
