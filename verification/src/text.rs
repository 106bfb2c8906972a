//! Character-level text primitives: whitespace trimming, prefix and substring
//! tests, and splitting a text into lines.
//!
//! Every operation is stated over `Seq<char>`, the view of `str` and `String`,
//! and implemented over `Vec<char>`.

use vstd::prelude::*;

verus! {

/// Appends one character to a string.
///
/// Trusted: `String::push` adds exactly `c` at the end and changes nothing else.
pub assume_specification[ String::push ](s: &mut String, c: char)
    ensures
        final(s)@ == old(s)@.push(c),
;

// ---------------------------------------------------------------------------
// Conversions
// ---------------------------------------------------------------------------

/// An index that was found, as a mathematical integer.
pub open spec fn opt_index(r: Option<usize>) -> Option<int> {
    match r {
        Some(i) => Some(i as int),
        None => None,
    }
}

/// The characters of a string that was found.
pub open spec fn opt_string(r: Option<String>) -> Option<Seq<char>> {
    match r {
        Some(s) => Some(s@),
        None => None,
    }
}

/// The characters of a string slice that was found.
pub open spec fn opt_str(r: Option<&str>) -> Option<Seq<char>> {
    match r {
        Some(s) => Some(s@),
        None => None,
    }
}

/// The characters of a text that came back, as a result or as an error.
pub open spec fn result_view(r: Result<String, String>) -> Result<Seq<char>, Seq<char>> {
    match r {
        Ok(text) => Ok(text@),
        Err(text) => Err(text@),
    }
}

/// The characters of `s`, in order.
pub fn str_to_chars(s: &str) -> (v: Vec<char>)
    ensures
        v@ == s@,
{
    let mut v: Vec<char> = Vec::new();
    for c in it: s.chars()
        invariant
            it.seq() == s@,
            v@ == s@.take(it.index()),
    {
        v.push(c);
    }
    assert(s@.take(s@.len() as int) == s@);
    v
}

/// The string whose characters are those of `v`, in order.
pub fn chars_to_string(v: &Vec<char>) -> (s: String)
    ensures
        s@ == v@,
{
    let mut s = String::new();
    let mut i: usize = 0;
    while i < v.len()
        invariant
            i <= v.len(),
            s@ == v@.take(i as int),
        decreases v.len() - i,
    {
        s.push(v[i]);
        i += 1;
    }
    assert(v@.take(v.len() as int) == v@);
    s
}

/// A copy of the characters of `s` from index `lo` up to, not including, `hi`.
pub fn slice_chars(s: &Vec<char>, lo: usize, hi: usize) -> (r: Vec<char>)
    requires
        lo <= hi <= s.len(),
    ensures
        r@ == s@.subrange(lo as int, hi as int),
{
    let mut r: Vec<char> = Vec::new();
    let mut i: usize = lo;
    while i < hi
        invariant
            lo <= i <= hi <= s.len(),
            r@ == s@.subrange(lo as int, i as int),
        decreases hi - i,
    {
        r.push(s[i]);
        i += 1;
    }
    r
}

/// Appends the characters of `src` to `dst`.
pub fn append_chars(dst: &mut Vec<char>, src: &Vec<char>)
    ensures
        final(dst)@ == old(dst)@ + src@,
{
    let mut i: usize = 0;
    while i < src.len()
        invariant
            i <= src.len(),
            dst@ == old(dst)@ + src@.take(i as int),
        decreases src.len() - i,
    {
        dst.push(src[i]);
        i += 1;
    }
    assert(src@.take(src.len() as int) == src@);
}

/// Whether two string slices hold the same characters.
pub fn str_eq(a: &str, b: &str) -> (r: bool)
    ensures
        r == (a@ == b@),
{
    let x = str_to_chars(a);
    let y = str_to_chars(b);
    chars_eq(&x, &y)
}

/// Whether two character vectors hold the same characters.
pub fn chars_eq(a: &Vec<char>, b: &Vec<char>) -> (r: bool)
    ensures
        r == (a@ == b@),
{
    if a.len() != b.len() {
        return false;
    }
    let mut i: usize = 0;
    while i < a.len()
        invariant
            i <= a.len(),
            a.len() == b.len(),
            a@.take(i as int) == b@.take(i as int),
        decreases a.len() - i,
    {
        if a[i] != b[i] {
            return false;
        }
        assert(a@.take(i + 1) == a@.take(i as int).push(a@[i as int]));
        assert(b@.take(i + 1) == b@.take(i as int).push(b@[i as int]));
        i += 1;
    }
    assert(a@.take(a.len() as int) == a@);
    assert(b@.take(b.len() as int) == b@);
    true
}

// ---------------------------------------------------------------------------
// Whitespace
// ---------------------------------------------------------------------------

/// The characters with the Unicode property `White_Space`.
pub open spec fn is_whitespace(c: char) -> bool {
    let n = c as u32;
    ||| 0x09 <= n <= 0x0d
    ||| n == 0x20
    ||| n == 0x85
    ||| n == 0xa0
    ||| n == 0x1680
    ||| 0x2000 <= n <= 0x200a
    ||| n == 0x2028
    ||| n == 0x2029
    ||| n == 0x202f
    ||| n == 0x205f
    ||| n == 0x3000
}

/// Whether `c` is whitespace.
pub fn is_whitespace_char(c: char) -> (r: bool)
    ensures
        r == is_whitespace(c),
{
    let n: u32 = c as u32;
    (0x09 <= n && n <= 0x0d) || n == 0x20 || n == 0x85 || n == 0xa0 || n == 0x1680 || (0x2000 <= n
        && n <= 0x200a) || n == 0x2028 || n == 0x2029 || n == 0x202f || n == 0x205f || n == 0x3000
}

/// How many whitespace characters `s` begins with.
pub open spec fn leading_ws(s: Seq<char>) -> nat
    decreases s.len(),
{
    if s.len() > 0 && is_whitespace(s[0]) {
        1 + leading_ws(s.drop_first())
    } else {
        0
    }
}

/// How many whitespace characters `s` ends with.
pub open spec fn trailing_ws(s: Seq<char>) -> nat
    decreases s.len(),
{
    if s.len() > 0 && is_whitespace(s.last()) {
        1 + trailing_ws(s.drop_last())
    } else {
        0
    }
}

/// `s` without its leading and trailing whitespace.
pub open spec fn trim(s: Seq<char>) -> Seq<char> {
    let t = s.skip(leading_ws(s) as int);
    t.take(t.len() - trailing_ws(t))
}

/// `leading_ws(s)` is the index of the first character that is no whitespace.
pub proof fn lemma_leading_ws(s: Seq<char>, n: int)
    requires
        0 <= n <= s.len(),
        forall|i: int| 0 <= i < n ==> is_whitespace(#[trigger] s[i]),
        n < s.len() ==> !is_whitespace(s[n]),
    ensures
        leading_ws(s) == n,
    decreases n,
{
    if n > 0 {
        let t = s.drop_first();
        assert forall|i: int| 0 <= i < n - 1 implies is_whitespace(#[trigger] t[i]) by {
            assert(t[i] == s[i + 1]);
        }
        lemma_leading_ws(t, n - 1);
    }
}

/// `trailing_ws(s)` counts back to the last character that is no whitespace.
pub proof fn lemma_trailing_ws(s: Seq<char>, n: int)
    requires
        0 <= n <= s.len(),
        forall|i: int| s.len() - n <= i < s.len() ==> is_whitespace(#[trigger] s[i]),
        n < s.len() ==> !is_whitespace(s[s.len() - n - 1]),
    ensures
        trailing_ws(s) == n,
    decreases n,
{
    if n > 0 {
        let t = s.drop_last();
        assert forall|i: int| t.len() - (n - 1) <= i < t.len() implies is_whitespace(
            #[trigger] t[i],
        ) by {
            assert(t[i] == s[i]);
        }
        lemma_trailing_ws(t, n - 1);
    }
}

/// The bounds of `trim(s)` within `s`.
pub proof fn lemma_trim_is(s: Seq<char>, lo: int, hi: int)
    requires
        0 <= lo <= hi <= s.len(),
        forall|i: int| 0 <= i < lo ==> is_whitespace(#[trigger] s[i]),
        forall|i: int| hi <= i < s.len() ==> is_whitespace(#[trigger] s[i]),
        lo < hi ==> !is_whitespace(s[lo]) && !is_whitespace(s[hi - 1]),
        lo == hi ==> lo == s.len(),
    ensures
        trim(s) == s.subrange(lo, hi),
{
    lemma_leading_ws(s, lo);
    let t = s.skip(lo);
    assert forall|i: int| t.len() - (s.len() - hi) <= i < t.len() implies is_whitespace(
        #[trigger] t[i],
    ) by {
        assert(t[i] == s[i + lo]);
    }
    lemma_trailing_ws(t, s.len() - hi);
    assert(t.take(t.len() - (s.len() - hi)) =~= s.subrange(lo, hi));
}

/// Trimming keeps every character that is no whitespace: a text with such a
/// character at index `i` keeps it, and all between the first and the last
/// of them.
pub proof fn lemma_trim_keeps_text(s: Seq<char>, i: int)
    requires
        0 <= i < s.len(),
        !is_whitespace(s[i]),
    ensures
        trim(s).len() > 0,
        leading_ws(s) <= i,
        i < s.len() - trailing_ws(s.skip(leading_ws(s) as int)),
{
    lemma_leading_ws_is(s);
    let a = leading_ws(s) as int;
    if a > i {
        assert(is_whitespace(s[i]));
    }
    let t = s.skip(a);
    lemma_trailing_ws_is(t);
    let b = trailing_ws(t) as int;
    if i - a >= t.len() - b {
        assert(is_whitespace(t[i - a]));
        assert(t[i - a] == s[i]);
    }
}

/// A trimmed text neither begins nor ends with whitespace.
pub proof fn lemma_trim_ends(s: Seq<char>)
    ensures
        leading_ws(trim(s)) == 0,
        trailing_ws(trim(s)) == 0,
        trim(s).len() > 0 ==> !is_whitespace(trim(s)[0]) && !is_whitespace(trim(s).last()),
{
    let a = leading_ws(s) as int;
    lemma_leading_ws_is(s);
    let t = s.skip(a);
    lemma_trailing_ws_is(t);
    let r = trim(s);
    if r.len() > 0 {
        assert(r.last() == t[t.len() - trailing_ws(t) - 1]);
        assert(r[0] == t[0]);
        assert(t[0] == s[a]);
    }
}

/// `leading_ws(s)` is within `s`; every character before it is whitespace,
/// and the one at it, if there is one, is not.
pub proof fn lemma_leading_ws_is(s: Seq<char>)
    ensures
        leading_ws(s) <= s.len(),
        forall|i: int| 0 <= i < leading_ws(s) ==> is_whitespace(#[trigger] s[i]),
        leading_ws(s) < s.len() ==> !is_whitespace(s[leading_ws(s) as int]),
    decreases s.len(),
{
    if s.len() > 0 && is_whitespace(s[0]) {
        let t = s.drop_first();
        lemma_leading_ws_is(t);
        assert forall|i: int| 0 <= i < leading_ws(s) implies is_whitespace(#[trigger] s[i]) by {
            if i > 0 {
                assert(s[i] == t[i - 1]);
            }
        }
    }
}

/// `trailing_ws(s)` is within `s`; every character of that tail is
/// whitespace, and the one before it, if there is one, is not.
pub proof fn lemma_trailing_ws_is(s: Seq<char>)
    ensures
        trailing_ws(s) <= s.len(),
        forall|i: int| s.len() - trailing_ws(s) <= i < s.len() ==> is_whitespace(#[trigger] s[i]),
        trailing_ws(s) < s.len() ==> !is_whitespace(s[s.len() - trailing_ws(s) - 1]),
    decreases s.len(),
{
    if s.len() > 0 && is_whitespace(s.last()) {
        let t = s.drop_last();
        lemma_trailing_ws_is(t);
        assert forall|i: int| s.len() - trailing_ws(s) <= i < s.len() implies is_whitespace(
            #[trigger] s[i],
        ) by {
            if i < s.len() - 1 {
                assert(s[i] == t[i]);
            }
        }
    }
}

/// The bounds `(lo, hi)` of the trimmed part of `s`.
pub fn trim_bounds(s: &Vec<char>) -> (r: (usize, usize))
    ensures
        r.0 <= r.1 <= s.len(),
        s@.subrange(r.0 as int, r.1 as int) == trim(s@),
{
    let mut lo: usize = 0;
    while lo < s.len() && is_whitespace_char(s[lo])
        invariant
            lo <= s.len(),
            forall|i: int| 0 <= i < lo ==> is_whitespace(#[trigger] s@[i]),
        decreases s.len() - lo,
    {
        lo += 1;
    }
    let mut hi: usize = s.len();
    while hi > lo && is_whitespace_char(s[hi - 1])
        invariant
            lo <= hi <= s.len(),
            forall|i: int| hi <= i < s.len() ==> is_whitespace(#[trigger] s@[i]),
        decreases hi,
    {
        hi -= 1;
    }
    proof {
        lemma_trim_is(s@, lo as int, hi as int);
    }
    (lo, hi)
}

/// `s` without its leading and trailing whitespace.
pub fn trim_chars(s: &Vec<char>) -> (r: Vec<char>)
    ensures
        r@ == trim(s@),
{
    let (lo, hi) = trim_bounds(s);
    slice_chars(s, lo, hi)
}

// ---------------------------------------------------------------------------
// Prefixes and substrings
// ---------------------------------------------------------------------------

/// Whether `s` begins with `p`.
pub open spec fn starts_with(s: Seq<char>, p: Seq<char>) -> bool {
    p.len() <= s.len() && s.take(p.len() as int) == p
}

/// Whether `p` occurs in `s` at index `i`.
pub open spec fn matches_at(s: Seq<char>, p: Seq<char>, i: int) -> bool {
    0 <= i && i + p.len() <= s.len() && s.subrange(i, i + p.len()) == p
}

/// Whether `p` occurs somewhere in `s`.
pub open spec fn contains(s: Seq<char>, p: Seq<char>) -> bool {
    exists|i: int| matches_at(s, p, i)
}

/// The least index at or after `from` at which `p` occurs in `s`.
pub open spec fn find_from(s: Seq<char>, p: Seq<char>, from: int) -> Option<int>
    decreases s.len() - from,
{
    if 0 <= from && from + p.len() <= s.len() {
        if matches_at(s, p, from) {
            Some(from)
        } else if from < s.len() {
            find_from(s, p, from + 1)
        } else {
            None
        }
    } else {
        None
    }
}

/// The least index at which `p` occurs in `s`.
pub open spec fn find(s: Seq<char>, p: Seq<char>) -> Option<int> {
    find_from(s, p, 0)
}

/// `find_from` returns the first occurrence at or after `from`, and `None`
/// exactly when there is none.
pub proof fn lemma_find_from(s: Seq<char>, p: Seq<char>, from: int)
    requires
        0 <= from,
    ensures
        match find_from(s, p, from) {
            Some(i) => from <= i && matches_at(s, p, i) && forall|j: int|
                from <= j < i ==> !matches_at(s, p, j),
            None => forall|j: int| from <= j ==> !matches_at(s, p, j),
        },
    decreases s.len() - from,
{
    if from + p.len() <= s.len() {
        if !matches_at(s, p, from) && from < s.len() {
            lemma_find_from(s, p, from + 1);
        }
    }
}

/// `find` succeeds exactly on the texts that contain the pattern.
pub proof fn lemma_find_contains(s: Seq<char>, p: Seq<char>)
    ensures
        find(s, p) is Some <==> contains(s, p),
        find(s, p) matches Some(i) ==> matches_at(s, p, i),
{
    lemma_find_from(s, p, 0);
}

/// Whether `p` occurs in `s` at index `i`.
pub fn matches_at_chars(s: &Vec<char>, p: &Vec<char>, i: usize) -> (r: bool)
    ensures
        r == matches_at(s@, p@, i as int),
{
    if p.len() > s.len() || i > s.len() - p.len() {
        return false;
    }
    let mut k: usize = 0;
    while k < p.len()
        invariant
            k <= p.len(),
            i + p.len() <= s.len(),
            s@.subrange(i as int, i + k) == p@.take(k as int),
        decreases p.len() - k,
    {
        if s[i + k] != p[k] {
            assert(s@.subrange(i as int, i + p.len())[k as int] != p@[k as int]);
            return false;
        }
        assert(s@.subrange(i as int, i + k + 1) == s@.subrange(i as int, i + k).push(
            s@[i + k],
        ));
        assert(p@.take(k + 1) == p@.take(k as int).push(p@[k as int]));
        k += 1;
    }
    assert(p@.take(p.len() as int) == p@);
    true
}

/// Whether `s` begins with `p`.
pub fn starts_with_chars(s: &Vec<char>, p: &Vec<char>) -> (r: bool)
    ensures
        r == starts_with(s@, p@),
{
    let r = matches_at_chars(s, p, 0);
    proof {
        if p.len() <= s.len() {
            assert(s@.take(p.len() as int) == s@.subrange(0, 0 + p.len()));
        }
    }
    r
}

/// The least index at which `p` occurs in `s`.
pub fn find_chars(s: &Vec<char>, p: &Vec<char>) -> (r: Option<usize>)
    ensures
        opt_index(r) == find(s@, p@),
        r matches Some(i) ==> matches_at(s@, p@, i as int),
{
    if p.len() > s.len() {
        return None;
    }
    let last: usize = s.len() - p.len();
    let mut i: usize = 0;
    loop
        invariant
            i <= last,
            last == s.len() - p.len(),
            find(s@, p@) == find_from(s@, p@, i as int),
        decreases last - i,
    {
        if matches_at_chars(s, p, i) {
            return Some(i);
        }
        if i == last {
            assert(find_from(s@, p@, i + 1) is None);
            return None;
        }
        i += 1;
    }
}

/// Whether `p` occurs somewhere in `s`.
pub fn contains_chars(s: &Vec<char>, p: &Vec<char>) -> (r: bool)
    ensures
        r == contains(s@, p@),
{
    proof {
        lemma_find_contains(s@, p@);
    }
    find_chars(s, p).is_some()
}

/// The index of the first character of `s` that occurs in `d`, or the length
/// of `s` when there is none.
pub open spec fn first_of(s: Seq<char>, d: Seq<char>) -> nat
    decreases s.len(),
{
    if s.len() == 0 || d.contains(s[0]) {
        0
    } else {
        1 + first_of(s.drop_first(), d)
    }
}

/// `first_of` is within the text, stops at a character of `d`, and passes none.
pub proof fn lemma_first_of(s: Seq<char>, d: Seq<char>)
    ensures
        first_of(s, d) <= s.len(),
        first_of(s, d) < s.len() ==> d.contains(s[first_of(s, d) as int]),
        forall|i: int| 0 <= i < first_of(s, d) ==> !d.contains(#[trigger] s[i]),
    decreases s.len(),
{
    if s.len() == 0 || d.contains(s[0]) {
    } else {
        let t = s.drop_first();
        lemma_first_of(t, d);
        assert forall|i: int| 0 <= i < first_of(s, d) implies !d.contains(#[trigger] s[i]) by {
            if i > 0 {
                assert(s[i] == t[i - 1]);
            }
        }
    }
}

/// `n` is `first_of(s, d)` when no character before `n` is in `d` and the one
/// at `n`, if there is one, is.
pub proof fn lemma_first_of_is(s: Seq<char>, d: Seq<char>, n: int)
    requires
        0 <= n <= s.len(),
        forall|i: int| 0 <= i < n ==> !d.contains(#[trigger] s[i]),
        n < s.len() ==> d.contains(s[n]),
    ensures
        first_of(s, d) == n,
    decreases n,
{
    if n > 0 {
        let t = s.drop_first();
        assert forall|i: int| 0 <= i < n - 1 implies !d.contains(#[trigger] t[i]) by {
            assert(t[i] == s[i + 1]);
        }
        lemma_first_of_is(t, d, n - 1);
    }
}

/// Whether `c` is one of the characters of `d`.
pub fn char_in(d: &Vec<char>, c: char) -> (r: bool)
    ensures
        r == d@.contains(c),
{
    let mut i: usize = 0;
    while i < d.len()
        invariant
            i <= d.len(),
            forall|j: int| 0 <= j < i ==> d@[j] != c,
        decreases d.len() - i,
    {
        if d[i] == c {
            return true;
        }
        i += 1;
    }
    false
}

/// The index, at or after `from`, of the first character of `s` that occurs
/// in `d`, or the length of `s`.
pub fn first_of_chars(s: &Vec<char>, from: usize, d: &Vec<char>) -> (r: usize)
    requires
        from <= s.len(),
    ensures
        from <= r <= s.len(),
        r == from + first_of(s@.skip(from as int), d@),
{
    let mut i: usize = from;
    while i < s.len() && !char_in(d, s[i])
        invariant
            from <= i <= s.len(),
            forall|j: int| from <= j < i ==> !d@.contains(#[trigger] s@[j]),
        decreases s.len() - i,
    {
        i += 1;
    }
    proof {
        let t = s@.skip(from as int);
        assert forall|j: int| 0 <= j < i - from implies !d@.contains(#[trigger] t[j]) by {
            assert(t[j] == s@[j + from]);
        }
        lemma_first_of_is(t, d@, i - from);
    }
    i
}

/// Whether `s` ends with `p`.
pub open spec fn ends_with(s: Seq<char>, p: Seq<char>) -> bool {
    p.len() <= s.len() && s.skip(s.len() - p.len()) == p
}

/// Whether `s` ends with `p`.
pub fn ends_with_chars(s: &Vec<char>, p: &Vec<char>) -> (r: bool)
    ensures
        r == ends_with(s@, p@),
{
    if p.len() > s.len() {
        return false;
    }
    let at: usize = s.len() - p.len();
    let r = matches_at_chars(s, p, at);
    proof {
        assert(s@.skip(s.len() - p.len()) == s@.subrange(at as int, at + p.len()));
    }
    r
}

// ---------------------------------------------------------------------------
// Lines
// ---------------------------------------------------------------------------

/// The line feed, as the one-character set of line separators.
pub open spec fn newline() -> Seq<char> {
    seq!['\n']
}

/// `l` without one trailing carriage return.
pub open spec fn strip_cr(l: Seq<char>) -> Seq<char> {
    if l.len() > 0 && l.last() == '\r' {
        l.drop_last()
    } else {
        l
    }
}

/// The lines of `s`. A line ends at a line feed, or at the end of the text;
/// a carriage return directly before the line feed belongs to the line
/// ending. The empty text has no lines, and a text that ends in a line feed
/// has no empty line after it.
pub open spec fn lines(s: Seq<char>) -> Seq<Seq<char>>
    decreases s.len(),
{
    if s.len() == 0 {
        Seq::empty()
    } else {
        let e = first_of(s, newline());
        if e >= s.len() {
            seq![s]
        } else {
            seq![strip_cr(s.take(e as int))] + lines(s.skip(e as int + 1))
        }
    }
}

/// The lines joined by single line feeds, with none after the last line.
pub open spec fn join_lines(ls: Seq<Seq<char>>) -> Seq<char>
    decreases ls.len(),
{
    if ls.len() == 0 {
        Seq::empty()
    } else if ls.len() == 1 {
        ls[0]
    } else {
        ls[0] + newline() + join_lines(ls.drop_first())
    }
}

/// Joining one more line adds a line feed and the line.
pub proof fn lemma_join_push(ls: Seq<Seq<char>>, l: Seq<char>)
    requires
        ls.len() > 0,
    ensures
        join_lines(ls.push(l)) == join_lines(ls) + newline() + l,
    decreases ls.len(),
{
    let all = ls.push(l);
    assert(all.drop_first() =~= ls.drop_first().push(l));
    if ls.len() == 1 {
        assert(all.drop_first() =~= seq![l]);
        assert(join_lines(all.drop_first()) == l);
    } else {
        lemma_join_push(ls.drop_first(), l);
        assert(join_lines(all) =~= join_lines(ls) + newline() + l);
    }
}

/// The text between the first and the last line of a fenced code block: of
/// a text that, once trimmed, begins and ends with three backticks and has
/// two lines or more. Any other text is itself.
pub open spec fn strip_code_fence(s: Seq<char>) -> Seq<char> {
    let t = trim(s);
    let ls = lines(t);
    if starts_with(t, "```"@) && ends_with(t, "```"@) && ls.len() >= 2 {
        join_lines(ls.subrange(1, ls.len() - 1))
    } else {
        s
    }
}

/// Whether `l` holds no line feed.
pub open spec fn is_one_line(l: Seq<char>) -> bool {
    forall|i: int| 0 <= i < l.len() ==> l[i] != '\n'
}

/// No line of a text holds a line feed.
pub proof fn lemma_lines_are_lines(s: Seq<char>)
    ensures
        forall|k: int| 0 <= k < lines(s).len() ==> is_one_line(#[trigger] lines(s)[k]),
    decreases s.len(),
{
    if s.len() > 0 {
        let e = first_of(s, newline());
        lemma_first_of(s, newline());
        assert(newline()[0] == '\n');
        assert forall|i: int| 0 <= i < e implies s[i] != '\n' by {
            if s[i] == '\n' {
                assert(newline().contains(s[i]));
            }
        }
        if e >= s.len() {
            assert(is_one_line(s));
        } else {
            let first = strip_cr(s.take(e as int));
            assert(is_one_line(first)) by {
                assert forall|i: int| 0 <= i < first.len() implies first[i] != '\n' by {
                    assert(first[i] == s[i]);
                }
            }
            let rest = s.skip(e as int + 1);
            lemma_lines_are_lines(rest);
            assert forall|k: int| 0 <= k < lines(s).len() implies is_one_line(
                #[trigger] lines(s)[k],
            ) by {
                if k > 0 {
                    assert(lines(s)[k] == lines(rest)[k - 1]);
                }
            }
        }
    }
}

/// The lines of the text that is made of the lines `ls`, each followed by a
/// line feed: as many as `ls` has, each equal to the line of `ls` without a
/// carriage return at its end.
pub proof fn lemma_lines_of_joined(ls: Seq<Seq<char>>)
    requires
        ls.len() > 0,
        forall|k: int| 0 <= k < ls.len() ==> is_one_line(#[trigger] ls[k]),
    ensures
        lines(join_lines(ls) + newline()).len() == ls.len(),
        forall|k: int|
            0 <= k < ls.len() ==> #[trigger] lines(join_lines(ls) + newline())[k] == strip_cr(
                ls[k],
            ),
    decreases ls.len(),
{
    let text = join_lines(ls) + newline();
    let head = ls[0];
    assert(is_one_line(head));
    assert(newline()[0] == '\n');
    if ls.len() == 1 {
        assert(text =~= head + newline());
        assert(text[head.len() as int] == '\n');
        assert(newline().contains(text[head.len() as int]));
        assert forall|i: int| 0 <= i < head.len() implies !newline().contains(
            #[trigger] text[i],
        ) by {
            assert(text[i] == head[i]);
        }
        lemma_first_of_is(text, newline(), head.len() as int);
        assert(text.take(head.len() as int) =~= head);
        assert(text.skip(head.len() as int + 1) =~= Seq::<char>::empty());
        assert(lines(text.skip(head.len() as int + 1)) =~= Seq::<Seq<char>>::empty());
        assert(lines(text) =~= seq![strip_cr(head)]);
    } else {
        let rest = ls.drop_first();
        let tail = join_lines(rest) + newline();
        assert(text =~= head + newline() + tail);
        assert(text[head.len() as int] == '\n');
        assert(newline().contains(text[head.len() as int]));
        assert forall|i: int| 0 <= i < head.len() implies !newline().contains(
            #[trigger] text[i],
        ) by {
            assert(text[i] == head[i]);
        }
        lemma_first_of_is(text, newline(), head.len() as int);
        assert(text.take(head.len() as int) =~= head);
        assert(text.skip(head.len() as int + 1) =~= tail);
        assert forall|k: int| 0 <= k < rest.len() implies is_one_line(#[trigger] rest[k]) by {
            assert(rest[k] == ls[k + 1]);
        }
        lemma_lines_of_joined(rest);
        assert(lines(text) =~= seq![strip_cr(head)] + lines(tail));
        assert forall|k: int| 0 <= k < ls.len() implies #[trigger] lines(text)[k] == strip_cr(
            ls[k],
        ) by {
            if k > 0 {
                assert(lines(text)[k] == lines(tail)[k - 1]);
                assert(rest[k - 1] == ls[k]);
            }
        }
    }
}

/// The bounds of the trimmed part of a text.
pub proof fn lemma_trim_bounds(s: Seq<char>) -> (r: (int, int))
    ensures
        0 <= r.0 <= r.1 <= s.len(),
        trim(s) == s.subrange(r.0, r.1),
        forall|i: int| 0 <= i < r.0 ==> is_whitespace(#[trigger] s[i]),
        forall|i: int| r.1 <= i < s.len() ==> is_whitespace(#[trigger] s[i]),
        r.0 < r.1 ==> !is_whitespace(s[r.0]) && !is_whitespace(s[r.1 - 1]),
        r.0 == r.1 ==> r.0 == s.len(),
{
    lemma_leading_ws_is(s);
    let lo = leading_ws(s) as int;
    let t = s.skip(lo);
    lemma_trailing_ws_is(t);
    let hi = s.len() - trailing_ws(t);
    assert(t.take(t.len() - trailing_ws(t)) =~= s.subrange(lo, hi));
    assert forall|i: int| hi <= i < s.len() implies is_whitespace(#[trigger] s[i]) by {
        assert(s[i] == t[i - lo]);
    }
    if lo < s.len() {
        assert(t[0] == s[lo]);
        if trailing_ws(t) >= t.len() {
            assert(is_whitespace(t[0]));
        }
        assert(s[hi - 1] == t[t.len() - trailing_ws(t) - 1]);
    }
    (lo, hi)
}

/// Whitespace at the end of a text does not change what is left of the text
/// when it is trimmed.
pub proof fn lemma_trim_ignores_last(s: Seq<char>)
    requires
        s.len() > 0,
        is_whitespace(s.last()),
    ensures
        trim(s) == trim(s.drop_last()),
{
    let y = s.drop_last();
    let (lo, hi) = lemma_trim_bounds(y);
    if lo < hi {
        assert forall|i: int| 0 <= i < lo implies is_whitespace(#[trigger] s[i]) by {
            assert(s[i] == y[i]);
        }
        assert forall|i: int| hi <= i < s.len() implies is_whitespace(#[trigger] s[i]) by {
            if i < y.len() {
                assert(s[i] == y[i]);
            }
        }
        assert(s[lo] == y[lo]);
        assert(s[hi - 1] == y[hi - 1]);
        lemma_trim_is(s, lo, hi);
        assert(s.subrange(lo, hi) =~= y.subrange(lo, hi));
    } else {
        assert forall|i: int| 0 <= i < s.len() implies is_whitespace(#[trigger] s[i]) by {
            if i < y.len() {
                assert(s[i] == y[i]);
            }
        }
        lemma_trim_is(s, s.len() as int, s.len() as int);
        assert(s.subrange(s.len() as int, s.len() as int) =~= y.subrange(lo, hi));
    }
}

/// A carriage return at the end of a line does not change what is left of
/// the line when it is trimmed.
pub proof fn lemma_trim_strip_cr(l: Seq<char>)
    ensures
        trim(strip_cr(l)) == trim(l),
{
    if l.len() > 0 && l.last() == '\r' {
        lemma_trim_ignores_last(l);
    }
}

/// The views of the lines held in `v`.
pub open spec fn lines_view(v: Seq<Vec<char>>) -> Seq<Seq<char>> {
    Seq::new(v.len(), |i: int| v[i]@)
}

/// The views of the string slices held in `v`.
pub open spec fn strs_view(v: Seq<&str>) -> Seq<Seq<char>> {
    Seq::new(v.len(), |i: int| v[i]@)
}

/// The lines of `text`.
pub fn split_lines(text: &Vec<char>) -> (r: Vec<Vec<char>>)
    ensures
        lines_view(r@) == lines(text@),
{
    let mut nl: Vec<char> = Vec::new();
    nl.push('\n');
    assert(nl@ == newline());
    let mut out: Vec<Vec<char>> = Vec::new();
    let mut i: usize = 0;
    assert(text@.skip(0) == text@);
    while i < text.len()
        invariant
            i <= text.len(),
            nl@ == newline(),
            lines(text@) == lines_view(out@) + lines(text@.skip(i as int)),
        decreases text.len() - i,
    {
        let ghost rest = text@.skip(i as int);
        let ghost before = lines_view(out@);
        let e = first_of_chars(text, i, &nl);
        if e >= text.len() {
            let line = slice_chars(text, i, text.len());
            out.push(line);
            proof {
                assert(line@ == rest);
                assert(lines(rest) == seq![rest]);
                assert(lines_view(out@) =~= before + seq![rest]);
                assert(lines(text@.skip(text.len() as int)) =~= Seq::<Seq<char>>::empty());
            }
            i = text.len();
        } else {
            let mut hi: usize = e;
            if hi > i && text[hi - 1] == '\r' {
                hi -= 1;
            }
            let line = slice_chars(text, i, hi);
            out.push(line);
            proof {
                assert(rest.take(e - i) == text@.subrange(i as int, e as int));
                assert(line@ == strip_cr(rest.take(e - i)));
                assert(rest.skip(e - i + 1) == text@.skip(e + 1));
                assert(lines_view(out@) =~= before + seq![line@]);
            }
            i = e + 1;
        }
    }
    proof {
        assert(lines(text@.skip(i as int)) =~= Seq::<Seq<char>>::empty());
    }
    out
}

/// The lines joined by single line feeds.
pub fn join_chars(ls: &Vec<Vec<char>>) -> (r: Vec<char>)
    ensures
        r@ == join_lines(lines_view(ls@)),
{
    let mut out: Vec<char> = Vec::new();
    let mut i: usize = 0;
    while i < ls.len()
        invariant
            i <= ls.len(),
            out@ == join_lines(lines_view(ls@).take(i as int)),
        decreases ls.len() - i,
    {
        let ghost all = lines_view(ls@);
        proof {
            assert(all.take(i + 1) =~= all.take(i as int).push(ls@[i as int]@));
            if i > 0 {
                lemma_join_push(all.take(i as int), ls@[i as int]@);
            } else {
                assert(all.take(1).len() == 1);
            }
        }
        if i > 0 {
            out.push('\n');
        }
        append_chars(&mut out, &ls[i]);
        proof {
            if i > 0 {
                assert(out@ =~= join_lines(all.take(i as int)) + newline() + ls@[i as int]@);
            }
        }
        i += 1;
    }
    assert(lines_view(ls@).take(ls.len() as int) == lines_view(ls@));
    out
}

/// The character vectors of the string slices in `v`.
pub fn strs_to_chars(v: &[&str]) -> (r: Vec<Vec<char>>)
    ensures
        lines_view(r@) == strs_view(v@),
{
    let mut out: Vec<Vec<char>> = Vec::new();
    let mut i: usize = 0;
    while i < v.len()
        invariant
            i <= v.len(),
            lines_view(out@) == strs_view(v@).take(i as int),
        decreases v.len() - i,
    {
        let ghost before = lines_view(out@);
        let line = str_to_chars(v[i]);
        out.push(line);
        proof {
            assert(lines_view(out@) =~= before.push(line@));
            assert(strs_view(v@).take(i + 1) =~= strs_view(v@).take(i as int).push(v@[i as int]@));
        }
        i += 1;
    }
    assert(strs_view(v@).take(v.len() as int) == strs_view(v@));
    out
}

// ---------------------------------------------------------------------------
// Numbers
// ---------------------------------------------------------------------------

/// The ten digits.
pub open spec fn digits() -> Seq<char> {
    seq!['0', '1', '2', '3', '4', '5', '6', '7', '8', '9']
}

/// The number `n` in decimal notation.
pub open spec fn decimal(n: nat) -> Seq<char>
    decreases n,
{
    if n < 10 {
        seq![digits()[n as int]]
    } else {
        decimal(n / 10).push(digits()[(n % 10) as int])
    }
}

fn digit_char(d: u64) -> (c: char)
    requires
        d < 10,
    ensures
        c == digits()[d as int],
{
    if d == 0 {
        '0'
    } else if d == 1 {
        '1'
    } else if d == 2 {
        '2'
    } else if d == 3 {
        '3'
    } else if d == 4 {
        '4'
    } else if d == 5 {
        '5'
    } else if d == 6 {
        '6'
    } else if d == 7 {
        '7'
    } else if d == 8 {
        '8'
    } else {
        '9'
    }
}

/// Appends the number `n`, in decimal notation, to `out`.
pub fn push_decimal(out: &mut String, n: u64)
    ensures
        final(out)@ == old(out)@ + decimal(n as nat),
    decreases n,
{
    if n >= 10 {
        push_decimal(out, n / 10);
    }
    out.push(digit_char(n % 10));
    proof {
        if n >= 10 {
            assert(out@ =~= old(out)@ + decimal(n as nat));
        } else {
            assert(out@ =~= old(out)@ + decimal(n as nat));
        }
    }
}

/// The number `n` in decimal notation, with a minus sign where it is
/// negative.
pub open spec fn signed_decimal(n: int) -> Seq<char> {
    if n < 0 {
        seq!['-'] + decimal((-n) as nat)
    } else {
        decimal(n as nat)
    }
}

/// Appends the number `n`, in decimal notation, to `out`.
pub fn push_signed_decimal(out: &mut String, n: i32)
    ensures
        final(out)@ == old(out)@ + signed_decimal(n as int),
{
    if n < 0 {
        out.push('-');
        let magnitude: i64 = -(n as i64);
        push_decimal(out, magnitude as u64);
        assert(out@ =~= old(out)@ + signed_decimal(n as int));
    } else {
        push_decimal(out, n as u64);
    }
}

/// `s` without its leading and trailing whitespace.
pub fn trim_str(s: &str) -> (r: String)
    ensures
        r@ == trim(s@),
{
    let chars = str_to_chars(s);
    let trimmed = trim_chars(&chars);
    chars_to_string(&trimmed)
}

/// Appends the string slice `s` to `out`.
pub fn push_text(out: &mut String, s: &str)
    ensures
        final(out)@ == old(out)@ + s@,
{
    out.append(s);
}

} // verus!
