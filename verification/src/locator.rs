//! The function locator, stated over lines of characters.
//!
//! The locator is a shallow, line-based heuristic: it recognises the line on
//! which a function begins by its leading keywords, finds the line on which
//! it ends by counting braces, and names a function by the word that follows
//! the keyword or precedes the parameter list. Strings, character literals
//! and comments are not told apart from code.

use vstd::prelude::*;
use crate::text::{
    contains, find, first_of, is_whitespace, lemma_find_contains, lemma_trim_ends,
    lemma_trim_keeps_text, lines, matches_at, starts_with, strip_cr, trailing_ws, trim,
};

verus! {

// ---------------------------------------------------------------------------
// Where a function begins
// ---------------------------------------------------------------------------

/// Whether a trimmed line begins a function in the Rust style: it starts
/// with `fn`, with or without `pub`, `async` or `pub(crate)` before it, or
/// holds ` fn ` further on.
pub open spec fn is_rust_start(line: Seq<char>) -> bool {
    ||| starts_with(line, "fn "@)
    ||| starts_with(line, "pub fn "@)
    ||| starts_with(line, "async fn "@)
    ||| starts_with(line, "pub async fn "@)
    ||| starts_with(line, "pub(crate) fn "@)
    ||| contains(line, " fn "@)
}

/// Whether a trimmed line begins a function in the Python style.
pub open spec fn is_python_start(line: Seq<char>) -> bool {
    starts_with(line, "def "@) || starts_with(line, "async def "@)
}

/// Whether a trimmed line starts with a return type or a modifier of the C
/// family of languages.
pub open spec fn has_c_family_keyword(line: Seq<char>) -> bool {
    ||| starts_with(line, "void "@)
    ||| starts_with(line, "int "@)
    ||| starts_with(line, "bool "@)
    ||| starts_with(line, "char "@)
    ||| starts_with(line, "float "@)
    ||| starts_with(line, "double "@)
    ||| starts_with(line, "public "@)
    ||| starts_with(line, "private "@)
    ||| starts_with(line, "protected "@)
    ||| starts_with(line, "static "@)
}

/// Whether a trimmed line begins a function in the style of the C family:
/// a return type or modifier first, and a parenthesis somewhere.
pub open spec fn is_c_family_start(line: Seq<char>) -> bool {
    has_c_family_keyword(line) && contains(line, "("@)
}

/// Whether a trimmed line looks like the first line of a function.
pub open spec fn is_function_start(line: Seq<char>) -> bool {
    is_rust_start(line) || is_python_start(line) || is_c_family_start(line)
}

/// Whether line `i` of `lines`, once trimmed, begins a function.
pub open spec fn starts_function(lines: Seq<Seq<char>>, i: int) -> bool {
    0 <= i < lines.len() && is_function_start(trim(lines[i]))
}

/// The last line at or before `from` that begins a function. There is none
/// when `from` is past the last line.
pub open spec fn function_start(lines: Seq<Seq<char>>, from: int) -> Option<int>
    decreases from + 1,
{
    if from < 0 || from >= lines.len() {
        None
    } else if starts_function(lines, from) {
        Some(from)
    } else {
        function_start(lines, from - 1)
    }
}

/// What `function_start` returns: the nearest start at or before `from`.
pub proof fn lemma_function_start(lines: Seq<Seq<char>>, from: int)
    ensures
        match function_start(lines, from) {
            Some(s) => 0 <= s <= from < lines.len() && starts_function(lines, s) && forall|j: int|
                s < j <= from ==> !starts_function(lines, j),
            None => from < 0 || from >= lines.len() || forall|j: int|
                0 <= j <= from ==> !starts_function(lines, j),
        },
    decreases from + 1,
{
    if from < 0 || from >= lines.len() {
    } else if starts_function(lines, from) {
    } else {
        lemma_function_start(lines, from - 1);
    }
}

/// The trimmed first line of the function at or around line `line` of
/// `text`.
pub open spec fn signature_at(text: Seq<char>, line: int) -> Option<Seq<char>> {
    match function_start(lines(text), line) {
        Some(start) => Some(trim(lines(text)[start])),
        None => None,
    }
}

// ---------------------------------------------------------------------------
// The name of a function
// ---------------------------------------------------------------------------

/// The characters that end a name after `fn`.
pub open spec fn rust_name_end() -> Seq<char> {
    seq!['(', '<', ' ']
}

/// The characters that end a name after `def`.
pub open spec fn python_name_end() -> Seq<char> {
    seq!['(', ' ', ':']
}

/// The part of `s` before the first character that occurs in `d`.
pub open spec fn up_to(s: Seq<char>, d: Seq<char>) -> Seq<char> {
    s.take(first_of(s, d) as int)
}

/// How many characters that are no whitespace `s` ends with.
pub open spec fn trailing_word_len(s: Seq<char>) -> nat
    decreases s.len(),
{
    if s.len() > 0 && !is_whitespace(s.last()) {
        1 + trailing_word_len(s.drop_last())
    } else {
        0
    }
}

/// `n` is `trailing_word_len(s)` when the last `n` characters are no
/// whitespace and the one before them, if there is one, is.
pub proof fn lemma_trailing_word_len(s: Seq<char>, n: int)
    requires
        0 <= n <= s.len(),
        forall|i: int| s.len() - n <= i < s.len() ==> !is_whitespace(#[trigger] s[i]),
        n < s.len() ==> is_whitespace(s[s.len() - n - 1]),
    ensures
        trailing_word_len(s) == n,
    decreases n,
{
    if n > 0 {
        let t = s.drop_last();
        assert forall|i: int| t.len() - (n - 1) <= i < t.len() implies !is_whitespace(
            #[trigger] t[i],
        ) by {
            assert(t[i] == s[i]);
        }
        lemma_trailing_word_len(t, n - 1);
    }
}

/// The last run of characters of `s` that are no whitespace, if `s` holds
/// any such character.
pub open spec fn last_word(s: Seq<char>) -> Option<Seq<char>> {
    let t = s.take(s.len() - trailing_ws(s));
    if t.len() == 0 {
        None
    } else {
        Some(t.skip(t.len() - trailing_word_len(t)))
    }
}

/// The name of the function that a signature line declares: what follows
/// the first ` fn `, or a leading `fn `, up to `(`, `<` or a space; else
/// what follows the first `def ` up to `(`, a space or `:`; else the last
/// word before the first `(`. A line with none of these names nothing.
pub open spec fn function_name(sig: Seq<char>) -> Option<Seq<char>> {
    if let Some(at) = find(sig, " fn "@) {
        Some(up_to(sig.skip(at + " fn "@.len()), rust_name_end()))
    } else if starts_with(sig, "fn "@) {
        Some(up_to(sig.skip("fn "@.len() as int), rust_name_end()))
    } else if let Some(at) = find(sig, "def "@) {
        Some(up_to(sig.skip(at + "def "@.len()), python_name_end()))
    } else if let Some(at) = find(sig, "("@) {
        last_word(trim(sig.take(at)))
    } else {
        None
    }
}

/// Whether a line that was found stands for the function that was expected:
/// the two are equal once trimmed, or both name a function and the names
/// are equal.
pub open spec fn signatures_match(found: Seq<char>, expected: Seq<char>) -> bool {
    let f = trim(found);
    let e = trim(expected);
    f == e || (function_name(f) is Some && function_name(f) == function_name(e))
}

/// Whether line `i` begins a function whose name is `name`.
pub open spec fn starts_named(lines: Seq<Seq<char>>, i: int, name: Seq<char>) -> bool {
    starts_function(lines, i) && function_name(trim(lines[i])) == Some(name)
}

/// The first line at or after `from` that begins a function named `name`.
pub open spec fn named_start_from(lines: Seq<Seq<char>>, from: int, name: Seq<char>) -> Option<
    int,
>
    decreases lines.len() - from,
{
    if from < 0 || from >= lines.len() {
        None
    } else if starts_named(lines, from, name) {
        Some(from)
    } else {
        named_start_from(lines, from + 1, name)
    }
}

/// The first line at or after `from` that begins the function which
/// `expected` names. A signature that names nothing is found nowhere.
pub open spec fn function_start_forward(
    lines: Seq<Seq<char>>,
    from: int,
    expected: Seq<char>,
) -> Option<int> {
    match function_name(expected) {
        Some(name) => named_start_from(lines, from, name),
        None => None,
    }
}

/// The first line of the whole text that begins the function which
/// `expected` names.
pub open spec fn function_by_signature(lines: Seq<Seq<char>>, expected: Seq<char>) -> Option<
    int,
> {
    function_start_forward(lines, 0, expected)
}

/// Whether `found` is the first line at or after `from` that begins a
/// function named `name`, or nothing where there is no such line.
pub open spec fn is_next_named(
    lines: Seq<Seq<char>>,
    from: int,
    name: Seq<char>,
    found: Option<int>,
) -> bool {
    match found {
        Some(s) => from <= s < lines.len() && starts_named(lines, s, name) && forall|j: int|
            from <= j < s ==> !starts_named(lines, j, name),
        None => forall|j: int| from <= j ==> !starts_named(lines, j, name),
    }
}

/// What `named_start_from` returns: the nearest match at or after `from`.
pub proof fn lemma_named_start_from(lines: Seq<Seq<char>>, from: int, name: Seq<char>)
    requires
        0 <= from,
    ensures
        match named_start_from(lines, from, name) {
            Some(s) => from <= s < lines.len() && starts_named(lines, s, name) && forall|j: int|
                from <= j < s ==> !starts_named(lines, j, name),
            None => forall|j: int| from <= j ==> !starts_named(lines, j, name),
        },
    decreases lines.len() - from,
{
    if from >= lines.len() {
    } else if starts_named(lines, from, name) {
    } else {
        lemma_named_start_from(lines, from + 1, name);
    }
}

// ---------------------------------------------------------------------------
// Where a function ends
// ---------------------------------------------------------------------------

/// How often `c` occurs in `s`.
pub open spec fn count_char(s: Seq<char>, c: char) -> nat
    decreases s.len(),
{
    if s.len() == 0 {
        0
    } else {
        count_char(s.drop_last(), c) + if s.last() == c {
            1nat
        } else {
            0nat
        }
    }
}

/// How often `c` occurs on the lines `start..=end`.
pub open spec fn count_in_lines(lines: Seq<Seq<char>>, start: int, end: int, c: char) -> nat
    decreases end - start + 1,
{
    if end < start || start < 0 || end >= lines.len() {
        0
    } else {
        count_in_lines(lines, start, end - 1, c) + count_char(lines[end], c)
    }
}

/// The opening braces on the lines `start..=end` less the closing ones.
pub open spec fn brace_balance(lines: Seq<Seq<char>>, start: int, end: int) -> int {
    count_in_lines(lines, start, end, '{') - count_in_lines(lines, start, end, '}')
}

/// Whether a function that begins on line `start` is closed by the end of
/// line `end`: a brace has been opened, and as many or more have been
/// closed.
pub open spec fn closes_by(lines: Seq<Seq<char>>, start: int, end: int) -> bool {
    &&& 0 <= start <= end < lines.len()
    &&& count_in_lines(lines, start, end, '{') > 0
    &&& brace_balance(lines, start, end) <= 0
}

/// The first line at or after `from` by which the function is closed.
pub open spec fn end_from(lines: Seq<Seq<char>>, start: int, from: int) -> Option<int>
    decreases lines.len() - from,
{
    if from < 0 || from >= lines.len() {
        None
    } else if closes_by(lines, start, from) {
        Some(from)
    } else {
        end_from(lines, start, from + 1)
    }
}

/// The line on which the function that begins on line `start` ends: the
/// first line by whose end a brace has been opened and the count of open
/// braces is back at zero, or below it.
pub open spec fn function_end(lines: Seq<Seq<char>>, start: int) -> Option<int> {
    end_from(lines, start, start)
}

/// What `end_from` returns: the nearest closing line at or after `from`.
pub proof fn lemma_end_from(lines: Seq<Seq<char>>, start: int, from: int)
    requires
        0 <= from,
    ensures
        match end_from(lines, start, from) {
            Some(e) => from <= e < lines.len() && closes_by(lines, start, e) && forall|j: int|
                from <= j < e ==> !closes_by(lines, start, j),
            None => forall|j: int| from <= j ==> !closes_by(lines, start, j),
        },
    decreases lines.len() - from,
{
    if from >= lines.len() {
    } else if closes_by(lines, start, from) {
    } else {
        lemma_end_from(lines, start, from + 1);
    }
}

/// The line `end` is where the function ends when it is the first line by
/// which the function is closed.
pub proof fn lemma_end_is(lines: Seq<Seq<char>>, start: int, from: int, end: int)
    requires
        0 <= from <= end,
        closes_by(lines, start, end),
        forall|j: int| from <= j < end ==> !closes_by(lines, start, j),
    ensures
        end_from(lines, start, from) == Some(end),
    decreases end - from,
{
    if from < end {
        lemma_end_is(lines, start, from + 1, end);
    }
}

// ---------------------------------------------------------------------------
// What holds of the locator
// ---------------------------------------------------------------------------

/// A search that begins past the last line finds no function start.
pub proof fn lemma_no_start_past_the_end(lines: Seq<Seq<char>>, from: int)
    requires
        from >= lines.len(),
    ensures
        function_start(lines, from) is None,
{
}

/// A function whose braces are opened and closed again on its first line
/// ends on that line.
pub proof fn lemma_ends_on_start_line(lines: Seq<Seq<char>>, start: int)
    requires
        0 <= start < lines.len(),
        count_char(lines[start], '{') > 0,
        count_char(lines[start], '{') <= count_char(lines[start], '}'),
    ensures
        function_end(lines, start) == Some(start),
{
    assert(count_in_lines(lines, start, start - 1, '{') == 0);
    assert(count_in_lines(lines, start, start - 1, '}') == 0);
}

/// Between the first and the last line of a function the braces are
/// balanced: the last line closes as many as were opened, and by the end of
/// no line more are closed than opened. This holds wherever the function
/// does not end on a surplus of closing braces and no brace is closed before
/// the first one is opened.
pub proof fn lemma_braces_balanced(lines: Seq<Seq<char>>, start: int, end: int)
    requires
        function_end(lines, start) == Some(end),
        brace_balance(lines, start, end) >= 0,
        forall|j: int|
            start <= j < end && count_in_lines(lines, start, j, '{') == 0
                ==> count_in_lines(lines, start, j, '}') == 0,
    ensures
        start <= end < lines.len(),
        brace_balance(lines, start, end) == 0,
        forall|j: int| start <= j <= end ==> brace_balance(lines, start, j) >= 0,
{
    if start >= 0 {
        lemma_end_from(lines, start, start);
        assert forall|j: int| start <= j <= end implies brace_balance(lines, start, j) >= 0 by {
            if j < end {
                assert(!closes_by(lines, start, j));
            }
        }
    }
}

/// A line stands for the function that it declares itself.
pub proof fn lemma_signature_matches_itself(line: Seq<char>)
    ensures
        signatures_match(line, line),
{
}

/// A text that holds a character which is no whitespace is not trimmed
/// away.
proof fn lemma_trim_nonempty(s: Seq<char>, i: int)
    requires
        0 <= i < s.len(),
        !is_whitespace(s[i]),
    ensures
        trim(s).len() > 0,
{
    lemma_trim_keeps_text(s, i);
}

/// The last word of a text that begins with a character which is no
/// whitespace.
proof fn lemma_last_word_exists(s: Seq<char>)
    requires
        s.len() > 0,
        !is_whitespace(s[0]),
    ensures
        last_word(trim(s)) is Some,
{
    lemma_trim_nonempty(s, 0);
    lemma_trim_ends(s);
    let t = trim(s);
    assert(trailing_ws(t) == 0);
    assert(t.take(t.len() - trailing_ws(t)) == t);
}

/// A line that begins with `p`, where `p` ends in `q`, holds `q`.
proof fn lemma_prefix_holds(line: Seq<char>, p: Seq<char>, q: Seq<char>)
    requires
        starts_with(line, p),
        q.len() <= p.len(),
        p.skip(p.len() - q.len()) == q,
    ensures
        matches_at(line, q, p.len() - q.len()),
        contains(line, q),
        find(line, q) is Some,
{
    let at = p.len() - q.len();
    assert(line.subrange(at, at + q.len()) =~= line.take(p.len() as int).skip(at));
    assert(matches_at(line, q, at));
    lemma_find_contains(line, q);
}

/// The first line of a function names the function: every line that looks
/// like the first line of a function has a name.
pub proof fn lemma_start_has_name(line: Seq<char>)
    requires
        is_function_start(line),
    ensures
        function_name(line) is Some,
{
    reveal_strlit("fn ");
    reveal_strlit(" fn ");
    reveal_strlit("pub fn ");
    reveal_strlit("async fn ");
    reveal_strlit("pub async fn ");
    reveal_strlit("pub(crate) fn ");
    reveal_strlit("def ");
    reveal_strlit("async def ");
    reveal_strlit("(");
    if find(line, " fn "@) is Some {
    } else if starts_with(line, "fn "@) {
    } else if contains(line, " fn "@) {
        lemma_find_contains(line, " fn "@);
    } else if starts_with(line, "pub fn "@) {
        assert("pub fn "@.skip(3) =~= " fn "@);
        lemma_prefix_holds(line, "pub fn "@, " fn "@);
    } else if starts_with(line, "async fn "@) {
        assert("async fn "@.skip(5) =~= " fn "@);
        lemma_prefix_holds(line, "async fn "@, " fn "@);
    } else if starts_with(line, "pub async fn "@) {
        assert("pub async fn "@.skip(9) =~= " fn "@);
        lemma_prefix_holds(line, "pub async fn "@, " fn "@);
    } else if starts_with(line, "pub(crate) fn "@) {
        assert("pub(crate) fn "@.skip(10) =~= " fn "@);
        lemma_prefix_holds(line, "pub(crate) fn "@, " fn "@);
    } else if starts_with(line, "def "@) {
        assert("def "@.skip(0) =~= "def "@);
        lemma_prefix_holds(line, "def "@, "def "@);
    } else if starts_with(line, "async def "@) {
        assert("async def "@.skip(6) =~= "def "@);
        lemma_prefix_holds(line, "async def "@, "def "@);
    } else if find(line, "def "@) is Some {
    } else {
        assert(is_c_family_start(line));
        lemma_keyword_first(line);
        lemma_find_contains(line, "("@);
        let at = find(line, "("@).unwrap();
        assert(line.subrange(at, at + 1)[0] == line[at]);
        assert(line[at] == '(');
        let before = line.take(at);
        assert(before[0] == line[0]);
        lemma_last_word_exists(before);
    }
}

/// A line that starts with a return type or a modifier of the C family
/// starts with a letter.
proof fn lemma_keyword_first(line: Seq<char>)
    requires
        has_c_family_keyword(line),
    ensures
        line.len() > 0,
        !is_whitespace(line[0]),
        line[0] != '(',
{
    reveal_strlit("void ");
    reveal_strlit("int ");
    reveal_strlit("bool ");
    reveal_strlit("char ");
    reveal_strlit("float ");
    reveal_strlit("double ");
    reveal_strlit("public ");
    reveal_strlit("private ");
    reveal_strlit("protected ");
    reveal_strlit("static ");
    if starts_with(line, "void "@) {
        assert(line[0] == line.take(5)[0]);
    } else if starts_with(line, "int "@) {
        assert(line[0] == line.take(4)[0]);
    } else if starts_with(line, "bool "@) {
        assert(line[0] == line.take(5)[0]);
    } else if starts_with(line, "char "@) {
        assert(line[0] == line.take(5)[0]);
    } else if starts_with(line, "float "@) {
        assert(line[0] == line.take(6)[0]);
    } else if starts_with(line, "double "@) {
        assert(line[0] == line.take(7)[0]);
    } else if starts_with(line, "public "@) {
        assert(line[0] == line.take(7)[0]);
    } else if starts_with(line, "private "@) {
        assert(line[0] == line.take(8)[0]);
    } else if starts_with(line, "protected "@) {
        assert(line[0] == line.take(10)[0]);
    } else {
        assert(line[0] == line.take(7)[0]);
    }
}

/// A name that is read up to a delimiter is empty just where nothing
/// stands before the delimiter: where the text is empty, or begins with a
/// delimiter.
pub proof fn lemma_up_to_empty(s: Seq<char>, d: Seq<char>)
    ensures
        up_to(s, d).len() == 0 <==> s.len() == 0 || d.contains(s[0]),
{
    crate::text::lemma_first_of(s, d);
}

/// `n` is at most `trailing_word_len(s)` when the last `n` characters of
/// `s` are no whitespace.
proof fn lemma_trailing_word_is(s: Seq<char>)
    ensures
        trailing_word_len(s) <= s.len(),
        forall|i: int|
            s.len() - trailing_word_len(s) <= i < s.len() ==> !is_whitespace(#[trigger] s[i]),
    decreases s.len(),
{
    if s.len() > 0 && !is_whitespace(s.last()) {
        let t = s.drop_last();
        lemma_trailing_word_is(t);
        assert forall|i: int| s.len() - trailing_word_len(s) <= i < s.len() implies !is_whitespace(
            #[trigger] s[i],
        ) by {
            if i < s.len() - 1 {
                assert(s[i] == t[i]);
            }
        }
    }
}

/// The last word of a text is a word: it is not empty, and it holds no
/// whitespace.
pub proof fn lemma_last_word_is_a_word(s: Seq<char>)
    ensures
        last_word(s) matches Some(word) ==> word.len() > 0 && forall|i: int|
            0 <= i < word.len() ==> !is_whitespace(#[trigger] word[i]),
{
    crate::text::lemma_trailing_ws_is(s);
    let t = s.take(s.len() - trailing_ws(s));
    if t.len() > 0 {
        assert(t.last() == s[s.len() - trailing_ws(s) - 1]);
        lemma_trailing_word_is(t);
        let word = t.skip(t.len() - trailing_word_len(t));
        assert forall|i: int| 0 <= i < word.len() implies !is_whitespace(#[trigger] word[i]) by {
            assert(word[i] == t[i + t.len() - trailing_word_len(t)]);
        }
    }
}

/// The line that a search for a function start returns names a function.
pub proof fn lemma_found_start_has_name(lines: Seq<Seq<char>>, from: int)
    ensures
        function_start(lines, from) matches Some(start) ==> function_name(trim(lines[start]))
            is Some,
{
    lemma_function_start(lines, from);
    if let Some(start) = function_start(lines, from) {
        lemma_start_has_name(trim(lines[start]));
    }
}

/// A carriage return at the end of a line is no brace.
pub proof fn lemma_count_strip_cr(l: Seq<char>, c: char)
    requires
        c != '\r',
    ensures
        count_char(strip_cr(l), c) == count_char(l, c),
{
}

/// The braces of a function are counted alike wherever the function
/// stands: where the lines `at..at + n` of `lines` hold as many of `c`, line
/// by line, as the lines of `body`, they hold as many up to each line.
pub proof fn lemma_count_moved(
    lines: Seq<Seq<char>>,
    at: int,
    body: Seq<Seq<char>>,
    k: int,
    c: char,
)
    requires
        0 <= at,
        at + body.len() <= lines.len(),
        0 <= k < body.len(),
        forall|i: int|
            0 <= i < body.len() ==> count_char(#[trigger] lines[at + i], c) == count_char(
                body[i],
                c,
            ),
    ensures
        count_in_lines(lines, at, at + k, c) == count_in_lines(body, 0, k, c),
    decreases k,
{
    if k > 0 {
        lemma_count_moved(lines, at, body, k - 1, c);
    } else {
        assert(count_in_lines(lines, at, at - 1, c) == 0);
        assert(count_in_lines(body, 0, -1, c) == 0);
    }
    assert(count_char(lines[at + k], c) == count_char(body[k], c));
}

} // verus!
