//! The function locator and the rewrite of one function, on strings.

use vstd::prelude::*;
use crate::locator;
use crate::lsp_utils::{full_replace, WorkspaceEdit, WorkspaceEditBuilder};
use crate::rewrite;
use crate::text::{
    chars_eq, chars_to_string, contains, contains_chars, ends_with_chars, find_chars,
    first_of_chars, is_whitespace, is_whitespace_char, join_chars, lines, lines_view, opt_index,
    opt_str, opt_string, result_view, slice_chars, split_lines, starts_with, starts_with_chars,
    str_to_chars, strip_code_fence, strs_to_chars, strs_view, trailing_ws, trim, trim_bounds,
    trim_chars,
};

verus! {

// ---------------------------------------------------------------------------
// Where a function begins
// ---------------------------------------------------------------------------

fn has_prefix(line: &Vec<char>, p: &str) -> (r: bool)
    ensures
        r == starts_with(line@, p@),
{
    let pattern = str_to_chars(p);
    starts_with_chars(line, &pattern)
}

fn has_part(line: &Vec<char>, p: &str) -> (r: bool)
    ensures
        r == contains(line@, p@),
{
    let pattern = str_to_chars(p);
    contains_chars(line, &pattern)
}

fn line_is_function_start(line: &Vec<char>) -> (r: bool)
    ensures
        r == locator::is_function_start(line@),
{
    if has_prefix(line, "fn ") || has_prefix(line, "pub fn ") || has_prefix(line, "async fn ")
        || has_prefix(line, "pub async fn ") || has_prefix(line, "pub(crate) fn ") || has_part(
        line,
        " fn ",
    ) {
        return true;
    }
    if has_prefix(line, "def ") || has_prefix(line, "async def ") {
        return true;
    }
    let keyword = has_prefix(line, "void ") || has_prefix(line, "int ") || has_prefix(
        line,
        "bool ",
    ) || has_prefix(line, "char ") || has_prefix(line, "float ") || has_prefix(line, "double ")
        || has_prefix(line, "public ") || has_prefix(line, "private ") || has_prefix(
        line,
        "protected ",
    ) || has_prefix(line, "static ");
    keyword && has_part(line, "(")
}

/// Whether a trimmed line looks like the first line of a function.
pub fn is_function_start(line: &str) -> (r: bool)
    ensures
        r == locator::is_function_start(line@),
{
    let chars = str_to_chars(line);
    line_is_function_start(&chars)
}

fn line_starts_function(lines: &Vec<Vec<char>>, i: usize) -> (r: bool)
    requires
        i < lines.len(),
    ensures
        r == locator::starts_function(lines_view(lines@), i as int),
{
    let trimmed = trim_chars(&lines[i]);
    line_is_function_start(&trimmed)
}

fn start_in(lines: &Vec<Vec<char>>, from: usize) -> (r: Option<usize>)
    ensures
        opt_index(r) == locator::function_start(lines_view(lines@), from as int),
{
    if from >= lines.len() {
        return None;
    }
    let mut i: usize = from;
    loop
        invariant
            i <= from < lines.len(),
            locator::function_start(lines_view(lines@), from as int) == locator::function_start(
                lines_view(lines@),
                i as int,
            ),
        decreases i,
    {
        if line_starts_function(lines, i) {
            return Some(i);
        }
        if i == 0 {
            assert(locator::function_start(lines_view(lines@), -1) is None);
            return None;
        }
        i -= 1;
    }
}

/// The line on which the function at or around line `start_search_line`
/// begins: the nearest line at or before it that, once trimmed, looks like
/// the first line of a function. There is none when the line lies past the
/// end of `lines`.
pub fn find_function_start(lines: &[&str], start_search_line: usize) -> (r: Option<usize>)
    ensures
        opt_index(r) == locator::function_start(strs_view(lines@), start_search_line as int),
        match r {
            Some(s) => s <= start_search_line < lines.len() && locator::starts_function(
                strs_view(lines@),
                s as int,
            ) && forall|j: int|
                s < j <= start_search_line ==> !locator::starts_function(strs_view(lines@), j),
            None => start_search_line >= lines.len() || forall|j: int|
                0 <= j <= start_search_line ==> !locator::starts_function(strs_view(lines@), j),
        },
{
    let chars = strs_to_chars(lines);
    proof {
        locator::lemma_function_start(strs_view(lines@), start_search_line as int);
    }
    start_in(&chars, start_search_line)
}

// ---------------------------------------------------------------------------
// The name of a function
// ---------------------------------------------------------------------------

fn rust_name_end() -> (d: Vec<char>)
    ensures
        d@ == locator::rust_name_end(),
{
    let mut d: Vec<char> = Vec::new();
    d.push('(');
    d.push('<');
    d.push(' ');
    assert(d@ =~= locator::rust_name_end());
    d
}

fn python_name_end() -> (d: Vec<char>)
    ensures
        d@ == locator::python_name_end(),
{
    let mut d: Vec<char> = Vec::new();
    d.push('(');
    d.push(' ');
    d.push(':');
    assert(d@ =~= locator::python_name_end());
    d
}

/// The bounds, in `sig`, of the name that is read from `from` up to the
/// first character of `d`.
fn name_up_to(sig: &Vec<char>, from: usize, d: &Vec<char>) -> (r: (usize, usize))
    requires
        from <= sig.len(),
    ensures
        r.0 <= r.1 <= sig.len(),
        sig@.subrange(r.0 as int, r.1 as int) == locator::up_to(sig@.skip(from as int), d@),
{
    let end = first_of_chars(sig, from, d);
    assert(sig@.skip(from as int).take(end - from) == sig@.subrange(from as int, end as int));
    (from, end)
}

/// The bounds, in `sig`, of the last word before index `at`.
fn last_word_before(sig: &Vec<char>, at: usize) -> (r: Option<(usize, usize)>)
    requires
        at <= sig.len(),
    ensures
        match r {
            Some((lo, hi)) => lo <= hi <= sig.len() && locator::last_word(
                trim(sig@.take(at as int)),
            ) == Some(sig@.subrange(lo as int, hi as int)),
            None => locator::last_word(trim(sig@.take(at as int))) is None,
        },
{
    let before = slice_chars(sig, 0, at);
    assert(before@ == sig@.take(at as int));
    let (lo, hi) = trim_bounds(&before);
    let ghost t = trim(before@);
    if lo == hi {
        assert(t.len() == 0);
        assert(t.take(t.len() - trailing_ws(t)).len() == 0);
        return None;
    }
    proof {
        crate::text::lemma_trim_ends(before@);
        assert(trailing_ws(t) == 0);
        assert(t.take(t.len() - trailing_ws(t)) == t);
    }
    let mut k: usize = hi;
    while k > lo && !is_whitespace_char(before[k - 1])
        invariant
            lo <= k <= hi <= before.len(),
            forall|i: int| k <= i < hi ==> !is_whitespace(#[trigger] before@[i]),
        decreases k,
    {
        k -= 1;
    }
    proof {
        assert forall|i: int| t.len() - (hi - k) <= i < t.len() implies !is_whitespace(
            #[trigger] t[i],
        ) by {
            assert(t[i] == before@[i + lo]);
        }
        if k > lo {
            assert(t[k - 1 - lo] == before@[k - 1]);
        }
        locator::lemma_trailing_word_len(t, hi - k);
        assert(t.skip(t.len() - (hi - k)) == sig@.subrange(k as int, hi as int));
    }
    Some((k, hi))
}

/// The bounds, in `sig`, of the name of the function that `sig` declares.
fn name_bounds(sig: &Vec<char>) -> (r: Option<(usize, usize)>)
    ensures
        match r {
            Some((lo, hi)) => lo <= hi <= sig.len() && locator::function_name(sig@) == Some(
                sig@.subrange(lo as int, hi as int),
            ),
            None => locator::function_name(sig@) is None,
        },
{
    let spaced_fn = str_to_chars(" fn ");
    if let Some(at) = find_chars(sig, &spaced_fn) {
        let d = rust_name_end();
        return Some(name_up_to(sig, at + spaced_fn.len(), &d));
    }
    let leading_fn = str_to_chars("fn ");
    if starts_with_chars(sig, &leading_fn) {
        let d = rust_name_end();
        return Some(name_up_to(sig, leading_fn.len(), &d));
    }
    let def = str_to_chars("def ");
    if let Some(at) = find_chars(sig, &def) {
        let d = python_name_end();
        return Some(name_up_to(sig, at + def.len(), &d));
    }
    let paren = str_to_chars("(");
    if let Some(at) = find_chars(sig, &paren) {
        return last_word_before(sig, at);
    }
    None
}

/// The name of the function that a signature line declares, if the line
/// names one.
pub fn extract_function_name(sig: &str) -> (r: Option<&str>)
    ensures
        opt_str(r) == locator::function_name(sig@),
{
    let chars = str_to_chars(sig);
    match name_bounds(&chars) {
        Some((lo, hi)) => Some(sig.substring_char(lo, hi)),
        None => None,
    }
}

fn lines_match(found: &Vec<char>, expected: &Vec<char>) -> (r: bool)
    ensures
        r == locator::signatures_match(found@, expected@),
{
    let f = trim_chars(found);
    let e = trim_chars(expected);
    if chars_eq(&f, &e) {
        return true;
    }
    match name_bounds(&f) {
        Some((flo, fhi)) => match name_bounds(&e) {
            Some((elo, ehi)) => {
                let fname = slice_chars(&f, flo, fhi);
                let ename = slice_chars(&e, elo, ehi);
                chars_eq(&fname, &ename)
            },
            None => false,
        },
        None => false,
    }
}

/// Whether a line that was found stands for the function that was expected:
/// the two are equal once trimmed, or both name a function and the names
/// are equal.
pub fn signatures_match(found: &str, expected: &str) -> (r: bool)
    ensures
        r == locator::signatures_match(found@, expected@),
{
    let f = str_to_chars(found);
    let e = str_to_chars(expected);
    lines_match(&f, &e)
}

fn named_start_in(lines: &Vec<Vec<char>>, from: usize, name: &Vec<char>) -> (r: Option<usize>)
    ensures
        opt_index(r) == locator::named_start_from(lines_view(lines@), from as int, name@),
{
    let mut i: usize = from;
    while i < lines.len()
        invariant
            from <= i,
            locator::named_start_from(lines_view(lines@), from as int, name@)
                == locator::named_start_from(lines_view(lines@), i as int, name@),
        decreases lines.len() - i,
    {
        let line = trim_chars(&lines[i]);
        if line_is_function_start(&line) {
            if let Some((lo, hi)) = name_bounds(&line) {
                let found = slice_chars(&line, lo, hi);
                if chars_eq(&found, name) {
                    return Some(i);
                }
            }
        }
        i += 1;
    }
    None
}

fn forward_in(lines: &Vec<Vec<char>>, from: usize, expected: &Vec<char>) -> (r: Option<usize>)
    ensures
        opt_index(r) == locator::function_start_forward(
            lines_view(lines@),
            from as int,
            expected@,
        ),
{
    match name_bounds(expected) {
        Some((lo, hi)) => {
            let name = slice_chars(expected, lo, hi);
            named_start_in(lines, from, &name)
        },
        None => None,
    }
}

/// The first line at or after `start_search_line` that begins the function
/// which `expected_signature` names.
pub fn find_function_start_forward(
    lines: &[&str],
    start_search_line: usize,
    expected_signature: &str,
) -> (r: Option<usize>)
    ensures
        opt_index(r) == locator::function_start_forward(
            strs_view(lines@),
            start_search_line as int,
            expected_signature@,
        ),
        locator::function_name(expected_signature@) is None ==> r is None,
        locator::function_name(expected_signature@) is Some ==> locator::is_next_named(
            strs_view(lines@),
            start_search_line as int,
            locator::function_name(expected_signature@).unwrap(),
            opt_index(r),
        ),
{
    let chars = strs_to_chars(lines);
    let expected = str_to_chars(expected_signature);
    proof {
        if let Some(name) = locator::function_name(expected_signature@) {
            locator::lemma_named_start_from(strs_view(lines@), start_search_line as int, name);
        }
    }
    forward_in(&chars, start_search_line, &expected)
}

/// The first line of the whole text that begins the function which
/// `expected_signature` names.
pub fn find_function_by_signature(lines: &[&str], expected_signature: &str) -> (r: Option<usize>)
    ensures
        opt_index(r) == locator::function_by_signature(strs_view(lines@), expected_signature@),
        locator::function_name(expected_signature@) is None ==> r is None,
        locator::function_name(expected_signature@) is Some ==> locator::is_next_named(
            strs_view(lines@),
            0,
            locator::function_name(expected_signature@).unwrap(),
            opt_index(r),
        ),
{
    find_function_start_forward(lines, 0, expected_signature)
}

// ---------------------------------------------------------------------------
// Where a function ends
// ---------------------------------------------------------------------------

fn count_in_line(line: &Vec<char>, c: char) -> (n: usize)
    ensures
        n == locator::count_char(line@, c),
{
    let mut n: usize = 0;
    let mut i: usize = 0;
    while i < line.len()
        invariant
            i <= line.len(),
            n <= i,
            n == locator::count_char(line@.take(i as int), c),
        decreases line.len() - i,
    {
        proof {
            assert(line@.take(i + 1).drop_last() == line@.take(i as int));
        }
        if line[i] == c {
            n += 1;
        }
        i += 1;
    }
    assert(line@.take(line.len() as int) == line@);
    n
}

fn end_in(lines: &Vec<Vec<char>>, start: usize) -> (r: Option<usize>)
    ensures
        opt_index(r) == locator::function_end(lines_view(lines@), start as int),
{
    let ghost lv = lines_view(lines@);
    let mut opens: u128 = 0;
    let mut closes: u128 = 0;
    let mut i: usize = start;
    while i < lines.len()
        invariant
            start <= i,
            lv == lines_view(lines@),
            opens == locator::count_in_lines(lv, start as int, i - 1, '{'),
            closes == locator::count_in_lines(lv, start as int, i - 1, '}'),
            i <= lines.len() ==> opens <= (i - start) * 0xffff_ffff_ffff_ffff,
            i <= lines.len() ==> closes <= (i - start) * 0xffff_ffff_ffff_ffff,
            locator::function_end(lv, start as int) == locator::end_from(
                lv,
                start as int,
                i as int,
            ),
        decreases lines.len() - i,
    {
        let line_opens = count_in_line(&lines[i], '{');
        let line_closes = count_in_line(&lines[i], '}');
        assert((i - start + 1) * 0xffff_ffff_ffff_ffff <= 0xffff_ffff_ffff_ffff
            * 0xffff_ffff_ffff_ffff);
        opens = opens + line_opens as u128;
        closes = closes + line_closes as u128;
        if opens > 0 && opens <= closes {
            return Some(i);
        }
        i += 1;
    }
    None
}

/// The line on which the function that begins on line `start_line` ends:
/// the first line by whose end a brace has been opened and as many braces
/// have been closed as opened, or more.
pub fn find_function_end(lines: &[&str], start_line: usize) -> (r: Option<usize>)
    ensures
        opt_index(r) == locator::function_end(strs_view(lines@), start_line as int),
        match r {
            Some(e) => start_line <= e < lines.len() && locator::closes_by(
                strs_view(lines@),
                start_line as int,
                e as int,
            ) && forall|j: int|
                start_line <= j < e ==> !locator::closes_by(
                    strs_view(lines@),
                    start_line as int,
                    j,
                ),
            None => forall|j: int|
                start_line <= j ==> !locator::closes_by(strs_view(lines@), start_line as int, j),
        },
{
    let chars = strs_to_chars(lines);
    proof {
        locator::lemma_end_from(strs_view(lines@), start_line as int, start_line as int);
    }
    end_in(&chars, start_line)
}

// ---------------------------------------------------------------------------
// Signatures and rewrites
// ---------------------------------------------------------------------------

/// The trimmed first line of the function at or around line `line` of
/// `text`, by which the function is found again when lines have moved.
pub fn extract_function_signature(text: &str, line: usize) -> (r: Option<String>)
    ensures
        opt_string(r) == locator::signature_at(text@, line as int),
{
    let chars = str_to_chars(text);
    let ls = split_lines(&chars);
    match start_in(&ls, line) {
        Some(start) => {
            proof {
                locator::lemma_function_start(lines(text@), line as int);
            }
            let trimmed = trim_chars(&ls[start]);
            Some(chars_to_string(&trimmed))
        },
        None => None,
    }
}

/// A copy of the lines `lo..hi` of `src`, appended to `dst`.
fn append_lines(dst: &mut Vec<Vec<char>>, src: &Vec<Vec<char>>, lo: usize, hi: usize)
    requires
        lo <= hi <= src.len(),
    ensures
        lines_view(final(dst)@) == lines_view(old(dst)@) + lines_view(src@).subrange(
            lo as int,
            hi as int,
        ),
{
    let mut i: usize = lo;
    while i < hi
        invariant
            lo <= i <= hi <= src.len(),
            lines_view(dst@) == lines_view(old(dst)@) + lines_view(src@).subrange(
                lo as int,
                i as int,
            ),
        decreases hi - i,
    {
        let ghost before = lines_view(dst@);
        let line = slice_chars(&src[i], 0, src[i].len());
        assert(line@ == src@[i as int]@);
        dst.push(line);
        proof {
            assert(lines_view(dst@) =~= before.push(line@));
            assert(lines_view(src@).subrange(lo as int, i + 1) =~= lines_view(src@).subrange(
                lo as int,
                i as int,
            ).push(line@));
        }
        i += 1;
    }
}

/// The text of the document in which the lines `start..=end` have given way
/// to `body`.
fn splice(lines: &Vec<Vec<char>>, start: usize, end: usize, body: &Vec<Vec<char>>) -> (r: String)
    requires
        start <= end < lines.len(),
    ensures
        r@ == rewrite::document_of(
            rewrite::spliced(lines_view(lines@), start as int, end as int, lines_view(body@)),
        ),
{
    let mut out: Vec<Vec<char>> = Vec::new();
    assert(lines_view(out@) =~= Seq::<Seq<char>>::empty());
    append_lines(&mut out, lines, 0, start);
    append_lines(&mut out, body, 0, body.len());
    append_lines(&mut out, lines, end + 1, lines.len());
    proof {
        let lv = lines_view(lines@);
        let bv = lines_view(body@);
        assert(lv.subrange(0, start as int) == lv.take(start as int));
        assert(bv.subrange(0, body.len() as int) == bv);
        assert(lv.subrange(end + 1, lines.len() as int) == lv.skip(end + 1));
        assert(lines_view(out@) =~= rewrite::spliced(lv, start as int, end as int, bv));
    }
    let mut text = join_chars(&out);
    text.push('\n');
    chars_to_string(&text)
}

/// Replaces the function that begins on line `start_line` of `file_content`
/// by `new_implementation`. Nothing is returned when `start_line` is no
/// line of the text, or when the function has no end.
pub fn replace_function(file_content: &str, start_line: usize, new_implementation: &str) -> (r:
    Option<String>)
    ensures
        opt_string(r) == rewrite::replaced(
            file_content@,
            start_line as int,
            new_implementation@,
        ),
{
    let chars = str_to_chars(file_content);
    let ls = split_lines(&chars);
    if start_line >= ls.len() {
        return None;
    }
    match end_in(&ls, start_line) {
        Some(end) => {
            proof {
                locator::lemma_end_from(lines(file_content@), start_line as int, start_line as int);
            }
            let body_chars = str_to_chars(new_implementation);
            let body = split_lines(&body_chars);
            Some(splice(&ls, start_line, end, &body))
        },
        None => None,
    }
}

/// The line on which the function that `signature` names is found by its
/// name, from `line` on or else in the whole text.
fn find_by_name(lines: &Vec<Vec<char>>, line: usize, signature: &Vec<char>) -> (r: Option<usize>)
    ensures
        opt_index(r) == rewrite::found_by_name(lines_view(lines@), line as int, signature@),
        r matches Some(s) ==> s < lines.len(),
{
    let ghost lv = lines_view(lines@);
    proof {
        if locator::function_name(signature@) is Some {
            let name = locator::function_name(signature@).unwrap();
            locator::lemma_named_start_from(lv, line as int, name);
            locator::lemma_named_start_from(lv, 0, name);
        }
    }
    match forward_in(lines, line, signature) {
        Some(forward) => Some(forward),
        None => forward_in(lines, 0, signature),
    }
}

fn relocate(lines: &Vec<Vec<char>>, line: usize, expected: &Option<Vec<char>>) -> (r: Option<
    usize,
>)
    ensures
        opt_index(r) == rewrite::relocated(
            lines_view(lines@),
            line as int,
            match expected {
                Some(e) => Some(e@),
                None => None,
            },
        ),
        r matches Some(s) ==> s < lines.len(),
{
    let ghost lv = lines_view(lines@);
    let back = start_in(lines, line);
    proof {
        locator::lemma_function_start(lv, line as int);
    }
    match expected {
        None => back,
        Some(signature) => match back {
            Some(found) => {
                let found_line = trim_chars(&lines[found]);
                if lines_match(&found_line, signature) {
                    Some(found)
                } else {
                    find_by_name(lines, line, signature)
                }
            },
            None => find_by_name(lines, line, signature),
        },
    }
}

fn failure(e: rewrite::RewriteError) -> (r: String)
    ensures
        r@ == rewrite::error_message(e),
{
    match e {
        rewrite::RewriteError::TooLarge => "Document too large".to_string(),
        rewrite::RewriteError::LineOutOfBounds => "Line out of bounds".to_string(),
        rewrite::RewriteError::StartNotFound => "Could not find function start".to_string(),
        rewrite::RewriteError::EndNotFound => "Could not find function end".to_string(),
    }
}

/// Replaces the function of a job in the current text of its document.
///
/// `current_line` is the line that the job is tracked at. The function is
/// the one that starts nearest at or before that line. Where a signature is
/// expected and that function is another one, or there is none, the
/// function is looked for by its name, from `current_line` on and then in
/// the whole text. The start is not found only where all of these searches
/// find nothing. On success the new text comes back, with the first and
/// last line of the function in `current_text` and the number of lines by
/// which the text below it has moved.
pub fn replace_function_in_document(
    current_text: &str,
    current_line: usize,
    new_implementation: &str,
    expected_signature: Option<&str>,
) -> (r: Result<(String, u32, u32, i32), String>)
    ensures
        match r {
            Ok((text, start, end, delta)) => rewrite::rewritten(
                current_text@,
                current_line as int,
                new_implementation@,
                opt_str(expected_signature),
            ) == Ok::<rewrite::Rewrite, rewrite::RewriteError>(
                rewrite::Rewrite {
                    text: text@,
                    start: start as int,
                    end: end as int,
                    delta: delta as int,
                },
            ),
            Err(message) => rewrite::rewritten(
                current_text@,
                current_line as int,
                new_implementation@,
                opt_str(expected_signature),
            ) matches Err(e) && message@ == rewrite::error_message(e),
        },
{
    let chars = str_to_chars(current_text);
    let ls = split_lines(&chars);
    let body_chars = str_to_chars(new_implementation);
    let body = split_lines(&body_chars);
    if ls.len() > 0x7fff_ffff || body.len() > 0x7fff_ffff {
        return Err(failure(rewrite::RewriteError::TooLarge));
    }
    if current_line >= ls.len() {
        return Err(failure(rewrite::RewriteError::LineOutOfBounds));
    }
    let expected: Option<Vec<char>> = match expected_signature {
        Some(signature) => Some(str_to_chars(signature)),
        None => None,
    };
    let start = match relocate(&ls, current_line, &expected) {
        Some(start) => start,
        None => {
            return Err(failure(rewrite::RewriteError::StartNotFound));
        },
    };
    let end = match end_in(&ls, start) {
        Some(end) => end,
        None => {
            return Err(failure(rewrite::RewriteError::EndNotFound));
        },
    };
    proof {
        locator::lemma_end_from(lines(current_text@), start as int, start as int);
    }
    let old_count: i32 = (end - start + 1) as i32;
    let new_count: i32 = body.len() as i32;
    let text = splice(&ls, start, end, &body);
    Ok((text, start as u32, end as u32, new_count - old_count))
}

/// The text between the first and the last line of a fenced code block, or
/// `s` itself when it is no such block.
pub fn strip_markdown_code_block(s: &str) -> (r: String)
    ensures
        r@ == strip_code_fence(s@),
{
    let chars = str_to_chars(s);
    let trimmed = trim_chars(&chars);
    let fence = str_to_chars("```");
    if starts_with_chars(&trimmed, &fence) && ends_with_chars(&trimmed, &fence) {
        let ls = split_lines(&trimmed);
        if ls.len() >= 2 {
            let mut inner: Vec<Vec<char>> = Vec::new();
            assert(lines_view(inner@) =~= Seq::<Seq<char>>::empty());
            append_lines(&mut inner, &ls, 1, ls.len() - 1);
            let joined = join_chars(&inner);
            return chars_to_string(&joined);
        }
    }
    chars_to_string(&chars)
}

// ---------------------------------------------------------------------------
// Three-way merge
// ---------------------------------------------------------------------------

/// What the three-way merge of `ours` and `theirs`, which both come from
/// `ancestor`, gives: the merged text, or, where the two are in conflict,
/// the text with the conflicts marked in it.
pub uninterp spec fn merged(ancestor: Seq<char>, ours: Seq<char>, theirs: Seq<char>) -> Result<
    Seq<char>,
    Seq<char>,
>;

/// The text of a merge, be it with conflicts or without.
pub open spec fn merge_text(r: Result<Seq<char>, Seq<char>>) -> Seq<char> {
    match r {
        Ok(text) => text,
        Err(text) => text,
    }
}

/// The three-way merge of `ours` and `theirs`.
///
/// Trusted: `diffy::merge` is called with the three texts as they are, and
/// its result is what `merged` names. Nothing more is claimed of it than
/// that the same three texts always give the same result.
#[verifier::external_body]
fn merge_texts(ancestor: &str, ours: &str, theirs: &str) -> (r: Result<String, String>)
    ensures
        result_view(r) == merged(ancestor@, ours@, theirs@),
{
    diffy::merge(ancestor, ours, theirs)
}

/// The edit that puts the outcome of a merge in place of the whole of
/// `current_text`. A merge with conflicts is put in place like one without:
/// the conflicts are marked in the text.
pub fn merge_edit(uri: &str, current_text: &str, outcome: Result<String, String>) -> (r:
    WorkspaceEdit)
    ensures
        r@ == full_replace(uri@, current_text@, merge_text(result_view(outcome))),
{
    match outcome {
        Ok(text) => WorkspaceEditBuilder::create_full_replace(uri, current_text, text.as_str()),
        Err(text) => WorkspaceEditBuilder::create_full_replace(uri, current_text, text.as_str()),
    }
}

/// What the caller is told when the function is not found in the base text.
pub open spec fn merge_failure() -> Seq<char> {
    "Failed to replace function in base text"@
}

/// The edit that brings an implementation, made for the text `base_text`,
/// into the text `current_text`, which has changed since, and the number of
/// lines that the implementation adds.
///
/// The function that begins on line `line` of `base_text` gives way to the
/// implementation. That text and `current_text` are merged, with
/// `base_text` as their ancestor, and the outcome takes the place of the
/// whole of `current_text`.
pub fn create_3way_merge_edit(
    uri: &str,
    base_text: &str,
    current_text: &str,
    implementation: &str,
    line: usize,
) -> (r: Result<(WorkspaceEdit, i32), String>)
    ensures
        match r {
            Ok((edit, added)) => rewrite::replaced(base_text@, line as int, implementation@)
                matches Some(theirs) && edit@ == full_replace(
                uri@,
                current_text@,
                merge_text(merged(base_text@, current_text@, theirs)),
            ) && lines(base_text@).len() <= rewrite::max_lines() && lines(implementation@).len()
                <= rewrite::max_lines() && added == lines(implementation@).len() - (
            locator::function_end(lines(base_text@), line as int).unwrap() - line + 1),
            Err(message) => if rewrite::replaced(base_text@, line as int, implementation@)
                is None {
                message@ == merge_failure()
            } else {
                (lines(base_text@).len() > rewrite::max_lines() || lines(implementation@).len()
                    > rewrite::max_lines()) && message@ == rewrite::error_message(
                    rewrite::RewriteError::TooLarge,
                )
            },
        },
{
    let chars = str_to_chars(base_text);
    let ls = split_lines(&chars);
    if line >= ls.len() {
        return Err("Failed to replace function in base text".to_string());
    }
    let end = match end_in(&ls, line) {
        Some(end) => end,
        None => {
            return Err("Failed to replace function in base text".to_string());
        },
    };
    proof {
        locator::lemma_end_from(lines(base_text@), line as int, line as int);
    }
    let body_chars = str_to_chars(implementation);
    let body = split_lines(&body_chars);
    if ls.len() > 0x7fff_ffff || body.len() > 0x7fff_ffff {
        return Err(failure(rewrite::RewriteError::TooLarge));
    }
    let theirs = splice(&ls, line, end, &body);
    let outcome = merge_texts(base_text, current_text, theirs.as_str());
    let edit = merge_edit(uri, current_text, outcome);
    let old_count: i32 = (end - line + 1) as i32;
    let new_count: i32 = body.len() as i32;
    Ok((edit, new_count - old_count))
}

} // verus!
