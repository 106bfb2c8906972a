//! The rewrite of one function inside a document, stated over characters.
//!
//! A rewrite relocates the function in the current text, replaces the lines
//! from its first to its last by the lines of the new implementation, and
//! reports by how many lines the text below has moved.

use vstd::prelude::*;
use crate::locator::{
    closes_by, count_char, function_by_signature, function_end, function_name, function_start,
    function_start_forward, is_next_named, lemma_count_moved, lemma_count_strip_cr,
    lemma_end_from, lemma_end_is, lemma_named_start_from,
    signatures_match, starts_function,
};
use crate::text::{
    is_one_line, join_lines, lemma_lines_are_lines, lemma_lines_of_joined,
    lemma_trim_strip_cr, lines, newline, strip_cr, trim,
};

verus! {

/// The lines of a document in which the lines `start..=end` have given way
/// to the lines of the implementation.
pub open spec fn spliced(
    lines: Seq<Seq<char>>,
    start: int,
    end: int,
    implementation: Seq<Seq<char>>,
) -> Seq<Seq<char>> {
    lines.take(start) + implementation + lines.skip(end + 1)
}

/// The text of a document that is made of `lines`: the lines joined by line
/// feeds, and one line feed at the end.
pub open spec fn document_of(lines: Seq<Seq<char>>) -> Seq<char> {
    join_lines(lines) + newline()
}

/// The text in which the function that begins on line `start` has given way
/// to `implementation`. There is none when `start` is no line of the text,
/// or when the function does not end.
pub open spec fn replaced(text: Seq<char>, start: int, implementation: Seq<char>) -> Option<
    Seq<char>,
> {
    let ls = lines(text);
    match function_end(ls, start) {
        Some(end) => if 0 <= start < ls.len() {
            Some(document_of(spliced(ls, start, end, lines(implementation))))
        } else {
            None
        },
        None => None,
    }
}

/// The line on which the function that `signature` names is found by its
/// name: the first function of that name at or after `line`, and failing
/// that the first one of that name in the whole text.
pub open spec fn found_by_name(lines: Seq<Seq<char>>, line: int, signature: Seq<char>) -> Option<
    int,
> {
    match function_start_forward(lines, line, signature) {
        Some(forward) => Some(forward),
        None => function_by_signature(lines, signature),
    }
}

/// The line on which the function of a job begins in the current text.
///
/// Without an expected signature it is the nearest function start at or
/// before `line`. With one, that start is taken where it matches the
/// signature. Where it does not match, or where no function starts at or
/// before `line`, the function is looked for by its name: first from `line`
/// on, then in the whole text. There is no such line only where all of
/// these searches find nothing.
pub open spec fn relocated(lines: Seq<Seq<char>>, line: int, expected: Option<Seq<char>>) -> Option<
    int,
> {
    match expected {
        None => function_start(lines, line),
        Some(signature) => match function_start(lines, line) {
            Some(found) => if signatures_match(trim(lines[found]), signature) {
                Some(found)
            } else {
                found_by_name(lines, line, signature)
            },
            None => found_by_name(lines, line, signature),
        },
    }
}

/// Why a document could not be rewritten.
pub enum RewriteError {
    /// The document or the implementation has more lines than a line number
    /// can count.
    TooLarge,
    /// The line of the job is no line of the document.
    LineOutOfBounds,
    /// No function start was found for the job.
    StartNotFound,
    /// The function that was found has no end.
    EndNotFound,
}

/// A document after the rewrite of one function.
pub struct Rewrite {
    /// The new text of the document.
    pub text: Seq<char>,
    /// The first line of the function in the old text.
    pub start: int,
    /// The last line of the function in the old text.
    pub end: int,
    /// The lines of the implementation less the lines that it replaced.
    pub delta: int,
}

/// The most lines that a document or an implementation may have.
pub open spec fn max_lines() -> int {
    0x7fff_ffff
}

/// The rewrite of the function of a job at `line` of `text`.
pub open spec fn rewritten(
    text: Seq<char>,
    line: int,
    implementation: Seq<char>,
    expected: Option<Seq<char>>,
) -> Result<Rewrite, RewriteError> {
    let ls = lines(text);
    let body = lines(implementation);
    if ls.len() > max_lines() || body.len() > max_lines() {
        Err(RewriteError::TooLarge)
    } else if line < 0 || line >= ls.len() {
        Err(RewriteError::LineOutOfBounds)
    } else {
        match relocated(ls, line, expected) {
            None => Err(RewriteError::StartNotFound),
            Some(start) => match function_end(ls, start) {
                None => Err(RewriteError::EndNotFound),
                Some(end) => Ok(
                    Rewrite {
                        text: document_of(spliced(ls, start, end, body)),
                        start,
                        end,
                        delta: body.len() - (end - start + 1),
                    },
                ),
            },
        }
    }
}

/// What a caller is told when a rewrite fails.
pub open spec fn error_message(e: RewriteError) -> Seq<char> {
    match e {
        RewriteError::TooLarge => "Document too large"@,
        RewriteError::LineOutOfBounds => "Line out of bounds"@,
        RewriteError::StartNotFound => "Could not find function start"@,
        RewriteError::EndNotFound => "Could not find function end"@,
    }
}

/// The function of a job is not found only where all three searches find
/// nothing: the nearest start at or before the line of the job is none or
/// another function, no function of the expected name starts from that line
/// on, and none starts anywhere in the text.
pub proof fn lemma_not_found_only_if_all_fail(
    lines: Seq<Seq<char>>,
    line: int,
    signature: Seq<char>,
)
    requires
        relocated(lines, line, Some(signature)) is None,
    ensures
        function_start(lines, line) matches Some(found) ==> !signatures_match(
            trim(lines[found]),
            signature,
        ),
        function_start_forward(lines, line, signature) is None,
        function_by_signature(lines, signature) is None,
{
}

/// A function that stands below the line of its job is found by its name.
///
/// Where no function starts at or before the line of the job, and line `k`
/// is the first line from there on that begins a function of the name that
/// the signature names, the function of the job begins on line `k`.
pub proof fn lemma_found_further_down(
    lines: Seq<Seq<char>>,
    line: int,
    signature: Seq<char>,
    k: int,
)
    requires
        0 <= line < lines.len(),
        function_start(lines, line) is None,
        function_name(signature) is Some,
        is_next_named(lines, line, function_name(signature).unwrap(), Some(k)),
    ensures
        relocated(lines, line, Some(signature)) == Some(k),
{
    let name = function_name(signature).unwrap();
    lemma_named_start_from(lines, line, name);
}

/// A function that has been put in place is found again where it was put.
///
/// Let the function that begins on line `start` of `text` give way to an
/// implementation whose first line looks like the first line of a function.
/// Then, in the new text, the search for a function start from line `start`
/// finds line `start`.
pub proof fn lemma_replaced_start_is_found(
    text: Seq<char>,
    start: int,
    implementation: Seq<char>,
)
    requires
        replaced(text, start, implementation) is Some,
        starts_function(lines(implementation), 0),
    ensures
        function_start(lines(replaced(text, start, implementation).unwrap()), start) == Some(
            start,
        ),
{
    let body = lines(implementation);
    lemma_lines_of_replaced(text, start, implementation);
    let new_lines = lines(replaced(text, start, implementation).unwrap());
    assert(new_lines[start + 0] == strip_cr(body[0]));
    lemma_trim_strip_cr(body[0]);
    assert(starts_function(new_lines, start));
}

/// A function that has been put in place ends where its implementation
/// ends.
///
/// Let the function that begins on line `start` of `text` give way to an
/// implementation whose braces close on its last line, and no earlier. Then,
/// in the new text, the function that begins on line `start` ends as many
/// lines further down as the implementation is long.
pub proof fn lemma_replaced_end_is_found(text: Seq<char>, start: int, implementation: Seq<char>)
    requires
        replaced(text, start, implementation) is Some,
        function_end(lines(implementation), 0) == Some(lines(implementation).len() - 1),
    ensures
        function_end(lines(replaced(text, start, implementation).unwrap()), start) == Some(
            start + lines(implementation).len() - 1,
        ),
{
    let body = lines(implementation);
    let n = body.len() as int;
    lemma_end_from(body, 0, 0);
    lemma_lines_of_replaced(text, start, implementation);
    let new_lines = lines(replaced(text, start, implementation).unwrap());
    assert forall|i: int| 0 <= i < n implies count_char(#[trigger] new_lines[start + i], '{')
        == count_char(body[i], '{') by {
        lemma_count_strip_cr(body[i], '{');
    }
    assert forall|i: int| 0 <= i < n implies count_char(#[trigger] new_lines[start + i], '}')
        == count_char(body[i], '}') by {
        lemma_count_strip_cr(body[i], '}');
    }
    assert forall|k: int| 0 <= k < n implies (closes_by(new_lines, start, start + k) <==> closes_by(
        body,
        0,
        k,
    )) by {
        lemma_count_moved(new_lines, start, body, k, '{');
        lemma_count_moved(new_lines, start, body, k, '}');
    }
    assert(closes_by(new_lines, start, start + (n - 1)));
    assert forall|j: int| start <= j < start + n - 1 implies !closes_by(new_lines, start, j) by {
        assert(closes_by(new_lines, start, start + (j - start)) <==> closes_by(
            body,
            0,
            j - start,
        ));
    }
    lemma_end_is(new_lines, start, start, start + n - 1);
}

/// The lines of a text in which a function has given way to an
/// implementation of one line or more: where the function began, the lines
/// of the implementation stand, each without a carriage return at its end.
proof fn lemma_lines_of_replaced(text: Seq<char>, start: int, implementation: Seq<char>)
    requires
        replaced(text, start, implementation) is Some,
        lines(implementation).len() > 0,
    ensures
        0 <= start,
        start + lines(implementation).len() <= lines(
            replaced(text, start, implementation).unwrap(),
        ).len(),
        forall|i: int|
            0 <= i < lines(implementation).len() ==> #[trigger] lines(
                replaced(text, start, implementation).unwrap(),
            )[start + i] == strip_cr(lines(implementation)[i]),
{
    let ls = lines(text);
    let body = lines(implementation);
    let n = body.len() as int;
    let end = function_end(ls, start).unwrap();
    lemma_end_from(ls, start, start);
    let spliced_lines = spliced(ls, start, end, body);
    lemma_lines_are_lines(text);
    lemma_lines_are_lines(implementation);
    assert forall|k: int| 0 <= k < spliced_lines.len() implies is_one_line(
        #[trigger] spliced_lines[k],
    ) by {
        if k < start {
            assert(spliced_lines[k] == ls[k]);
        } else if k < start + n {
            assert(spliced_lines[k] == body[k - start]);
        } else {
            assert(spliced_lines[k] == ls[k - start - n + end + 1]);
        }
    }
    lemma_lines_of_joined(spliced_lines);
    let new_lines = lines(document_of(spliced_lines));
    assert(new_lines.len() == spliced_lines.len());
    assert forall|i: int| 0 <= i < n implies #[trigger] new_lines[start + i] == strip_cr(
        body[i],
    ) by {
        assert(spliced_lines[start + i] == body[i]);
    }
}

} // verus!
