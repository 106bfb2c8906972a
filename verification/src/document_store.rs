//! The mirror of the documents that the editor has open: for each document
//! its text, its version and its language.

use vstd::prelude::*;
use crate::text::{
    append_chars, chars_to_string, first_of, first_of_chars, lemma_first_of, lines, newline,
    slice_chars, str_eq, str_to_chars,
};

verus! {

/// One open document.
#[derive(Debug, Clone)]
pub struct Document {
    pub text: String,
    pub version: i32,
    pub language_id: String,
}

/// A document, as a mathematical value.
pub struct DocumentView {
    pub text: Seq<char>,
    pub version: i32,
    pub language_id: Seq<char>,
}

impl View for Document {
    type V = DocumentView;

    open spec fn view(&self) -> DocumentView {
        DocumentView { text: self.text@, version: self.version, language_id: self.language_id@ }
    }
}

/// A place in a text: a line, counted from zero, and a character of it.
#[derive(Debug, Clone, Copy, PartialEq, Eq)]
pub struct Position {
    pub line: u32,
    pub character: u32,
}

/// The part of a text between two places.
#[derive(Debug, Clone, Copy, PartialEq, Eq)]
pub struct Span {
    pub start: Position,
    pub end: Position,
}

/// One change to a document: a new text for the part in `range`, or, with
/// no range, for the whole document.
#[derive(Debug, Clone)]
pub struct ContentChange {
    pub range: Option<Span>,
    pub text: String,
}

/// A change, as a mathematical value.
pub struct ContentChangeView {
    pub range: Option<Span>,
    pub text: Seq<char>,
}

impl View for ContentChange {
    type V = ContentChangeView;

    open spec fn view(&self) -> ContentChangeView {
        ContentChangeView { range: self.range, text: self.text@ }
    }
}

/// The views of the changes in `changes`.
pub open spec fn changes_view(changes: Seq<ContentChange>) -> Seq<ContentChangeView> {
    Seq::new(changes.len(), |i: int| changes[i]@)
}

// ---------------------------------------------------------------------------
// Places and offsets
// ---------------------------------------------------------------------------

/// The offset in `text` of the character `character` of line `line`.
///
/// Lines are counted by line feeds, and the line feed is one character of
/// the offset. A character past the end of its line stands for the end of
/// the line, and a line past the last one for the end of the text.
pub open spec fn offset_of(text: Seq<char>, line: nat, character: nat) -> nat
    decreases line,
{
    let k = first_of(text, newline());
    if line == 0 {
        if character < k {
            character
        } else {
            k
        }
    } else if k >= text.len() {
        text.len()
    } else {
        k + 1 + offset_of(text.skip(k as int + 1), (line - 1) as nat, character)
    }
}

/// An offset is within the text.
pub proof fn lemma_offset_in_text(text: Seq<char>, line: nat, character: nat)
    ensures
        offset_of(text, line, character) <= text.len(),
    decreases line,
{
    let k = first_of(text, newline());
    lemma_first_of(text, newline());
    if line > 0 && k < text.len() {
        lemma_offset_in_text(text.skip(k as int + 1), (line - 1) as nat, character);
    }
}

/// A line at or past the number of lines of a text stands for the end of
/// the text.
pub proof fn lemma_offset_past_last_line(text: Seq<char>, line: nat)
    requires
        line >= lines(text).len(),
    ensures
        offset_of(text, line, 0) == text.len(),
    decreases line,
{
    let k = first_of(text, newline());
    lemma_first_of(text, newline());
    if text.len() == 0 {
    } else if k >= text.len() {
        assert(lines(text).len() == 1);
    } else {
        let rest = text.skip(k as int + 1);
        assert(lines(text).len() == 1 + lines(rest).len());
        lemma_offset_past_last_line(rest, (line - 1) as nat);
    }
}

/// The line and the character at which the offset `offset` of `text`
/// lies. The line feed counts as the last character of its line, and so
/// does the end of a text that does not end in a line feed; an offset
/// past that lies at the start of the line after the last.
pub open spec fn position_of(text: Seq<char>, offset: nat) -> (nat, nat)
    decreases text.len(),
{
    let k = first_of(text, newline());
    if text.len() == 0 {
        (0, 0)
    } else if offset <= k {
        (0, offset)
    } else if k >= text.len() {
        (1, 0)
    } else {
        let rest = position_of(text.skip(k as int + 1), (offset - k - 1) as nat);
        (rest.0 + 1, rest.1)
    }
}

/// The place of an offset stands for that offset: the offset of the place at
/// which an offset of the text lies is the offset itself.
pub proof fn lemma_place_of_offset(text: Seq<char>, offset: nat)
    requires
        offset <= text.len(),
    ensures
        offset_of(text, position_of(text, offset).0, position_of(text, offset).1) == offset,
    decreases text.len(),
{
    let k = first_of(text, newline());
    lemma_first_of(text, newline());
    if text.len() > 0 && offset > k {
        lemma_place_of_offset(text.skip(k as int + 1), (offset - k - 1) as nat);
    }
}

/// The text after one change. A range whose end lies before its start is
/// taken to end where it starts.
pub open spec fn apply_change(text: Seq<char>, change: ContentChangeView) -> Seq<char> {
    match change.range {
        Some(range) => {
            let start = offset_of(text, range.start.line as nat, range.start.character as nat);
            let end = offset_of(text, range.end.line as nat, range.end.character as nat);
            let stop = if end < start {
                start
            } else {
                end
            };
            text.take(start as int) + change.text + text.skip(stop as int)
        },
        None => change.text,
    }
}

/// The text after the changes, applied one after the other.
pub open spec fn apply_changes(text: Seq<char>, changes: Seq<ContentChangeView>) -> Seq<char>
    decreases changes.len(),
{
    if changes.len() == 0 {
        text
    } else {
        apply_change(apply_changes(text, changes.drop_last()), changes.last())
    }
}

/// Changes that arrive in two notifications act as if they had arrived in
/// one.
pub proof fn lemma_apply_changes_concat(
    text: Seq<char>,
    first: Seq<ContentChangeView>,
    second: Seq<ContentChangeView>,
)
    ensures
        apply_changes(text, first + second) == apply_changes(apply_changes(text, first), second),
    decreases second.len(),
{
    if second.len() == 0 {
        assert(first + second =~= first);
    } else {
        assert((first + second).drop_last() =~= first + second.drop_last());
        assert((first + second).last() == second.last());
        lemma_apply_changes_concat(text, first, second.drop_last());
    }
}

/// The offset in `text` of the character `character` of line `line`.
fn offset_in(text: &Vec<char>, line: u32, character: u32) -> (r: usize)
    ensures
        r == offset_of(text@, line as nat, character as nat),
        r <= text.len(),
{
    let mut nl: Vec<char> = Vec::new();
    nl.push('\n');
    assert(nl@ == newline());
    let mut start: usize = 0;
    let mut l: u32 = 0;
    assert(text@.skip(0) == text@);
    loop
        invariant
            start <= text.len(),
            l <= line,
            nl@ == newline(),
            offset_of(text@, line as nat, character as nat) == start + offset_of(
                text@.skip(start as int),
                (line - l) as nat,
                character as nat,
            ),
        decreases line - l,
    {
        let end = first_of_chars(text, start, &nl);
        if l == line {
            let width = end - start;
            return if (character as usize) < width {
                start + character as usize
            } else {
                end
            };
        }
        if end >= text.len() {
            return text.len();
        }
        proof {
            assert(text@.skip(start as int).skip(end - start + 1) == text@.skip(end + 1));
        }
        start = end + 1;
        l = l + 1;
    }
}

/// The offset in `text` of the place `position`.
pub fn position_to_offset(text: &str, position: Position) -> (r: usize)
    ensures
        r == offset_of(text@, position.line as nat, position.character as nat),
        r <= text@.len(),
{
    let chars = str_to_chars(text);
    offset_in(&chars, position.line, position.character)
}

fn line_number(n: usize) -> (r: u32)
    ensures
        r == if n > u32::MAX {
            u32::MAX
        } else {
            n as u32
        },
{
    if n > 0xffff_ffff {
        0xffff_ffff
    } else {
        n as u32
    }
}

/// The place in `text` of the offset `offset`. A line or a character
/// beyond the largest number of a place gets that number.
pub fn offset_to_position(text: &str, offset: usize) -> (r: Position)
    ensures
        r.line == if position_of(text@, offset as nat).0 > u32::MAX {
            u32::MAX as int
        } else {
            position_of(text@, offset as nat).0 as int
        },
        r.character == if position_of(text@, offset as nat).1 > u32::MAX {
            u32::MAX as int
        } else {
            position_of(text@, offset as nat).1 as int
        },
{
    let chars = str_to_chars(text);
    let mut nl: Vec<char> = Vec::new();
    nl.push('\n');
    assert(nl@ == newline());
    let mut start: usize = 0;
    let mut line: usize = 0;
    assert(chars@.skip(0) == chars@);
    loop
        invariant
            start <= chars.len(),
            start <= offset,
            line <= start,
            chars@ == text@,
            nl@ == newline(),
            position_of(text@, offset as nat).0 == line + position_of(
                chars@.skip(start as int),
                (offset - start) as nat,
            ).0,
            position_of(text@, offset as nat).1 == position_of(
                chars@.skip(start as int),
                (offset - start) as nat,
            ).1,
        decreases chars.len() - start,
    {
        if start >= chars.len() {
            return Position { line: line_number(line), character: 0 };
        }
        let end = first_of_chars(&chars, start, &nl);
        if offset <= end {
            return Position { line: line_number(line), character: line_number(offset - start) };
        }
        if end >= chars.len() {
            return Position { line: line_number(line + 1), character: 0 };
        }
        proof {
            assert(chars@.skip(start as int).skip(end - start + 1) == chars@.skip(end + 1));
        }
        start = end + 1;
        line = line + 1;
    }
}

fn change_text(text: &String, change: &ContentChange) -> (r: String)
    ensures
        r@ == apply_change(text@, change@),
{
    match change.range {
        Some(range) => {
            let chars = str_to_chars(text.as_str());
            let start = offset_in(&chars, range.start.line, range.start.character);
            let end = offset_in(&chars, range.end.line, range.end.character);
            let stop = if end < start {
                start
            } else {
                end
            };
            let mut out = slice_chars(&chars, 0, start);
            let middle = str_to_chars(change.text.as_str());
            append_chars(&mut out, &middle);
            let tail = slice_chars(&chars, stop, chars.len());
            append_chars(&mut out, &tail);
            proof {
                assert(chars@.subrange(0, start as int) == text@.take(start as int));
                assert(chars@.subrange(stop as int, chars.len() as int) == text@.skip(stop as int));
            }
            chars_to_string(&out)
        },
        None => change.text.clone(),
    }
}

// ---------------------------------------------------------------------------
// The store
// ---------------------------------------------------------------------------

struct Entry {
    uri: String,
    document: Document,
}

/// The documents that are open, by their URI.
pub struct DocumentStore {
    entries: Vec<Entry>,
}

impl DocumentStore {
    spec fn holds(&self, i: int, uri: Seq<char>) -> bool {
        0 <= i < self.entries.len() && self.entries[i].uri@ == uri
    }

    /// Whether the store is well formed: no document has two entries.
    pub closed spec fn wf(&self) -> bool {
        forall|i: int, j: int|
            0 <= i < j < self.entries.len() ==> self.entries[i].uri@ != self.entries[j].uri@
    }

    /// The open documents, by their URI.
    pub closed spec fn view(&self) -> Map<Seq<char>, DocumentView> {
        Map::new(
            |uri: Seq<char>| exists|i: int| self.holds(i, uri),
            |uri: Seq<char>| self.entries[choose|i: int| self.holds(i, uri)].document@,
        )
    }

    proof fn lemma_entry(&self, i: int)
        requires
            self.wf(),
            0 <= i < self.entries.len(),
        ensures
            self@.dom().contains(self.entries[i].uri@),
            self@[self.entries[i].uri@] == self.entries[i].document@,
    {
        let uri = self.entries[i].uri@;
        assert(self.holds(i, uri));
        let k = choose|k: int| self.holds(k, uri);
        assert(k == i);
    }

    /// Two stores whose entries differ for the document `key` only hold the
    /// same documents but for that one.
    proof fn lemma_same_elsewhere(&self, other: &DocumentStore, key: Seq<char>)
        requires
            self.wf(),
            other.wf(),
            self.entries.len() <= other.entries.len(),
            forall|a: int|
                0 <= a < self.entries.len() ==> other.entries[a].uri@ == self.entries[a].uri@,
            forall|a: int|
                0 <= a < self.entries.len() && self.entries[a].uri@ != key
                    ==> other.entries[a].document@ == self.entries[a].document@,
            forall|a: int|
                self.entries.len() <= a < other.entries.len() ==> other.entries[a].uri@ == key,
        ensures
            forall|u: Seq<char>|
                u != key ==> (#[trigger] other@.dom().contains(u) <==> self@.dom().contains(u)),
            forall|u: Seq<char>|
                u != key && self@.dom().contains(u) ==> #[trigger] other@[u] == self@[u],
    {
        assert forall|u: Seq<char>| u != key implies (#[trigger] other@.dom().contains(u)
            <==> self@.dom().contains(u)) by {
            if exists|a: int| self.holds(a, u) {
                let a = choose|a: int| self.holds(a, u);
                assert(other.holds(a, u));
            }
            if exists|a: int| other.holds(a, u) {
                let a = choose|a: int| other.holds(a, u);
                assert(self.holds(a, u));
            }
        }
        assert forall|u: Seq<char>| u != key && self@.dom().contains(u) implies #[trigger] other@[u]
            == self@[u] by {
            let a = choose|a: int| self.holds(a, u);
            assert(other.holds(a, u));
            self.lemma_entry(a);
            other.lemma_entry(a);
        }
    }

    /// A store without documents.
    pub fn new() -> (r: Self)
        ensures
            r.wf(),
            r@ == Map::<Seq<char>, DocumentView>::empty(),
    {
        let r = DocumentStore { entries: Vec::new() };
        assert(r@ =~= Map::<Seq<char>, DocumentView>::empty());
        r
    }

    fn find(&self, uri: &str) -> (r: Option<usize>)
        ensures
            match r {
                Some(i) => self.holds(i as int, uri@),
                None => forall|i: int| !self.holds(i, uri@),
            },
    {
        let mut i: usize = 0;
        while i < self.entries.len()
            invariant
                i <= self.entries.len(),
                forall|k: int| 0 <= k < i ==> !self.holds(k, uri@),
            decreases self.entries.len() - i,
        {
            if str_eq(self.entries[i].uri.as_str(), uri) {
                return Some(i);
            }
            i += 1;
        }
        None
    }

    /// Opens the document `uri`, or replaces it when it is open already.
    pub fn open(&mut self, uri: String, text: String, version: i32, language_id: String)
        requires
            old(self).wf(),
        ensures
            final(self).wf(),
            final(self)@ == old(self)@.insert(
                uri@,
                DocumentView { text: text@, version, language_id: language_id@ },
            ),
    {
        let ghost key = uri@;
        let ghost value = DocumentView { text: text@, version, language_id: language_id@ };
        let document = Document { text, version, language_id };
        match self.find(uri.as_str()) {
            Some(i) => {
                self.entries[i].document = document;
                proof {
                    assert(self.entries.len() == old(self).entries.len());
                    assert forall|a: int| 0 <= a < self.entries.len() implies self.entries[a].uri
                        == old(self).entries[a].uri by {}
                    assert(self.wf());
                    self.lemma_entry(i as int);
                    old(self).lemma_same_elsewhere(self, key);
                    assert(self@ =~= old(self)@.insert(key, value));
                }
            },
            None => {
                self.entries.push(Entry { uri, document });
                proof {
                    let n = old(self).entries.len() as int;
                    assert forall|a: int| 0 <= a < n implies self.entries[a] == old(
                        self,
                    ).entries[a] by {}
                    assert forall|a: int| 0 <= a < n implies self.entries[a].uri@ != key by {
                        assert(!old(self).holds(a, key));
                    }
                    assert(self.wf());
                    self.lemma_entry(n);
                    old(self).lemma_same_elsewhere(self, key);
                    assert(self@ =~= old(self)@.insert(key, value));
                }
            },
        }
    }

    /// Applies the changes of one notification to the document `uri`, one
    /// after the other, and sets its version. A document that is not open
    /// stays so, and nothing else changes.
    pub fn change(&mut self, uri: &str, version: i32, changes: &[ContentChange])
        requires
            old(self).wf(),
        ensures
            final(self).wf(),
            !old(self)@.dom().contains(uri@) ==> final(self)@ == old(self)@,
            old(self)@.dom().contains(uri@) ==> final(self)@ == old(self)@.insert(
                uri@,
                DocumentView {
                    text: apply_changes(old(self)@[uri@].text, changes_view(changes@)),
                    version,
                    language_id: old(self)@[uri@].language_id,
                },
            ),
    {
        let i = match self.find(uri) {
            Some(i) => i,
            None => {
                return ;
            },
        };
        proof {
            self.lemma_entry(i as int);
        }
        let ghost before = self.entries[i as int].document@;
        let mut text = self.entries[i].document.text.clone();
        let mut k: usize = 0;
        while k < changes.len()
            invariant
                k <= changes.len(),
                text@ == apply_changes(before.text, changes_view(changes@).take(k as int)),
            decreases changes.len() - k,
        {
            proof {
                let all = changes_view(changes@);
                assert(all.take(k + 1).drop_last() == all.take(k as int));
                assert(all.take(k + 1).last() == changes@[k as int]@);
            }
            text = change_text(&text, &changes[k]);
            k += 1;
        }
        assert(changes_view(changes@).take(changes.len() as int) == changes_view(changes@));
        self.entries[i].document.text = text;
        self.entries[i].document.version = version;
        proof {
            let value = DocumentView {
                text: apply_changes(before.text, changes_view(changes@)),
                version,
                language_id: before.language_id,
            };
            assert(self.entries.len() == old(self).entries.len());
            assert forall|a: int| 0 <= a < self.entries.len() implies self.entries[a].uri == old(
                self,
            ).entries[a].uri by {}
            assert forall|a: int| 0 <= a < self.entries.len() && a != i implies self.entries[a]
                == old(self).entries[a] by {}
            assert(self.wf());
            self.lemma_entry(i as int);
            old(self).lemma_same_elsewhere(self, uri@);
            assert(self@ =~= old(self)@.insert(uri@, value));
        }
    }

    /// A copy of the document `uri` as it is now, if it is open.
    pub fn get(&self, uri: &str) -> (r: Option<Document>)
        requires
            self.wf(),
        ensures
            match r {
                Some(document) => self@.dom().contains(uri@) && self@[uri@] == document@,
                None => !self@.dom().contains(uri@),
            },
    {
        match self.find(uri) {
            Some(i) => {
                proof {
                    self.lemma_entry(i as int);
                }
                Some(
                    Document {
                        text: self.entries[i].document.text.clone(),
                        version: self.entries[i].document.version,
                        language_id: self.entries[i].document.language_id.clone(),
                    },
                )
            },
            None => None,
        }
    }
}

impl Default for DocumentStore {
    fn default() -> (r: Self)
        ensures
            r.wf(),
            r@ == Map::<Seq<char>, DocumentView>::empty(),
    {
        DocumentStore::new()
    }
}

} // verus!
