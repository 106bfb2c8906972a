//! The edits that the server asks the editor to apply.

use vstd::prelude::*;
use crate::document_store::{
    apply_change, lemma_offset_past_last_line, ContentChangeView, Position, Span,
};
use crate::text::{chars_to_string, lines, lines_view, push_text, split_lines, str_to_chars};

verus! {

/// A new text for a part of a document.
#[derive(Debug, Clone)]
pub struct TextEdit {
    pub range: Span,
    pub new_text: String,
}

/// The edits of one document, for the version of it that they were made
/// for.
#[derive(Debug, Clone)]
pub struct WorkspaceEdit {
    pub uri: String,
    pub version: Option<i32>,
    pub edits: Vec<TextEdit>,
}

/// An edit, as a mathematical value.
pub struct TextEditView {
    pub range: Span,
    pub new_text: Seq<char>,
}

/// The edits of one document, as a mathematical value.
pub struct WorkspaceEditView {
    pub uri: Seq<char>,
    pub version: Option<i32>,
    pub edits: Seq<TextEditView>,
}

impl View for TextEdit {
    type V = TextEditView;

    open spec fn view(&self) -> TextEditView {
        TextEditView { range: self.range, new_text: self.new_text@ }
    }
}

impl View for WorkspaceEdit {
    type V = WorkspaceEditView;

    open spec fn view(&self) -> WorkspaceEditView {
        WorkspaceEditView {
            uri: self.uri@,
            version: self.version,
            edits: Seq::new(self.edits@.len(), |i: int| self.edits@[i]@),
        }
    }
}

/// The number of a line, or the largest line number where there are more
/// lines than that.
pub open spec fn line_number(n: nat) -> u32 {
    if n > u32::MAX {
        u32::MAX
    } else {
        n as u32
    }
}

/// The range that covers a text whole: from its first character to the
/// start of the line after its last.
pub open spec fn whole_text(text: Seq<char>) -> Span {
    Span {
        start: Position { line: 0, character: 0 },
        end: Position { line: line_number(lines(text).len()), character: 0 },
    }
}

/// The edit that puts `new_text` in place of the whole of `current_text`.
pub open spec fn full_replace(uri: Seq<char>, current_text: Seq<char>, new_text: Seq<char>) -> WorkspaceEditView {
    WorkspaceEditView {
        uri,
        version: None,
        edits: seq![TextEditView { range: whole_text(current_text), new_text }],
    }
}

/// The line `line` of `text`, or the empty line where the text has no such
/// line.
pub open spec fn line_or_empty(text: Seq<char>, line: int) -> Seq<char> {
    if 0 <= line < lines(text).len() {
        lines(text)[line]
    } else {
        Seq::empty()
    }
}

/// The edit that puts `implementation` on a line of its own after line
/// `line` of `current_text`: the line gives way to itself, a line feed,
/// the implementation and a line feed.
pub open spec fn line_insert(
    uri: Seq<char>,
    current_text: Seq<char>,
    line: u32,
    implementation: Seq<char>,
    version: i32,
) -> WorkspaceEditView {
    WorkspaceEditView {
        uri,
        version: Some(version),
        edits: seq![
            TextEditView {
                range: Span {
                    start: Position { line, character: 0 },
                    end: Position { line: (line + 1) as u32, character: 0 },
                },
                new_text: line_or_empty(current_text, line as int) + seq!['\n'] + implementation
                    + seq!['\n'],
            },
        ],
    }
}

/// The editor that applies the whole-text edit to the text it was made for
/// has the new text, where the lines of the text can be counted.
pub proof fn lemma_full_replace_applies(current_text: Seq<char>, new_text: Seq<char>)
    requires
        lines(current_text).len() <= u32::MAX,
    ensures
        apply_change(
            current_text,
            ContentChangeView { range: Some(whole_text(current_text)), text: new_text },
        ) == new_text,
{
    lemma_offset_past_last_line(current_text, line_number(lines(current_text).len()) as nat);
    assert(current_text.take(0) + new_text + current_text.skip(current_text.len() as int)
        =~= new_text);
}

/// Builds the edits that the server sends.
pub struct WorkspaceEditBuilder;

impl WorkspaceEditBuilder {
    /// The edit that puts `implementation` on a line of its own after line
    /// `line` of `current_text`.
    pub fn create_line_insert(
        uri: &str,
        current_text: &str,
        line: u32,
        implementation: &str,
        version: i32,
    ) -> (r: WorkspaceEdit)
        requires
            line < u32::MAX,
        ensures
            r@ == line_insert(uri@, current_text@, line, implementation@, version),
    {
        let chars = str_to_chars(current_text);
        let ls = split_lines(&chars);
        let mut new_text = String::new();
        if (line as usize) < ls.len() {
            let current = chars_to_string(&ls[line as usize]);
            push_text(&mut new_text, current.as_str());
        }
        new_text.push('\n');
        push_text(&mut new_text, implementation);
        new_text.push('\n');
        assert(new_text@ =~= line_or_empty(current_text@, line as int) + seq!['\n']
            + implementation@ + seq!['\n']);
        let edit = TextEdit {
            range: Span {
                start: Position { line, character: 0 },
                end: Position { line: line + 1, character: 0 },
            },
            new_text,
        };
        let mut edits: Vec<TextEdit> = Vec::new();
        edits.push(edit);
        let r = WorkspaceEdit { uri: uri.to_string(), version: Some(version), edits };
        assert(r@.edits =~= line_insert(
            uri@,
            current_text@,
            line,
            implementation@,
            version,
        ).edits);
        r
    }

    /// The edit that puts `new_text` in place of the whole of
    /// `current_text`.
    pub fn create_full_replace(uri: &str, current_text: &str, new_text: &str) -> (r: WorkspaceEdit)
        ensures
            r@ == full_replace(uri@, current_text@, new_text@),
    {
        let chars = str_to_chars(current_text);
        let ls = split_lines(&chars);
        let count: u32 = if ls.len() > 0xffff_ffff {
            0xffff_ffff
        } else {
            ls.len() as u32
        };
        assert(lines_view(ls@).len() == ls.len());
        let edit = TextEdit {
            range: Span {
                start: Position { line: 0, character: 0 },
                end: Position { line: count, character: 0 },
            },
            new_text: new_text.to_string(),
        };
        let mut edits: Vec<TextEdit> = Vec::new();
        edits.push(edit);
        let r = WorkspaceEdit { uri: uri.to_string(), version: None, edits };
        assert(r@.edits =~= full_replace(uri@, current_text@, new_text@).edits);
        r
    }
}

} // verus!
