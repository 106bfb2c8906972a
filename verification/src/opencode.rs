//! The OpenCode agent: its prompt, its command line, the events it prints,
//! and what is said when it fails.

use vstd::prelude::*;
use crate::backend::{AgentCommand, Backend, CommandView};
use crate::config::BackendType;
use crate::text::{
    decimal, opt_string, push_decimal, push_text, str_eq, strip_code_fence, trim, trim_str,
};
use crate::utils::strip_markdown_code_block;

verus! {

/// The prompt that asks the agent to implement the function at the given
/// place of the file whose text is `file_contents`, and to write it to
/// `output_path`. Line and character are counted from zero, and the prompt
/// counts them from one. The language is not named in it.
pub open spec fn prompt_text(
    line: u32,
    character: u32,
    language_id: Seq<char>,
    file_contents: Seq<char>,
    output_path: Seq<char>,
) -> Seq<char> {
    "Implement the function body at line "@ + decimal((line + 1) as nat) + ", character "@
        + decimal((character + 1) as nat)
        + " in the following file. Write ONLY the function implementation (signature and body) to the file: "@
        + output_path
        + " Do NOT include any other code from the source file (no imports, no other functions). Do NOT output the code to stdout. Output only status messages or confirmation.\n\n<FILE-CONTENT>\n"@
        + file_contents
        + "</FILE-CONTENT> \n\n<MUST-OBEY>\nYou can overwrite the output file's content, but NEVER read it, just write to it.\nDescribe your steps before performing them.\n</MUST-OBEY> "@
}

/// The prompt for one function. See `prompt_text`.
pub fn build_prompt(
    line: u32,
    character: u32,
    language_id: &str,
    file_contents: &str,
    output_path: &str,
) -> (r: String)
    ensures
        r@ == prompt_text(line, character, language_id@, file_contents@, output_path@),
{
    let mut out = String::new();
    push_text(&mut out, "Implement the function body at line ");
    push_decimal(&mut out, line as u64 + 1);
    push_text(&mut out, ", character ");
    push_decimal(&mut out, character as u64 + 1);
    push_text(
        &mut out,
        " in the following file. Write ONLY the function implementation (signature and body) to the file: ",
    );
    push_text(&mut out, output_path);
    push_text(
        &mut out,
        " Do NOT include any other code from the source file (no imports, no other functions). Do NOT output the code to stdout. Output only status messages or confirmation.\n\n<FILE-CONTENT>\n",
    );
    push_text(&mut out, file_contents);
    push_text(
        &mut out,
        "</FILE-CONTENT> \n\n<MUST-OBEY>\nYou can overwrite the output file's content, but NEVER read it, just write to it.\nDescribe your steps before performing them.\n</MUST-OBEY> ",
    );
    assert(out@ =~= prompt_text(line, character, language_id@, file_contents@, output_path@));
    out
}

/// The command line that runs the agent on `prompt`, so that it prints its
/// events as JSON values, one on each line.
pub open spec fn command_line(prompt: Seq<char>) -> CommandView {
    CommandView {
        program: "opencode"@,
        args: seq![
            "run"@,
            "--format"@,
            "json"@,
            "--attach"@,
            "http://localhost:1337"@,
            prompt,
        ],
    }
}

/// What is said when the agent has failed: what it wrote to its error
/// output.
pub open spec fn failure_text(stderr: Seq<char>) -> Seq<char> {
    "opencode CLI failed: "@ + stderr
}

/// The command line that runs the agent on `prompt` with the model `model`,
/// so that it prints plain text as it works.
pub open spec fn streaming_command_line(model: Seq<char>, prompt: Seq<char>) -> CommandView {
    CommandView { program: "opencode"@, args: seq!["run"@, "--model"@, model, prompt] }
}

/// What is said when the agent has failed while it printed plain text: all
/// that it had printed.
pub open spec fn streaming_failure_text(printed: Seq<char>) -> Seq<char> {
    "opencode CLI failed: "@ + printed
}

/// The content of an event.
#[derive(Debug, Clone)]
pub struct Part {
    /// The kind of the part: `text`, `step-start`, `step-finish`, and so on.
    pub part_type: Option<String>,
    /// The text of a part of the kind `text`.
    pub text: Option<String>,
}

/// One event of the agent's output, which is a sequence of JSON values,
/// one on each line.
#[derive(Debug, Clone)]
pub struct OpenCodeEvent {
    /// The kind of the event: `text`, `step_start`, `step_finish`, and so on.
    pub event_type: String,
    /// The content of the event.
    pub part: Option<Part>,
}

/// A part, as a mathematical value.
pub struct PartView {
    pub part_type: Option<Seq<char>>,
    pub text: Option<Seq<char>>,
}

/// An event, as a mathematical value.
pub struct EventView {
    pub event_type: Seq<char>,
    pub part: Option<PartView>,
}

impl View for Part {
    type V = PartView;

    open spec fn view(&self) -> PartView {
        PartView { part_type: opt_string(self.part_type), text: opt_string(self.text) }
    }
}

impl View for OpenCodeEvent {
    type V = EventView;

    open spec fn view(&self) -> EventView {
        EventView {
            event_type: self.event_type@,
            part: match self.part {
                Some(part) => Some(part@),
                None => None,
            },
        }
    }
}

/// The text that an event carries: that of an event of the kind `text`
/// whose part is of the kind `text` too.
pub open spec fn event_text(event: EventView) -> Option<Seq<char>> {
    if event.event_type == "text"@ {
        match event.part {
            Some(part) => if part.part_type == Some("text"@) {
                part.text
            } else {
                None
            },
            None => None,
        }
    } else {
        None
    }
}

/// The text that a line of output carries, where `None` stands for a line
/// that is no event.
pub open spec fn line_text(line: Option<EventView>) -> Seq<char> {
    match line {
        Some(event) => match event_text(event) {
            Some(text) => text,
            None => Seq::empty(),
        },
        None => Seq::empty(),
    }
}

/// The texts of the events, one after the other.
pub open spec fn events_text(lines: Seq<Option<EventView>>) -> Seq<char>
    decreases lines.len(),
{
    if lines.len() == 0 {
        Seq::empty()
    } else {
        events_text(lines.drop_last()) + line_text(lines.last())
    }
}

/// The views of the lines of output in `lines`.
pub open spec fn events_view(lines: Seq<Option<OpenCodeEvent>>) -> Seq<Option<EventView>> {
    Seq::new(
        lines.len(),
        |i: int|
            match lines[i] {
                Some(event) => Some(event@),
                None => None,
            },
    )
}

/// What is said when the output of the agent holds no text.
pub open spec fn no_text_message() -> Seq<char> {
    "No text content found in opencode output"@
}

/// The text that an event carries, if it carries any.
pub fn extract_text_from_event(event: &OpenCodeEvent) -> (r: Option<String>)
    ensures
        opt_string(r) == event_text(event@),
{
    if !str_eq(event.event_type.as_str(), "text") {
        return None;
    }
    match &event.part {
        Some(part) => match &part.part_type {
            Some(kind) => if str_eq(kind.as_str(), "text") {
                match &part.text {
                    Some(text) => Some(text.clone()),
                    None => None,
                }
            } else {
                None
            },
            None => None,
        },
        None => None,
    }
}

/// Takes one more event of what the agent prints. The text that the event
/// carries is added to `text`, and the preview is all of it, without the
/// fence of a code block round it and trimmed. An event that carries no
/// text leaves `text` as it is and gives no preview.
pub fn next_event_preview(text: &mut String, event: &OpenCodeEvent) -> (preview: Option<String>)
    ensures
        final(text)@ == old(text)@ + line_text(Some(event@)),
        match preview {
            Some(shown) => event_text(event@) is Some && shown@ == trim(
                strip_code_fence(final(text)@),
            ),
            None => event_text(event@) is None,
        },
{
    match extract_text_from_event(event) {
        Some(written) => {
            push_text(text, written.as_str());
            let stripped = strip_markdown_code_block(text.as_str());
            Some(trim_str(stripped.as_str()))
        },
        None => {
            assert(old(text)@ + Seq::<char>::empty() =~= old(text)@);
            None
        },
    }
}

/// All the text that the lines of output carry, where `None` stands for a
/// line that is no event. Output without any text is an error.
pub fn extract_text_from_events(lines: &[Option<OpenCodeEvent>]) -> (r: Result<String, String>)
    ensures
        match r {
            Ok(text) => text@ == events_text(events_view(lines@)) && text@.len() > 0,
            Err(message) => events_text(events_view(lines@)).len() == 0 && message@
                == no_text_message(),
        },
{
    let mut out = String::new();
    let mut i: usize = 0;
    while i < lines.len()
        invariant
            i <= lines.len(),
            out@ == events_text(events_view(lines@).take(i as int)),
        decreases lines.len() - i,
    {
        proof {
            let all = events_view(lines@);
            assert(all.take(i + 1).drop_last() == all.take(i as int));
        }
        if let Some(event) = &lines[i] {
            if let Some(text) = extract_text_from_event(event) {
                push_text(&mut out, text.as_str());
            }
        }
        proof {
            assert(out@ =~= events_text(events_view(lines@).take(i + 1)));
        }
        i += 1;
    }
    assert(events_view(lines@).take(lines.len() as int) == events_view(lines@));
    if out.as_str().unicode_len() == 0 {
        return Err("No text content found in opencode output".to_string());
    }
    Ok(out)
}

/// The client of the OpenCode agent.
pub struct OpenCodeClient;

impl OpenCodeClient {
    /// The client of the OpenCode agent.
    pub fn new() -> (r: Self) {
        OpenCodeClient
    }

    /// The command line that runs the agent on `prompt` with the model
    /// `model`, so that it prints plain text as it works.
    pub fn streaming_command(&self, model: &str, prompt: &str) -> (r: AgentCommand)
        ensures
            r@ == streaming_command_line(model@, prompt@),
    {
        let mut args: Vec<String> = Vec::new();
        args.push("run".to_string());
        args.push("--model".to_string());
        args.push(model.to_string());
        args.push(prompt.to_string());
        let r = AgentCommand { program: "opencode".to_string(), args };
        assert(r@.args =~= streaming_command_line(model@, prompt@).args);
        r
    }

    /// What is said when the agent has failed while it printed plain text,
    /// after it had printed `printed`.
    pub fn streaming_failure(&self, printed: &str) -> (r: String)
        ensures
            r@ == streaming_failure_text(printed@),
    {
        let mut out = String::new();
        push_text(&mut out, "opencode CLI failed: ");
        push_text(&mut out, printed);
        assert(out@ =~= streaming_failure_text(printed@));
        out
    }
}

impl Default for OpenCodeClient {
    fn default() -> (r: Self) {
        OpenCodeClient::new()
    }
}

impl Backend for OpenCodeClient {
    open spec fn kind(&self) -> BackendType {
        BackendType::OpenCode
    }

    fn backend_type(&self) -> (r: BackendType) {
        BackendType::OpenCode
    }

    fn prompt(
        &self,
        line: u32,
        character: u32,
        language_id: &str,
        file_contents: &str,
        output_path: &str,
        function_signature: &str,
    ) -> (r: String) {
        build_prompt(line, character, language_id, file_contents, output_path)
    }

    fn command(&self, prompt: &str) -> (r: AgentCommand) {
        let mut args: Vec<String> = Vec::new();
        args.push("run".to_string());
        args.push("--format".to_string());
        args.push("json".to_string());
        args.push("--attach".to_string());
        args.push("http://localhost:1337".to_string());
        args.push(prompt.to_string());
        let r = AgentCommand { program: "opencode".to_string(), args };
        assert(r@.args =~= command_line(prompt@).args);
        r
    }

    fn failure(&self, stderr: &str, printed: &str, exit_code: Option<i32>) -> (r: String) {
        let mut out = String::new();
        push_text(&mut out, "opencode CLI failed: ");
        push_text(&mut out, stderr);
        assert(out@ =~= failure_text(stderr@));
        out
    }
}

} // verus!
