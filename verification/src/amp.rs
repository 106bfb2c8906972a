//! The Amp agent: its prompt, its command line, the result it prints, and
//! what is said when it fails.

use vstd::prelude::*;
use crate::backend::{AgentCommand, Backend, CommandView};
use crate::config::BackendType;
use crate::text::{
    decimal, push_decimal, push_text, result_view, str_eq, strip_code_fence, trim, trim_str,
};
use crate::utils::strip_markdown_code_block;

verus! {

/// The prompt that asks the agent for the body of the function at the given
/// place of the file whose text is `file_contents`. Line and character are
/// counted from zero, and the prompt counts them from one.
pub open spec fn prompt_text(
    line: u32,
    character: u32,
    language_id: Seq<char>,
    file_contents: Seq<char>,
) -> Seq<char> {
    "Implement the function body at line "@ + decimal((line + 1) as nat) + ", character "@
        + decimal((character + 1) as nat) + " in the following "@ + language_id
        + " file. Output ONLY the raw code for the function body (the code that goes between the curly braces). Do NOT include the function signature/declaration. Do NOT wrap the output in markdown code blocks. Do NOT include any explanations. Just output the raw implementation code:\n\n"@
        + file_contents
}

/// The prompt for one function. See `prompt_text`.
pub fn build_prompt(line: u32, character: u32, language_id: &str, file_contents: &str) -> (r:
    String)
    ensures
        r@ == prompt_text(line, character, language_id@, file_contents@),
{
    let mut out = String::new();
    push_text(&mut out, "Implement the function body at line ");
    push_decimal(&mut out, line as u64 + 1);
    push_text(&mut out, ", character ");
    push_decimal(&mut out, character as u64 + 1);
    push_text(&mut out, " in the following ");
    push_text(&mut out, language_id);
    push_text(
        &mut out,
        " file. Output ONLY the raw code for the function body (the code that goes between the curly braces). Do NOT include the function signature/declaration. Do NOT wrap the output in markdown code blocks. Do NOT include any explanations. Just output the raw implementation code:\n\n",
    );
    push_text(&mut out, file_contents);
    assert(out@ =~= prompt_text(line, character, language_id@, file_contents@));
    out
}

/// The command line that runs the agent on `prompt`.
pub open spec fn command_line(prompt: Seq<char>) -> CommandView {
    CommandView { program: "amp"@, args: seq!["--execute"@, prompt, "--stream-json"@] }
}

/// What is said when the agent has failed: what it wrote to its error
/// output.
pub open spec fn failure_text(stderr: Seq<char>) -> Seq<char> {
    "amp CLI failed: "@ + stderr
}

/// One message of the agent's output, which is a sequence of JSON values,
/// one on each line.
#[derive(Debug, Clone)]
pub struct AmpResult {
    /// The kind of the message. The last message of the kind `result`
    /// holds the answer.
    pub msg_type: String,
    /// The answer, or the error.
    pub result: Option<String>,
    /// Whether `result` is an error.
    pub is_error: Option<bool>,
}

/// A message, as a mathematical value.
pub struct ResultView {
    pub msg_type: Seq<char>,
    pub result: Option<Seq<char>>,
    pub is_error: Option<bool>,
}

impl View for AmpResult {
    type V = ResultView;

    open spec fn view(&self) -> ResultView {
        ResultView {
            msg_type: self.msg_type@,
            result: match self.result {
                Some(s) => Some(s@),
                None => None,
            },
            is_error: self.is_error,
        }
    }
}

/// The views of the lines of output in `lines`.
pub open spec fn results_view(lines: Seq<Option<AmpResult>>) -> Seq<Option<ResultView>> {
    Seq::new(
        lines.len(),
        |i: int|
            match lines[i] {
                Some(message) => Some(message@),
                None => None,
            },
    )
}

/// Whether a line of output is a message of the kind `result`.
pub open spec fn is_result(line: Option<ResultView>) -> bool {
    line matches Some(message) && message.msg_type == "result"@
}

/// What a message holds, or the empty text.
pub open spec fn result_text(message: ResultView) -> Seq<char> {
    match message.result {
        Some(text) => text,
        None => Seq::empty(),
    }
}

/// What the agent has answered, given the lines of its output, where `None`
/// stands for a line that is no message: the last message of the kind
/// `result` decides. Its text is the implementation, without the fence of a
/// code block round it and trimmed, or it is the error of the agent.
pub open spec fn answer(lines: Seq<Option<ResultView>>) -> Result<Seq<char>, Seq<char>>
    decreases lines.len(),
{
    if lines.len() == 0 {
        Err("No result found in amp output"@)
    } else if is_result(lines.last()) {
        let message = lines.last().unwrap();
        if message.is_error == Some(true) {
            Err("amp returned error: "@ + result_text(message))
        } else {
            Ok(trim(strip_code_fence(result_text(message))))
        }
    } else {
        answer(lines.drop_last())
    }
}

/// What the agent has answered, given the lines of its output. See `answer`.
pub fn final_result(lines: &[Option<AmpResult>]) -> (r: Result<String, String>)
    ensures
        result_view(r) == answer(results_view(lines@)),
{
    let mut i: usize = lines.len();
    assert(results_view(lines@).take(lines.len() as int) == results_view(lines@));
    while i > 0
        invariant
            i <= lines.len(),
            answer(results_view(lines@)) == answer(results_view(lines@).take(i as int)),
        decreases i,
    {
        let ghost all = results_view(lines@);
        proof {
            assert(all.take(i as int).drop_last() == all.take(i - 1));
        }
        if let Some(message) = &lines[i - 1] {
            if str_eq(message.msg_type.as_str(), "result") {
                let text: String = match &message.result {
                    Some(text) => text.clone(),
                    None => String::new(),
                };
                let failed = match message.is_error {
                    Some(flag) => flag,
                    None => false,
                };
                if failed {
                    let mut out = String::new();
                    push_text(&mut out, "amp returned error: ");
                    push_text(&mut out, text.as_str());
                    assert(out@ =~= "amp returned error: "@ + result_text(message@));
                    return Err(out);
                }
                let stripped = strip_markdown_code_block(text.as_str());
                return Ok(trim_str(stripped.as_str()));
            }
        }
        i -= 1;
    }
    assert(results_view(lines@).take(0).len() == 0);
    Err("No result found in amp output".to_string())
}

/// The client of the Amp agent.
pub struct AmpClient;

impl AmpClient {
    /// The client of the Amp agent.
    pub fn new() -> (r: Self) {
        AmpClient
    }
}

impl Default for AmpClient {
    fn default() -> (r: Self) {
        AmpClient::new()
    }
}

impl Backend for AmpClient {
    open spec fn kind(&self) -> BackendType {
        BackendType::Amp
    }

    fn backend_type(&self) -> (r: BackendType) {
        BackendType::Amp
    }

    fn prompt(
        &self,
        line: u32,
        character: u32,
        language_id: &str,
        file_contents: &str,
        output_path: &str,
        function_signature: &str,
    ) -> (r: String) {
        build_prompt(line, character, language_id, file_contents)
    }

    fn command(&self, prompt: &str) -> (r: AgentCommand) {
        let mut args: Vec<String> = Vec::new();
        args.push("--execute".to_string());
        args.push(prompt.to_string());
        args.push("--stream-json".to_string());
        let r = AgentCommand { program: "amp".to_string(), args };
        assert(r@.args =~= command_line(prompt@).args);
        r
    }

    fn failure(&self, stderr: &str, printed: &str, exit_code: Option<i32>) -> (r: String) {
        let mut out = String::new();
        push_text(&mut out, "amp CLI failed: ");
        push_text(&mut out, stderr);
        assert(out@ =~= failure_text(stderr@));
        out
    }
}

} // verus!
