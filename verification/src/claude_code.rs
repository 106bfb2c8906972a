//! An agent that is told which function to implement and where to write it,
//! and that prints plain text while it works: its prompt, its command line,
//! and what is said when it fails. The program of the agent is named by the
//! caller.

use vstd::prelude::*;
use crate::backend::{AgentCommand, CommandView};
use crate::text::{
    decimal, push_decimal, push_signed_decimal, push_text, signed_decimal, trim, trim_str,
};

verus! {

/// The prompt that asks the agent to implement the function
/// `function_signature`, at the given place of the file whose text is
/// `file_contents`, and to write it to `output_path`. Line and character
/// are counted from zero, and the prompt counts them from one.
pub open spec fn prompt_text(
    line: u32,
    character: u32,
    language_id: Seq<char>,
    file_contents: Seq<char>,
    output_path: Seq<char>,
    function_signature: Seq<char>,
) -> Seq<char> {
    "Implement the function body at line "@ + decimal((line + 1) as nat) + ", character "@
        + decimal((character + 1) as nat) + " in the following "@ + language_id
        + " file. The function to implement is: `"@ + function_signature
        + "`\n\nIMPORTANT: Implement ONLY the function `"@ + function_signature
        + "` - do NOT implement any other functions in the file.\n\nWrite ONLY this function's implementation (signature and body) to the file: "@
        + output_path
        + " Do NOT include any other code from the source file (no imports, no other functions). Do NOT output the code to stdout. Output only status messages or confirmation.\n\n<FILE-CONTENT>\n"@
        + file_contents
        + "</FILE-CONTENT>\n\n<MUST-OBEY>\nYou can overwrite the output file's content, but NEVER read it, just write to it.\nDescribe your steps before performing them.\n</MUST-OBEY>"@
}

/// The prompt for one function. See `prompt_text`.
pub fn build_prompt(
    line: u32,
    character: u32,
    language_id: &str,
    file_contents: &str,
    output_path: &str,
    function_signature: &str,
) -> (r: String)
    ensures
        r@ == prompt_text(
            line,
            character,
            language_id@,
            file_contents@,
            output_path@,
            function_signature@,
        ),
{
    let mut out = String::new();
    push_text(&mut out, "Implement the function body at line ");
    push_decimal(&mut out, line as u64 + 1);
    push_text(&mut out, ", character ");
    push_decimal(&mut out, character as u64 + 1);
    push_text(&mut out, " in the following ");
    push_text(&mut out, language_id);
    push_text(&mut out, " file. The function to implement is: `");
    push_text(&mut out, function_signature);
    push_text(&mut out, "`\n\nIMPORTANT: Implement ONLY the function `");
    push_text(&mut out, function_signature);
    push_text(
        &mut out,
        "` - do NOT implement any other functions in the file.\n\nWrite ONLY this function's implementation (signature and body) to the file: ",
    );
    push_text(&mut out, output_path);
    push_text(
        &mut out,
        " Do NOT include any other code from the source file (no imports, no other functions). Do NOT output the code to stdout. Output only status messages or confirmation.\n\n<FILE-CONTENT>\n",
    );
    push_text(&mut out, file_contents);
    push_text(
        &mut out,
        "</FILE-CONTENT>\n\n<MUST-OBEY>\nYou can overwrite the output file's content, but NEVER read it, just write to it.\nDescribe your steps before performing them.\n</MUST-OBEY>",
    );
    assert(out@ =~= prompt_text(
        line,
        character,
        language_id@,
        file_contents@,
        output_path@,
        function_signature@,
    ));
    out
}

/// The arguments that the program of the agent is run with, for `prompt`.
pub open spec fn arguments_for(prompt: Seq<char>) -> Seq<Seq<char>> {
    seq![
        "-p"@,
        prompt,
        "--output-format"@,
        "text"@,
        "--model"@,
        "sonnet"@,
        "--dangerously-skip-permissions"@,
    ]
}

/// The command line that runs the program `program` of the agent on
/// `prompt`.
pub open spec fn command_line(program: Seq<char>, prompt: Seq<char>) -> CommandView {
    CommandView { program, args: arguments_for(prompt) }
}

/// How an exit code is written: as `Some` with the number, or `None`.
pub open spec fn exit_code_text(exit_code: Option<i32>) -> Seq<char> {
    match exit_code {
        Some(code) => "Some("@ + signed_decimal(code as int) + ")"@,
        None => "None"@,
    }
}

/// What is said of a run that has failed, after the name of the program:
/// what the agent wrote to its error output, or else what it had printed,
/// or else its exit code.
pub open spec fn failure_details(stderr: Seq<char>, printed: Seq<char>, exit_code: Option<i32>) -> Seq<
    char,
> {
    if trim(stderr).len() > 0 {
        trim(stderr)
    } else if trim(printed).len() > 0 {
        trim(printed)
    } else {
        "exit code: "@ + exit_code_text(exit_code)
    }
}

/// What is said when the program `program` of the agent has failed: the
/// name of the program, and what `failure_details` says of the run.
pub open spec fn failure_text(
    program: Seq<char>,
    stderr: Seq<char>,
    printed: Seq<char>,
    exit_code: Option<i32>,
) -> Seq<char> {
    program + " CLI failed: "@ + failure_details(stderr, printed, exit_code)
}

/// The client of this agent.
pub struct ClaudeCodeClient;

impl ClaudeCodeClient {
    /// The client of this agent.
    pub fn new() -> (r: Self) {
        ClaudeCodeClient
    }

    /// The prompt for one function. Line and character are counted from
    /// zero.
    pub fn prompt(
        &self,
        line: u32,
        character: u32,
        language_id: &str,
        file_contents: &str,
        output_path: &str,
        function_signature: &str,
    ) -> (r: String)
        ensures
            r@ == prompt_text(
                line,
                character,
                language_id@,
                file_contents@,
                output_path@,
                function_signature@,
            ),
    {
        build_prompt(line, character, language_id, file_contents, output_path, function_signature)
    }

    /// The arguments that the program of the agent is run with, for
    /// `prompt`.
    pub fn arguments(&self, prompt: &str) -> (r: Vec<String>)
        ensures
            Seq::new(r@.len(), |i: int| r@[i]@) == arguments_for(prompt@),
    {
        let mut args: Vec<String> = Vec::new();
        args.push("-p".to_string());
        args.push(prompt.to_string());
        args.push("--output-format".to_string());
        args.push("text".to_string());
        args.push("--model".to_string());
        args.push("sonnet".to_string());
        args.push("--dangerously-skip-permissions".to_string());
        assert(Seq::new(args@.len(), |i: int| args@[i]@) =~= arguments_for(prompt@));
        args
    }

    /// The command line that runs the program `program` of the agent on
    /// `prompt`.
    pub fn command(&self, program: &str, prompt: &str) -> (r: AgentCommand)
        ensures
            r@ == command_line(program@, prompt@),
    {
        let args = self.arguments(prompt);
        AgentCommand { program: program.to_string(), args }
    }

    /// What is said when the program `program` of the agent has failed,
    /// after it wrote `stderr` to its error output and printed `printed`.
    pub fn failure(&self, program: &str, stderr: &str, printed: &str, exit_code: Option<i32>) -> (r:
        String)
        ensures
            r@ == failure_text(program@, stderr@, printed@, exit_code),
    {
        let mut out = String::new();
        push_text(&mut out, program);
        push_text(&mut out, " CLI failed: ");
        let errors = trim_str(stderr);
        let output = trim_str(printed);
        if errors.as_str().unicode_len() > 0 {
            push_text(&mut out, errors.as_str());
        } else if output.as_str().unicode_len() > 0 {
            push_text(&mut out, output.as_str());
        } else {
            push_text(&mut out, "exit code: ");
            match exit_code {
                Some(code) => {
                    push_text(&mut out, "Some(");
                    push_signed_decimal(&mut out, code);
                    push_text(&mut out, ")");
                },
                None => {
                    push_text(&mut out, "None");
                },
            }
        }
        assert(out@ =~= failure_text(program@, stderr@, printed@, exit_code));
        out
    }
}

impl Default for ClaudeCodeClient {
    fn default() -> (r: Self) {
        ClaudeCodeClient::new()
    }
}

} // verus!
