use agent_lsp::amp::{final_result, AmpClient, AmpResult};
use agent_lsp::backend::{backend_of, create_backend, next_preview, Backend};
use agent_lsp::claude_code::{build_prompt, ClaudeCodeClient};
use agent_lsp::config::{BackendType, CURRENT_BACKEND, DELETE_TEMP_FILES};
use agent_lsp::opencode::{
    extract_text_from_event, extract_text_from_events, next_event_preview, OpenCodeClient,
    OpenCodeEvent, Part,
};

#[test]
fn test_create_backend_returns_configured_backend() {
    let backend = create_backend();
    let _ = backend;
}

#[test]
fn test_build_prompt_output_format() {
    let prompt = build_prompt(
        9,
        4,
        "rust",
        "fn main() {}",
        "/tmp/output.rs",
        "fn calculate_sum(a: i32, b: i32) -> i32",
    );

    assert!(prompt.contains("<FILE-CONTENT>"));
    assert!(prompt.contains("</FILE-CONTENT>"));
    assert!(prompt.contains("<MUST-OBEY>"));
    assert!(prompt.contains("</MUST-OBEY>"));

    assert!(prompt.contains("Implement the function body"));
    assert!(prompt.contains("Write ONLY this function's implementation"));
    assert!(prompt.contains("Do NOT include any other code"));
    assert!(prompt.contains("Do NOT output the code to stdout"));
    assert!(prompt.contains("NEVER read it, just write to it"));
    assert!(prompt.contains("Describe your steps before performing them"));
}

#[test]
fn test_build_prompt_contains_line_and_character() {
    let prompt = build_prompt(0, 0, "rust", "code", "/tmp/out.rs", "fn test()");
    assert!(prompt.contains("line 1"));
    assert!(prompt.contains("character 1"));

    let prompt = build_prompt(99, 49, "rust", "code", "/tmp/out.rs", "fn test()");
    assert!(prompt.contains("line 100"));
    assert!(prompt.contains("character 50"));
}

#[test]
fn test_build_prompt_contains_function_signature() {
    let signature = "fn complex_function(x: &str, y: Vec<u32>) -> Result<String, Error>";
    let prompt = build_prompt(5, 10, "rust", "source code", "/tmp/out.rs", signature);

    assert!(prompt.contains(signature));
    assert!(prompt.contains(&format!("IMPORTANT: Implement ONLY the function `{}`", signature)));
}

#[test]
fn test_build_prompt_contains_output_path() {
    let output_path = "/home/user/project/temp_impl_abc123.rs";
    let prompt = build_prompt(0, 0, "rust", "code", output_path, "fn test()");

    assert!(prompt.contains(output_path));
    assert!(prompt.contains(&format!(
        "Write ONLY this function's implementation (signature and body) to the file: {}",
        output_path
    )));
}

#[test]
fn test_build_prompt_contains_language_id() {
    let prompt = build_prompt(0, 0, "typescript", "const x = 1;", "/tmp/out.ts", "function foo()");
    assert!(prompt.contains("typescript file"));

    let prompt = build_prompt(0, 0, "python", "def main(): pass", "/tmp/out.py", "def bar()");
    assert!(prompt.contains("python file"));

    let prompt = build_prompt(0, 0, "go", "package main", "/tmp/out.go", "func baz()");
    assert!(prompt.contains("go file"));
}

#[test]
fn test_build_prompt_contains_file_contents() {
    let file_contents = r#"
use std::collections::HashMap;

fn existing_function() -> i32 {
    42
}

fn todo_implement() -> String {
    todo!()
}
"#;
    let prompt = build_prompt(7, 0, "rust", file_contents, "/tmp/out.rs", "fn todo_implement()");

    assert!(prompt.contains("use std::collections::HashMap"));
    assert!(prompt.contains("fn existing_function()"));
    assert!(prompt.contains("fn todo_implement()"));
}

#[test]
fn test_build_prompt_all_required_elements() {
    let line = 15;
    let character = 8;
    let language_id = "rust";
    let file_contents = "fn placeholder() { todo!() }";
    let output_path = "/tmp/impl_output.rs";
    let function_signature = "fn placeholder()";

    let prompt = build_prompt(
        line,
        character,
        language_id,
        file_contents,
        output_path,
        function_signature,
    );

    assert!(prompt.contains(&format!("line {}", line + 1)), "Prompt must contain 1-indexed line number");
    assert!(
        prompt.contains(&format!("character {}", character + 1)),
        "Prompt must contain 1-indexed character number"
    );
    assert!(prompt.contains(function_signature), "Prompt must contain function signature");
    assert!(prompt.contains(output_path), "Prompt must contain output path");
    assert!(prompt.contains(language_id), "Prompt must contain language id");
    assert!(prompt.contains(file_contents), "Prompt must contain file contents");
}

#[test]
fn test_claude_code_client_new() {
    let client = ClaudeCodeClient::new();
    let _ = client;
}

#[test]
fn test_claude_code_client_default() {
    let client = ClaudeCodeClient::default();
    let _ = client;
}

fn text_event(kind: &str, part_kind: Option<&str>, text: Option<&str>) -> Option<OpenCodeEvent> {
    Some(OpenCodeEvent {
        event_type: kind.to_string(),
        part: Some(Part {
            part_type: part_kind.map(|s| s.to_string()),
            text: text.map(|s| s.to_string()),
        }),
    })
}

#[test]
fn test_extract_text_from_events_full_session() {
    let output = vec![
        text_event("step_start", Some("step-start"), None),
        text_event("text", Some("text"), Some("use std::fs;\n")),
        text_event("text", Some("text"), Some("use uuid::Uuid;\n")),
        text_event("step_finish", Some("step-finish"), None),
    ];
    let result = extract_text_from_events(&output).unwrap();
    assert_eq!(result, "use std::fs;\nuse uuid::Uuid;\n");
}

#[test]
fn test_extract_text_from_events_no_text() {
    let output = vec![
        text_event("step_start", Some("step-start"), None),
        text_event("step_finish", Some("step-finish"), None),
    ];
    let result = extract_text_from_events(&output);
    assert!(result.is_err());
}

#[test]
fn test_build_prompt() {
    let prompt = agent_lsp::opencode::build_prompt(9, 4, "rust", "fn main() {}", "/tmp/output.rs");
    assert!(prompt.contains("line 10"));
    assert!(prompt.contains("character 5"));
    assert!(prompt.contains("fn main() {}"));
    assert!(prompt.contains("/tmp/output.rs"));
}

#[test]
fn event_text_needs_both_kinds() {
    let hello = text_event("text", Some("text"), Some("hello world")).unwrap();
    assert_eq!(extract_text_from_event(&hello), Some("hello world".to_string()));
    let start = text_event("step_start", Some("step-start"), None).unwrap();
    assert_eq!(extract_text_from_event(&start), None);
    let wrong_part = text_event("text", Some("step-start"), Some("x")).unwrap();
    assert_eq!(extract_text_from_event(&wrong_part), None);
    let no_kind = text_event("text", None, Some("x")).unwrap();
    assert_eq!(extract_text_from_event(&no_kind), None);
    let no_text = text_event("text", Some("text"), None).unwrap();
    assert_eq!(extract_text_from_event(&no_text), None);
    let no_part = OpenCodeEvent { event_type: "text".to_string(), part: None };
    assert_eq!(extract_text_from_event(&no_part), None);
}

#[test]
fn events_skip_lines_that_are_no_events() {
    let output = vec![None, text_event("text", Some("text"), Some("a")), None];
    assert_eq!(extract_text_from_events(&output), Ok("a".to_string()));
    let nothing: Vec<Option<OpenCodeEvent>> = Vec::new();
    assert_eq!(
        extract_text_from_events(&nothing),
        Err("No text content found in opencode output".to_string())
    );
    let empty = vec![text_event("text", Some("text"), Some(""))];
    assert!(extract_text_from_events(&empty).is_err());
}

#[test]
fn exact_prompts() {
    assert_eq!(
        build_prompt(0, 9, "rust", "X", "/o", "fn f()"),
        "Implement the function body at line 1, character 10 in the following rust file. The function to implement is: `fn f()`\n\nIMPORTANT: Implement ONLY the function `fn f()` - do NOT implement any other functions in the file.\n\nWrite ONLY this function's implementation (signature and body) to the file: /o Do NOT include any other code from the source file (no imports, no other functions). Do NOT output the code to stdout. Output only status messages or confirmation.\n\n<FILE-CONTENT>\nX</FILE-CONTENT>\n\n<MUST-OBEY>\nYou can overwrite the output file's content, but NEVER read it, just write to it.\nDescribe your steps before performing them.\n</MUST-OBEY>"
    );
    assert_eq!(
        agent_lsp::opencode::build_prompt(4294967295, 0, "rust", "X", "/o"),
        "Implement the function body at line 4294967296, character 1 in the following file. Write ONLY the function implementation (signature and body) to the file: /o Do NOT include any other code from the source file (no imports, no other functions). Do NOT output the code to stdout. Output only status messages or confirmation.\n\n<FILE-CONTENT>\nX</FILE-CONTENT> \n\n<MUST-OBEY>\nYou can overwrite the output file's content, but NEVER read it, just write to it.\nDescribe your steps before performing them.\n</MUST-OBEY> "
    );
    assert_eq!(
        agent_lsp::amp::build_prompt(41, 6, "c", "X"),
        "Implement the function body at line 42, character 7 in the following c file. Output ONLY the raw code for the function body (the code that goes between the curly braces). Do NOT include the function signature/declaration. Do NOT wrap the output in markdown code blocks. Do NOT include any explanations. Just output the raw implementation code:\n\nX"
    );
}

#[test]
fn backends_by_kind() {
    assert_eq!(CURRENT_BACKEND, BackendType::OpenCode);
    assert!(!DELETE_TEMP_FILES);
    assert_eq!(create_backend().backend_type(), BackendType::OpenCode);
    assert_eq!(backend_of(BackendType::Amp).backend_type(), BackendType::Amp);
    assert_eq!(BackendType::Amp.display_name(), "Amp");
    assert_eq!(BackendType::OpenCode.display_name(), "OpenCode");
    assert_eq!(AmpClient::new().backend_type(), BackendType::Amp);
    assert_eq!(OpenCodeClient::default().backend_type(), BackendType::OpenCode);
}

#[test]
fn command_lines() {
    let amp = backend_of(BackendType::Amp).command("P");
    assert_eq!(amp.program, "amp");
    assert_eq!(amp.args, vec!["--execute", "P", "--stream-json"]);
    let open = create_backend().command("P");
    assert_eq!(open.program, "opencode");
    assert_eq!(open.args, vec!["run", "--format", "json", "--attach", "http://localhost:1337", "P"]);
    let plain = ClaudeCodeClient::new().arguments("P");
    assert_eq!(
        plain,
        vec!["-p", "P", "--output-format", "text", "--model", "sonnet", "--dangerously-skip-permissions"]
    );
    let named = ClaudeCodeClient::new().command("agent", "P");
    assert_eq!(named.program, "agent");
    assert_eq!(named.args, plain);
    let streaming = OpenCodeClient::new().streaming_command("opencode/some-model", "P");
    assert_eq!(streaming.program, "opencode");
    assert_eq!(streaming.args, vec!["run", "--model", "opencode/some-model", "P"]);
}

#[test]
fn prompts_by_kind() {
    let amp = backend_of(BackendType::Amp).prompt(1, 2, "rust", "X", "/o", "fn f()");
    assert_eq!(amp, agent_lsp::amp::build_prompt(1, 2, "rust", "X"));
    let open = create_backend().prompt(1, 2, "rust", "X", "/o", "fn f()");
    assert_eq!(open, agent_lsp::opencode::build_prompt(1, 2, "rust", "X", "/o"));
    let plain = ClaudeCodeClient::new().prompt(1, 2, "rust", "X", "/o", "fn f()");
    assert_eq!(plain, build_prompt(1, 2, "rust", "X", "/o", "fn f()"));
}

#[test]
fn failure_messages() {
    assert_eq!(backend_of(BackendType::Amp).failure("boom\n", "x", Some(1)), "amp CLI failed: boom\n");
    assert_eq!(create_backend().failure("boom", "x", None), "opencode CLI failed: boom");
    assert_eq!(
        OpenCodeClient::new().streaming_failure("half an answer\n"),
        "opencode CLI failed: half an answer\n"
    );
    let plain = ClaudeCodeClient::new();
    assert_eq!(plain.failure("agent", "  bad \n", "out", Some(2)), "agent CLI failed: bad");
    assert_eq!(plain.failure("agent", " \n", " out\n", Some(2)), "agent CLI failed: out");
    assert_eq!(plain.failure("agent", "", "", Some(2)), "agent CLI failed: exit code: Some(2)");
    assert_eq!(plain.failure("agent", "", " ", Some(-17)), "agent CLI failed: exit code: Some(-17)");
    assert_eq!(
        plain.failure("agent", "", "", Some(i32::MIN)),
        "agent CLI failed: exit code: Some(-2147483648)"
    );
    assert_eq!(plain.failure("x", "", "", Some(0)), "x CLI failed: exit code: Some(0)");
    assert_eq!(plain.failure("", "", "", None), " CLI failed: exit code: None");
}

#[test]
fn test_extract_text_from_line_with_text_event() {
    let event = OpenCodeEvent {
        event_type: "text".to_string(),
        part: Some(Part { part_type: Some("text".to_string()), text: Some("hello world".to_string()) }),
    };
    assert_eq!(extract_text_from_event(&event), Some("hello world".to_string()));
}

#[test]
fn test_extract_text_from_line_step_start_event() {
    let event = OpenCodeEvent {
        event_type: "step_start".to_string(),
        part: Some(Part { part_type: Some("step-start".to_string()), text: None }),
    };
    assert_eq!(extract_text_from_event(&event), None);
}

#[test]
fn test_extract_text_from_line_step_finish_event() {
    let event = OpenCodeEvent {
        event_type: "step_finish".to_string(),
        part: Some(Part { part_type: Some("step-finish".to_string()), text: None }),
    };
    assert_eq!(extract_text_from_event(&event), None);
}

#[test]
fn preview_grows_event_by_event() {
    let text_of = |written: &str| OpenCodeEvent {
        event_type: "text".to_string(),
        part: Some(Part { part_type: Some("text".to_string()), text: Some(written.to_string()) }),
    };
    let start = OpenCodeEvent {
        event_type: "step_start".to_string(),
        part: Some(Part { part_type: Some("step-start".to_string()), text: None }),
    };
    let mut text = String::new();
    assert_eq!(next_event_preview(&mut text, &start), None);
    assert_eq!(text, "");
    assert_eq!(next_event_preview(&mut text, &text_of("```rust\n")), Some("```rust".to_string()));
    assert_eq!(text, "```rust\n");
    assert_eq!(
        next_event_preview(&mut text, &text_of("fn f() {}\n")),
        Some("```rust\nfn f() {}".to_string())
    );
    assert_eq!(next_event_preview(&mut text, &start), None);
    assert_eq!(text, "```rust\nfn f() {}\n");
    assert_eq!(next_event_preview(&mut text, &text_of("```\n")), Some("fn f() {}".to_string()));
    assert_eq!(text, "```rust\nfn f() {}\n```\n");
    assert_eq!(next_event_preview(&mut text, &text_of("")), Some("fn f() {}".to_string()));
}

#[test]
fn preview_grows_line_by_line() {
    let mut printed = String::new();
    assert_eq!(next_preview(&mut printed, "  one"), "one");
    assert_eq!(printed, "  one\n");
    assert_eq!(next_preview(&mut printed, "two  "), "one\ntwo");
    assert_eq!(printed, "  one\ntwo  \n");
    assert_eq!(next_preview(&mut printed, ""), "one\ntwo");
}

fn message(kind: &str, result: Option<&str>, is_error: Option<bool>) -> Option<AmpResult> {
    Some(AmpResult {
        msg_type: kind.to_string(),
        result: result.map(|s| s.to_string()),
        is_error,
    })
}

#[test]
fn amp_answer_is_the_last_result() {
    let lines = vec![
        message("result", Some("first"), None),
        message("assistant", Some("chat"), None),
        None,
        message("result", Some("  ```rust\nlet x = 1;\n```\n"), Some(false)),
        message("assistant", Some("bye"), None),
    ];
    assert_eq!(final_result(&lines), Ok("let x = 1;".to_string()));
    let failed = vec![message("result", Some("ok"), None), message("result", Some("denied"), Some(true))];
    assert_eq!(final_result(&failed), Err("amp returned error: denied".to_string()));
    let failed_silently = vec![message("result", None, Some(true))];
    assert_eq!(final_result(&failed_silently), Err("amp returned error: ".to_string()));
    let none = vec![message("assistant", Some("x"), None), None];
    assert_eq!(final_result(&none), Err("No result found in amp output".to_string()));
    let empty = vec![message("result", None, None)];
    assert_eq!(final_result(&empty), Ok(String::new()));
}
