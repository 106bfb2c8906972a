use agent_lsp::coordinator::finish_job;
use agent_lsp::document_store::{ContentChange, DocumentStore, Position};
use agent_lsp::handlers::{accept_command, offer_command, start_job};
use agent_lsp::job_queue::JobQueue;
use agent_lsp::job_tracker::JobTracker;
use agent_lsp::utils::{create_3way_merge_edit, merge_edit};

fn open(store: &mut DocumentStore, uri: &str, text: &str) {
    store.open(uri.to_string(), text.to_string(), 1, "rust".to_string());
}

fn apply(store: &mut DocumentStore, uri: &str, edit: &agent_lsp::lsp_utils::WorkspaceEdit) {
    let changes: Vec<ContentChange> = edit
        .edits
        .iter()
        .map(|e| ContentChange { range: Some(e.range), text: e.new_text.clone() })
        .collect();
    let version = edit.version.unwrap() + 1;
    store.change(uri, version, &changes);
}

#[test]
fn commands_that_are_taken() {
    assert_eq!(accept_command("amp.implFunction", 5), Ok(()));
    assert_eq!(accept_command("amp.implFunction", 6), Ok(()));
    assert_eq!(
        accept_command("amp.implFunction", 4),
        Err("Missing arguments for amp.implFunction".to_string())
    );
    assert_eq!(accept_command("other", 9), Err("Unknown command: other".to_string()));
    assert_eq!(accept_command("", 0), Err("Unknown command: ".to_string()));
}

#[test]
fn code_action_carries_the_document() {
    let mut store = DocumentStore::new();
    store.open("file:///tmp/test.rs".to_string(), "fn hello() {\n    // TODO\n}\n".to_string(), 3, "rust".to_string());
    let arguments = offer_command(&store, "file:///tmp/test.rs", 1, 4).unwrap();
    assert_eq!(arguments.uri, "file:///tmp/test.rs");
    assert_eq!((arguments.line, arguments.character, arguments.version), (1, 4, 3));
    assert_eq!(arguments.language_id, "rust");
    assert!(offer_command(&store, "file:///tmp/other.rs", 0, 0).is_none());
}

#[test]
fn starting_a_job_registers_it_with_its_signature() {
    let mut store = DocumentStore::new();
    let mut tracker = JobTracker::new();
    let uri = "file:///a.rs";
    open(&mut store, uri, "  pub fn a(x: u8) {\n    todo!()\n}\nlet y = 1;\n");
    let started = start_job(&store, &mut tracker, uri, "j1", 1).unwrap();
    assert_eq!(started.function_signature, "pub fn a(x: u8) {");
    assert_eq!(started.text, "  pub fn a(x: u8) {\n    todo!()\n}\nlet y = 1;\n");
    assert_eq!((started.version, started.language_id.as_str()), (1, "rust"));
    assert_eq!(tracker.get_current_line("j1"), Some(1));
    assert_eq!(tracker.get_function_signature("j1"), Some("pub fn a(x: u8) {".to_string()));
    assert_eq!(
        start_job(&store, &mut tracker, "file:///none.rs", "j2", 0).unwrap_err(),
        "Document not found"
    );
    assert_eq!(tracker.active_job_count("file:///none.rs"), 0);
    let past = start_job(&store, &mut tracker, uri, "j3", 40).unwrap();
    assert_eq!(past.function_signature, "");
}

#[test]
fn capacity_enforcement() {
    let mut store = DocumentStore::new();
    let mut tracker = JobTracker::new();
    let uri = "file:///tmp/test_max_jobs.rs";
    let mut text = String::new();
    for i in 0..12 {
        text.push_str(&format!("fn func_{}() {{\n    todo!()\n}}\n\n", i));
    }
    open(&mut store, uri, &text);
    for i in 0..10u32 {
        assert!(start_job(&store, &mut tracker, uri, &format!("job{}", i), i * 4).is_ok());
    }
    let eleventh = start_job(&store, &mut tracker, uri, "job10", 40).unwrap_err();
    assert!(eleventh.contains("Maximum concurrent implementations"));
    assert!(eleventh.contains("10"));
    assert_eq!(tracker.active_job_count(uri), 10);
    assert_eq!(tracker.get_current_line("job10"), None);
}

#[test]
fn peer_shift_forward() {
    let mut store = DocumentStore::new();
    let mut tracker = JobTracker::new();
    let uri = "file:///a.rs";
    open(&mut store, uri, "fn a() {\n    todo!()\n}\n\nfn b() {\n    todo!()\n}\n");
    start_job(&store, &mut tracker, uri, "A", 0).unwrap();
    start_job(&store, &mut tracker, uri, "B", 4).unwrap();
    assert_eq!(tracker.get_function_signature("B"), Some("fn b() {".to_string()));

    let a = "fn a() {\n    let x = 1;\n    let y = 2;\n    let z = 3;\n    x + y + z\n}";
    let outcome = finish_job(&store, &mut tracker, uri, "A", Ok(a.to_string()));
    assert!(outcome.completed.success);
    assert_eq!(outcome.completed.error, None);
    assert_eq!(outcome.completed.job_id, "A");
    assert_eq!(outcome.completed.uri, uri);
    assert_eq!(outcome.relocated, vec![("B".to_string(), 7)]);
    assert_eq!(tracker.get_current_line("B"), Some(7));
    assert_eq!(tracker.get_current_line("A"), None);
    let edit = outcome.edit.unwrap();
    assert_eq!(edit.version, Some(1));
    assert_eq!(edit.edits[0].range.start, Position { line: 0, character: 0 });
    assert_eq!(edit.edits[0].range.end, Position { line: 7, character: 0 });
    apply(&mut store, uri, &edit);
    let after_a = store.get(uri).unwrap().text;
    assert_eq!(
        after_a,
        "fn a() {\n    let x = 1;\n    let y = 2;\n    let z = 3;\n    x + y + z\n}\n\nfn b() {\n    todo!()\n}\n"
    );

    let outcome = finish_job(&store, &mut tracker, uri, "B", Ok("fn b() {\n    2\n}".to_string()));
    assert!(outcome.completed.success);
    assert!(outcome.relocated.is_empty());
    assert_eq!(tracker.active_job_count(uri), 0);
    let edit = outcome.edit.unwrap();
    assert_eq!(edit.version, Some(2));
    apply(&mut store, uri, &edit);
    assert_eq!(
        store.get(uri).unwrap().text,
        "fn a() {\n    let x = 1;\n    let y = 2;\n    let z = 3;\n    x + y + z\n}\n\nfn b() {\n    2\n}\n"
    );
}

#[test]
fn agent_failure() {
    let mut store = DocumentStore::new();
    let mut tracker = JobTracker::new();
    let uri = "file:///a.rs";
    open(&mut store, uri, "fn a() {\n}\nfn b() {\n}\n");
    start_job(&store, &mut tracker, uri, "A", 0).unwrap();
    start_job(&store, &mut tracker, uri, "B", 2).unwrap();
    let failed = finish_job(&store, &mut tracker, uri, "A", Err("agent exited with 1".to_string()));
    assert!(!failed.completed.success);
    assert_eq!(failed.completed.error, Some("agent exited with 1".to_string()));
    assert!(failed.edit.is_none());
    assert_eq!(failed.relocated, vec![("B".to_string(), 2)]);
    assert_eq!(tracker.active_job_count(uri), 1);
    let empty = finish_job(&store, &mut tracker, uri, "B", Ok(String::new()));
    assert!(!empty.completed.success);
    assert_eq!(empty.completed.error, Some("Agent produced no implementation".to_string()));
    assert!(empty.edit.is_none());
    assert_eq!(tracker.active_job_count(uri), 0);
    assert_eq!(store.get(uri).unwrap().text, "fn a() {\n}\nfn b() {\n}\n");
}

#[test]
fn jobs_that_cannot_be_applied() {
    let mut store = DocumentStore::new();
    let mut tracker = JobTracker::new();
    let uri = "file:///a.rs";
    open(&mut store, uri, "fn a() {\n}\n");
    let unknown = finish_job(&store, &mut tracker, uri, "ghost", Ok("x".to_string()));
    assert_eq!(unknown.completed.error, Some("Job not found".to_string()));
    tracker.register_job("file:///closed.rs", "C", 0, "fn c()".to_string()).unwrap();
    let vanished = finish_job(&store, &mut tracker, "file:///closed.rs", "C", Ok("x".to_string()));
    assert_eq!(vanished.completed.error, Some("Document not found".to_string()));
    assert_eq!(tracker.active_job_count("file:///closed.rs"), 0);
    tracker.register_job(uri, "gone", 0, "fn gone() {".to_string()).unwrap();
    let lost = finish_job(&store, &mut tracker, uri, "gone", Ok("fn gone() {}".to_string()));
    assert_eq!(lost.completed.error, Some("Could not find function start".to_string()));
    tracker.register_job(uri, "far", 9, "fn a() {".to_string()).unwrap();
    let far = finish_job(&store, &mut tracker, uri, "far", Ok("fn a() {}".to_string()));
    assert_eq!(far.completed.error, Some("Line out of bounds".to_string()));
    store.change(uri, 2, &[ContentChange { range: None, text: "def a():\n    pass\n".to_string() }]);
    tracker.register_job(uri, "py", 1, String::new()).unwrap();
    let open_ended = finish_job(&store, &mut tracker, uri, "py", Ok("def a(): 1".to_string()));
    assert_eq!(open_ended.completed.error, Some("Could not find function end".to_string()));
    assert_eq!(tracker.active_job_count(uri), 0);
}

#[test]
fn one_job_at_a_time() {
    let mut queue = JobQueue::new();
    let uri = "file:///a.rs";
    assert_eq!(queue.acquire(uri, "first", 3), Some(3));
    assert_eq!(queue.acquire(uri, "second", 10), None);
    assert_eq!(queue.acquire(uri, "third", 20), None);
    assert_eq!(queue.acquire("file:///b.rs", "other", 1), Some(1));
    assert_eq!(queue.granted(uri, "first"), Some(3));
    assert_eq!(queue.granted(uri, "second"), None);
    assert!(!queue.release(uri, "second"));
    queue.adjust_pending_lines(uri, 10, 5);
    assert!(queue.release(uri, "first"));
    assert_eq!(queue.granted(uri, "first"), None);
    assert_eq!(queue.granted(uri, "second"), Some(10));
    assert_eq!(queue.granted(uri, "third"), None);
    queue.adjust_pending_lines(uri, 0, -21);
    assert!(queue.release(uri, "second"));
    assert_eq!(queue.granted(uri, "third"), Some(4));
    queue.adjust_pending_lines(uri, 0, 7);
    assert_eq!(queue.granted(uri, "third"), Some(4));
    assert!(queue.release(uri, "third"));
    assert!(!queue.release(uri, "third"));
    assert_eq!(queue.granted(uri, "third"), None);
    assert_eq!(queue.acquire(uri, "fourth", 8), Some(8));
    assert_eq!(queue.granted("file:///b.rs", "other"), Some(1));
    assert!(!JobQueue::default().release(uri, "x"));
}

#[test]
fn waiting_lines_come_round() {
    let mut queue = JobQueue::new();
    let uri = "file:///a.rs";
    queue.acquire(uri, "holder", 0);
    queue.acquire(uri, "low", 2);
    queue.acquire(uri, "high", u32::MAX);
    queue.adjust_pending_lines(uri, 1, -3);
    queue.release(uri, "holder");
    assert_eq!(queue.granted(uri, "low"), Some(u32::MAX));
    queue.release(uri, "low");
    assert_eq!(queue.granted(uri, "high"), Some(u32::MAX - 3));
    queue.acquire(uri, "next", u32::MAX - 1);
    queue.adjust_pending_lines(uri, 1, 5);
    queue.release(uri, "high");
    assert_eq!(queue.granted(uri, "next"), Some(3));
}

#[test]
fn test_create_3way_merge_edit() {
    let uri = "file:///test.rs";
    let base_text = "fn foo() {\n    todo!()\n}\n\nfn bar() {}\n";
    let current_text = "fn foo() {\n    todo!()\n}\n\nfn bar() {\n    // comment\n}\n";
    let implementation = "fn foo() {\n    implemented();\n}";

    let (edit, lines_added) =
        create_3way_merge_edit(uri, base_text, current_text, implementation, 0)
            .expect("Failed to create edit");

    assert_eq!(lines_added, 0);

    let new_content = &edit.edits[0].new_text;
    assert!(new_content.contains("implemented();"));
    assert!(new_content.contains("// comment"));
}

#[test]
fn test_create_3way_merge_conflict() {
    let uri = "file:///test.rs";
    let base_text = "fn foo() {\n    todo!()\n}\n";
    let current_text = "fn foo() {\n    user_change();\n}\n";
    let implementation = "fn foo() {\n    agent_change();\n}";

    let (edit, _) = create_3way_merge_edit(uri, base_text, current_text, implementation, 0)
        .expect("Failed to create edit");

    let new_content = &edit.edits[0].new_text;
    assert!(new_content.contains("<<<<<<<"));
    assert!(new_content.contains("user_change();"));
    assert!(new_content.contains("agent_change();"));
}

#[test]
fn merge_edit_replaces_the_whole_text() {
    let base = "fn foo() {\n    todo!()\n}\n\nfn bar() {}\n";
    let current = "// head\nfn foo() {\n    todo!()\n}\n\nfn bar() {}\n";
    let (edit, added) =
        create_3way_merge_edit("u", base, current, "fn foo() {\n    1;\n    2\n}", 0).unwrap();
    assert_eq!(added, 1);
    assert_eq!(edit.uri, "u");
    assert_eq!(edit.edits[0].new_text, "// head\nfn foo() {\n    1;\n    2\n}\n\nfn bar() {}\n");
    assert_eq!(edit.edits[0].range.start, Position { line: 0, character: 0 });
    assert_eq!(edit.edits[0].range.end, Position { line: 6, character: 0 });
    assert_eq!(
        create_3way_merge_edit("u", base, current, "x", 9).unwrap_err(),
        "Failed to replace function in base text"
    );
    assert_eq!(
        create_3way_merge_edit("u", "def f():\n", current, "x", 0).unwrap_err(),
        "Failed to replace function in base text"
    );
    let ok = merge_edit("u", "old\n", Ok("merged\n".to_string()));
    let conflict = merge_edit("u", "old\n", Err("marked\n".to_string()));
    assert_eq!(ok.edits[0].new_text, "merged\n");
    assert_eq!(conflict.edits[0].new_text, "marked\n");
    assert_eq!(conflict.edits[0].range.end, Position { line: 1, character: 0 });
}
