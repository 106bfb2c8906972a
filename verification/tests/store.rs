use agent_lsp::document_store::{
    offset_to_position, position_to_offset, ContentChange, DocumentStore, Position, Span,
};
use agent_lsp::lsp_utils::WorkspaceEditBuilder;

fn full(text: &str) -> ContentChange {
    ContentChange { range: None, text: text.to_string() }
}

fn ranged(start: (u32, u32), end: (u32, u32), text: &str) -> ContentChange {
    ContentChange {
        range: Some(Span {
            start: Position { line: start.0, character: start.1 },
            end: Position { line: end.0, character: end.1 },
        }),
        text: text.to_string(),
    }
}

fn text_of(store: &DocumentStore, uri: &str) -> String {
    store.get(uri).unwrap().text
}

#[test]
fn open_replaces_and_get_copies() {
    let mut store = DocumentStore::new();
    assert!(store.get("file:///a.rs").is_none());
    store.open("file:///a.rs".to_string(), "fn a() {}\n".to_string(), 1, "rust".to_string());
    store.open("file:///b.py".to_string(), "def b():\n".to_string(), 7, "python".to_string());
    let a = store.get("file:///a.rs").unwrap();
    assert_eq!((a.text.as_str(), a.version, a.language_id.as_str()), ("fn a() {}\n", 1, "rust"));
    store.open("file:///a.rs".to_string(), "fn a2() {}\n".to_string(), 3, "rust2".to_string());
    let a = store.get("file:///a.rs").unwrap();
    assert_eq!((a.text.as_str(), a.version, a.language_id.as_str()), ("fn a2() {}\n", 3, "rust2"));
    let b = store.get("file:///b.py").unwrap();
    assert_eq!((b.text.as_str(), b.version, b.language_id.as_str()), ("def b():\n", 7, "python"));
    assert!(DocumentStore::default().get("file:///a.rs").is_none());
}

#[test]
fn changes_apply_in_order() {
    let mut store = DocumentStore::new();
    let uri = "file:///tmp/test_change.rs";
    store.open(uri.to_string(), "fn foo() {}\n".to_string(), 1, "rust".to_string());
    store.change(uri, 2, &[ranged((0, 3), (0, 6), "bar")]);
    assert_eq!(text_of(&store, uri), "fn bar() {}\n");
    assert_eq!(store.get(uri).unwrap().version, 2);
    store.change(
        uri,
        5,
        &[
            ranged((0, 10), (0, 10), "\n    1\n"),
            ranged((1, 4), (1, 5), "22"),
            ranged((3, 0), (3, 0), "// end\n"),
        ],
    );
    assert_eq!(text_of(&store, uri), "fn bar() {\n    22\n}\n// end\n");
    assert_eq!(store.get(uri).unwrap().version, 5);
    assert_eq!(store.get(uri).unwrap().language_id, "rust");
    store.change(uri, 6, &[full("x"), ranged((0, 1), (0, 1), "y")]);
    assert_eq!(text_of(&store, uri), "xy");
    store.change(uri, 4, &[]);
    assert_eq!(text_of(&store, uri), "xy");
    assert_eq!(store.get(uri).unwrap().version, 4);
}

#[test]
fn change_of_an_unknown_document_does_nothing() {
    let mut store = DocumentStore::new();
    store.open("file:///a.rs".to_string(), "a".to_string(), 1, "rust".to_string());
    store.change("file:///b.rs", 9, &[full("b")]);
    assert!(store.get("file:///b.rs").is_none());
    assert_eq!(text_of(&store, "file:///a.rs"), "a");
    assert_eq!(store.get("file:///a.rs").unwrap().version, 1);
}

#[test]
fn places_past_the_end_stand_for_the_end() {
    let mut store = DocumentStore::new();
    let uri = "file:///a.rs";
    store.open(uri.to_string(), "ab\ncd".to_string(), 1, "rust".to_string());
    store.change(uri, 2, &[ranged((0, 99), (0, 99), "!")]);
    assert_eq!(text_of(&store, uri), "ab!\ncd");
    store.change(uri, 3, &[ranged((7, 0), (9, 3), "?")]);
    assert_eq!(text_of(&store, uri), "ab!\ncd?");
    store.change(uri, 4, &[ranged((1, 1), (0, 0), "-")]);
    assert_eq!(text_of(&store, uri), "ab!\nc-d?");
    store.change(uri, 5, &[ranged((0, 2), (1, 99), "")]);
    assert_eq!(text_of(&store, uri), "ab");
    store.change(uri, 6, &[ranged((0, 0), (u32::MAX, u32::MAX), "é\n")]);
    assert_eq!(text_of(&store, uri), "é\n");
    store.change(uri, 7, &[ranged((1, 0), (1, 0), "z")]);
    assert_eq!(text_of(&store, uri), "é\nz");
    store.change(uri, 8, &[ranged((0, 1), (0, 1), "ü")]);
    assert_eq!(text_of(&store, uri), "éü\nz");
}

#[test]
fn offsets_of_places() {
    let at = |text: &str, line: u32, character: u32| {
        position_to_offset(text, Position { line, character })
    };
    let text = "fn a() {\n    1\n}\n";
    assert_eq!(at(text, 0, 0), 0);
    assert_eq!(at(text, 0, 8), 8);
    assert_eq!(at(text, 0, 9), 8);
    assert_eq!(at(text, 1, 0), 9);
    assert_eq!(at(text, 1, 4), 13);
    assert_eq!(at(text, 2, 1), 16);
    assert_eq!(at(text, 3, 0), 17);
    assert_eq!(at(text, 3, 5), 17);
    assert_eq!(at(text, 4, 0), 17);
    assert_eq!(at("", 0, 0), 0);
    assert_eq!(at("", 3, 3), 0);
    assert_eq!(at("a\r\nb", 0, 2), 2);
    assert_eq!(at("a\r\nb", 1, 1), 4);
    assert_eq!(at("\n\n", 1, 0), 1);
    assert_eq!(at("\n\n", 2, 0), 2);
}

#[test]
fn places_of_offsets() {
    let at = |text: &str, offset: usize| {
        let p = offset_to_position(text, offset);
        (p.line, p.character)
    };
    let text = "ab\ncd\n";
    assert_eq!(at(text, 0), (0, 0));
    assert_eq!(at(text, 2), (0, 2));
    assert_eq!(at(text, 3), (1, 0));
    assert_eq!(at(text, 5), (1, 2));
    assert_eq!(at(text, 6), (2, 0));
    assert_eq!(at(text, 60), (2, 0));
    assert_eq!(at("ab", 2), (0, 2));
    assert_eq!(at("ab", 3), (1, 0));
    assert_eq!(at("", 0), (0, 0));
    assert_eq!(at("", 4), (0, 0));
    for offset in 0..=text.len() {
        let p = offset_to_position(text, offset);
        assert_eq!(position_to_offset(text, p), offset);
    }
}

#[test]
fn whole_text_edit() {
    let edit = WorkspaceEditBuilder::create_full_replace("file:///a.rs", "a\nb\nc\n", "new");
    assert_eq!(edit.uri, "file:///a.rs");
    assert_eq!(edit.version, None);
    assert_eq!(edit.edits.len(), 1);
    assert_eq!(edit.edits[0].new_text, "new");
    let range = edit.edits[0].range;
    assert_eq!(range.start, Position { line: 0, character: 0 });
    assert_eq!(range.end, Position { line: 3, character: 0 });
    let unterminated = WorkspaceEditBuilder::create_full_replace("u", "a\nb", "");
    assert_eq!(unterminated.edits[0].range.end, Position { line: 2, character: 0 });
    let empty = WorkspaceEditBuilder::create_full_replace("u", "", "x");
    assert_eq!(empty.edits[0].range.end, Position { line: 0, character: 0 });
}

#[test]
fn whole_text_edit_gives_the_new_text() {
    for old in ["", "a", "a\n", "a\nb", "a\r\nb\r\n", "\n\n\n", "fn a() {\n}\n"] {
        let edit = WorkspaceEditBuilder::create_full_replace("file:///a.rs", old, "NEW\n");
        let mut store = DocumentStore::new();
        store.open("file:///a.rs".to_string(), old.to_string(), 1, "rust".to_string());
        let change = ContentChange {
            range: Some(edit.edits[0].range),
            text: edit.edits[0].new_text.clone(),
        };
        store.change("file:///a.rs", 2, &[change]);
        assert_eq!(store.get("file:///a.rs").unwrap().text, "NEW\n");
    }
}

#[test]
fn line_insert_edit() {
    let edit = WorkspaceEditBuilder::create_line_insert(
        "file:///a.rs",
        "fn a() {\n    todo!()\n}\n",
        0,
        "    1",
        4,
    );
    assert_eq!(edit.uri, "file:///a.rs");
    assert_eq!(edit.version, Some(4));
    assert_eq!(edit.edits.len(), 1);
    assert_eq!(edit.edits[0].new_text, "fn a() {\n    1\n");
    assert_eq!(edit.edits[0].range.start, Position { line: 0, character: 0 });
    assert_eq!(edit.edits[0].range.end, Position { line: 1, character: 0 });
    let past = WorkspaceEditBuilder::create_line_insert("u", "a\n", 5, "x", 0);
    assert_eq!(past.edits[0].new_text, "\nx\n");
    assert_eq!(past.edits[0].range.start, Position { line: 5, character: 0 });
    assert_eq!(past.edits[0].range.end, Position { line: 6, character: 0 });
}
