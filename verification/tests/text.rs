use agent_lsp::text::{
    chars_to_string, is_whitespace_char, join_chars, split_lines, str_to_chars, trim_str,
};

fn lines_of(text: &str) -> Vec<String> {
    split_lines(&str_to_chars(text)).iter().map(chars_to_string).collect()
}

#[test]
fn whitespace_is_what_the_standard_library_says() {
    for code in 0..=0x10ffffu32 {
        if let Some(c) = char::from_u32(code) {
            assert_eq!(is_whitespace_char(c), c.is_whitespace(), "U+{:04X}", code);
        }
    }
}

#[test]
fn trimming_is_what_the_standard_library_does() {
    for text in [
        "",
        " ",
        "a",
        "  a b  ",
        "\t\n a\r\n",
        "\u{a0}x\u{2003}",
        "\u{3000}\u{3000}",
        "x\u{200b}",
        " \u{85}é \u{1680}",
    ] {
        assert_eq!(trim_str(text), text.trim(), "{:?}", text);
    }
}

#[test]
fn lines_are_what_the_standard_library_gives() {
    for text in [
        "",
        "a",
        "a\n",
        "a\nb",
        "a\n\nb\n",
        "\n",
        "\n\n",
        "a\r\nb\r\n",
        "a\rb\r",
        "a\r",
        "a\r\r\n",
        "\r\n",
        "a\n\r",
        "é\nü",
    ] {
        let expected: Vec<String> = text.lines().map(|l| l.to_string()).collect();
        assert_eq!(lines_of(text), expected, "{:?}", text);
    }
}

#[test]
fn joining_puts_line_feeds_between() {
    let join = |ls: &[&str]| {
        let lines: Vec<Vec<char>> = ls.iter().map(|l| str_to_chars(l)).collect();
        chars_to_string(&join_chars(&lines))
    };
    assert_eq!(join(&[]), "");
    assert_eq!(join(&["a"]), "a");
    assert_eq!(join(&["a", "b", "", "c"]), "a\nb\n\nc");
    assert_eq!(join(&["", ""]), "\n");
}
