use agent_lsp::document_store::{position_to_offset, Position};
use agent_lsp::utils::{
    extract_function_name, extract_function_signature, find_function_by_signature,
    find_function_end, find_function_start, find_function_start_forward, is_function_start,
    replace_function, replace_function_in_document, signatures_match, strip_markdown_code_block,
};

// The same rules, written with the string functions of the standard
// library. The library is held against them on many generated texts.

fn std_is_function_start(line: &str) -> bool {
    if line.starts_with("fn ")
        || line.starts_with("pub fn ")
        || line.starts_with("async fn ")
        || line.starts_with("pub async fn ")
        || line.starts_with("pub(crate) fn ")
        || line.contains(" fn ")
    {
        return true;
    }
    if line.starts_with("def ") || line.starts_with("async def ") {
        return true;
    }
    (line.starts_with("void ")
        || line.starts_with("int ")
        || line.starts_with("bool ")
        || line.starts_with("char ")
        || line.starts_with("float ")
        || line.starts_with("double ")
        || line.starts_with("public ")
        || line.starts_with("private ")
        || line.starts_with("protected ")
        || line.starts_with("static "))
        && line.contains('(')
}

fn std_find_start(lines: &[&str], from: usize) -> Option<usize> {
    if from >= lines.len() {
        return None;
    }
    (0..=from).rev().find(|&i| std_is_function_start(lines[i].trim()))
}

fn std_name(sig: &str) -> Option<&str> {
    if let Some(pos) = sig.find(" fn ") {
        return sig[pos + 4..].split(&['(', '<', ' '][..]).next();
    }
    if sig.starts_with("fn ") {
        return sig[3..].split(&['(', '<', ' '][..]).next();
    }
    if let Some(pos) = sig.find("def ") {
        return sig[pos + 4..].split(&['(', ' ', ':'][..]).next();
    }
    if let Some(paren) = sig.find('(') {
        return sig[..paren].trim().split_whitespace().last();
    }
    None
}

fn std_match(found: &str, expected: &str) -> bool {
    let found = found.trim();
    let expected = expected.trim();
    if found == expected {
        return true;
    }
    match (std_name(found), std_name(expected)) {
        (Some(f), Some(e)) => f == e,
        _ => false,
    }
}

fn std_forward(lines: &[&str], from: usize, expected: &str) -> Option<usize> {
    let name = std_name(expected)?;
    (from..lines.len()).find(|&i| {
        let line = lines[i].trim();
        std_is_function_start(line) && std_name(line) == Some(name)
    })
}

fn std_end(lines: &[&str], start: usize) -> Option<usize> {
    let mut open: i64 = 0;
    let mut found = false;
    for (i, line) in lines.iter().enumerate().skip(start) {
        for c in line.chars() {
            match c {
                '{' => {
                    open += 1;
                    found = true;
                }
                '}' => open -= 1,
                _ => {}
            }
        }
        if found && open <= 0 {
            return Some(i);
        }
    }
    None
}

fn std_splice(lines: &[&str], start: usize, end: usize, implementation: &str) -> String {
    let mut out: Vec<&str> = Vec::new();
    out.extend_from_slice(&lines[0..start]);
    out.extend(implementation.lines());
    if end + 1 < lines.len() {
        out.extend_from_slice(&lines[end + 1..]);
    }
    out.join("\n") + "\n"
}

fn std_replace(text: &str, start: usize, implementation: &str) -> Option<String> {
    let lines: Vec<&str> = text.lines().collect();
    if start >= lines.len() {
        return None;
    }
    let end = std_end(&lines, start)?;
    Some(std_splice(&lines, start, end, implementation))
}

fn std_rewrite(
    text: &str,
    line: usize,
    implementation: &str,
    expected: Option<&str>,
) -> Result<(String, u32, u32, i32), String> {
    let lines: Vec<&str> = text.lines().collect();
    if line >= lines.len() {
        return Err("Line out of bounds".to_string());
    }
    let mut start = std_find_start(&lines, line);
    if let Some(expected) = expected {
        let kept = match start {
            Some(found) => std_match(lines[found].trim(), expected),
            None => false,
        };
        if !kept {
            start = std_forward(&lines, line, expected);
            if start.is_none() {
                start = std_forward(&lines, 0, expected);
            }
        }
    }
    let start = start.ok_or_else(|| "Could not find function start".to_string())?;
    let end = std_end(&lines, start).ok_or_else(|| "Could not find function end".to_string())?;
    let delta = implementation.lines().count() as i32 - (end - start + 1) as i32;
    Ok((std_splice(&lines, start, end, implementation), start as u32, end as u32, delta))
}

fn std_strip(s: &str) -> String {
    let trimmed = s.trim();
    if trimmed.starts_with("```") && trimmed.ends_with("```") {
        let lines: Vec<&str> = trimmed.lines().collect();
        if lines.len() >= 2 {
            return lines[1..lines.len() - 1].join("\n");
        }
    }
    s.to_string()
}

fn std_offset(text: &str, line: u32, character: u32) -> usize {
    let chars: Vec<char> = text.chars().collect();
    let mut start = 0usize;
    for _ in 0..line {
        match chars[start..].iter().position(|&c| c == '\n') {
            Some(at) => start += at + 1,
            None => return chars.len(),
        }
    }
    let width = chars[start..].iter().position(|&c| c == '\n').unwrap_or(chars.len() - start);
    start + (character as usize).min(width)
}

struct Texts {
    state: u64,
}

impl Texts {
    fn next(&mut self, bound: usize) -> usize {
        self.state = self.state.wrapping_mul(6364136223846793005).wrapping_add(1442695040888963407);
        ((self.state >> 33) as usize) % bound
    }

    fn text(&mut self, pieces: &[&str], most: usize) -> String {
        let n = self.next(most + 1);
        let mut out = String::new();
        for _ in 0..n {
            out.push_str(pieces[self.next(pieces.len())]);
        }
        out
    }
}

const WORDS: [&str; 40] = [
    "fn ", " fn ", "fn", "pub fn ", "async fn ", "pub async fn ", "pub(crate) fn ", "def ",
    "async def ", "void ", "int ", "bool ", "char ", "float ", "double ", "public ", "private ",
    "protected ", "static ", "(", ")", "{", "}", "<", ">", ":", " ", "  ", "\t", "a", "name",
    "x1", "é", "\u{a0}", "\u{3000}", "::", ",", "let ", "-> u8", ";",
];

const BREAKS: [&str; 5] = ["\n", "\n", "\r\n", "\r", "\n\n"];

fn source(texts: &mut Texts, most_lines: usize) -> String {
    let n = texts.next(most_lines + 1);
    let mut out = String::new();
    for _ in 0..n {
        out.push_str(&texts.text(&WORDS, 5));
        out.push_str(BREAKS[texts.next(BREAKS.len())]);
    }
    if texts.next(3) == 0 {
        out.push_str(&texts.text(&WORDS, 3));
    }
    out
}

#[test]
fn lines_are_recognised_alike() {
    let mut texts = Texts { state: 1 };
    for _ in 0..20000 {
        let line = texts.text(&WORDS, 6);
        assert_eq!(is_function_start(&line), std_is_function_start(&line), "{:?}", line);
    }
}

#[test]
fn names_are_read_alike() {
    let mut texts = Texts { state: 2 };
    for _ in 0..20000 {
        let line = texts.text(&WORDS, 7);
        assert_eq!(extract_function_name(&line), std_name(&line), "{:?}", line);
    }
}

#[test]
fn signatures_are_matched_alike() {
    let mut texts = Texts { state: 3 };
    for _ in 0..10000 {
        let a = texts.text(&WORDS, 5);
        let b = if texts.next(4) == 0 { format!(" {}\t", a) } else { texts.text(&WORDS, 5) };
        assert_eq!(signatures_match(&a, &b), std_match(&a, &b), "{:?} {:?}", a, b);
        assert!(signatures_match(&a, &a));
    }
}

#[test]
fn functions_are_located_alike() {
    let mut texts = Texts { state: 4 };
    for _ in 0..3000 {
        let text = source(&mut texts, 8);
        let lines: Vec<&str> = text.lines().collect();
        let expected = texts.text(&WORDS, 4);
        for from in 0..lines.len() + 2 {
            assert_eq!(find_function_start(&lines, from), std_find_start(&lines, from), "{:?}", text);
            assert_eq!(find_function_end(&lines, from), std_end(&lines, from), "{:?}", text);
            assert_eq!(
                find_function_start_forward(&lines, from, &expected),
                std_forward(&lines, from, &expected),
                "{:?} {:?}",
                text,
                expected
            );
            assert_eq!(
                extract_function_signature(&text, from),
                std_find_start(&lines, from).map(|s| lines[s].trim().to_string()),
                "{:?}",
                text
            );
        }
        assert_eq!(
            find_function_by_signature(&lines, &expected),
            std_forward(&lines, 0, &expected),
            "{:?} {:?}",
            text,
            expected
        );
    }
}

#[test]
fn functions_are_replaced_alike() {
    let mut texts = Texts { state: 5 };
    for _ in 0..3000 {
        let text = source(&mut texts, 8);
        let implementation = source(&mut texts, 3);
        let count = text.lines().count();
        for start in 0..count + 2 {
            assert_eq!(
                replace_function(&text, start, &implementation),
                std_replace(&text, start, &implementation),
                "{:?} {:?}",
                text,
                implementation
            );
        }
    }
}

#[test]
fn documents_are_rewritten_alike() {
    let mut texts = Texts { state: 6 };
    for _ in 0..3000 {
        let text = source(&mut texts, 8);
        let implementation = source(&mut texts, 3);
        let picked = texts.text(&WORDS, 4);
        let lines: Vec<&str> = text.lines().collect();
        let expected: Option<&str> = match texts.next(3) {
            0 => None,
            1 if !lines.is_empty() => Some(lines[texts.next(lines.len())]),
            _ => Some(&picked),
        };
        for line in 0..lines.len() + 1 {
            assert_eq!(
                replace_function_in_document(&text, line, &implementation, expected),
                std_rewrite(&text, line, &implementation, expected),
                "{:?} {:?} {:?}",
                text,
                implementation,
                expected
            );
        }
    }
}

#[test]
fn fences_are_stripped_alike() {
    let pieces = ["```", "```rust", "\n", "\r\n", " ", "code", "``", "`", "\t", "x"];
    let mut texts = Texts { state: 7 };
    for _ in 0..20000 {
        let text = texts.text(&pieces, 7);
        assert_eq!(strip_markdown_code_block(&text), std_strip(&text), "{:?}", text);
    }
}

#[test]
fn offsets_are_counted_alike() {
    let pieces = ["a", "é", "\n", "\r\n", "bc", " "];
    let mut texts = Texts { state: 8 };
    for _ in 0..3000 {
        let text = texts.text(&pieces, 8);
        for line in 0..5 {
            for character in 0..6 {
                assert_eq!(
                    position_to_offset(&text, Position { line, character }),
                    std_offset(&text, line, character),
                    "{:?} {} {}",
                    text,
                    line,
                    character
                );
            }
        }
    }
}
