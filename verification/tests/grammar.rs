//! The marker grammar against the regular expression it is written after.
use mdbook_inplace_notes::scan::{split_notes, Segment};
use regex::Regex;

fn by_regex(input: &str) -> (String, Vec<String>) {
    let re = Regex::new(r"(?s)\{\{note:\s*(?P<content>.*?)\}\}").unwrap();
    let mut notes: Vec<String> = vec![];
    let result = re
        .replace_all(input, |caps: &regex::Captures| {
            notes.push(caps.name("content").unwrap().as_str().to_owned());
            format!("[{}]", notes.len())
        })
        .to_string();
    (result, notes)
}

fn by_scanner(input: &str) -> (String, Vec<String>) {
    let mut notes: Vec<String> = vec![];
    let mut result = String::new();
    for seg in split_notes(input) {
        match seg {
            Segment::Text(t) => result.push_str(&t),
            Segment::Note(n) => {
                notes.push(n);
                result.push_str(&format!("[{}]", notes.len()));
            }
        }
    }
    (result, notes)
}

#[test]
fn scanner_agrees_with_regex() {
    let inputs = [
        "",
        "plain",
        "Hello{{note: a tip}} world",
        "A{{note: first}} B{{note: second}} C",
        "{{note:}}",
        "{{note:   }}",
        "{{note: a}}}",
        "{{{note: a}}",
        "{{note: {{note: inner}} tail}}",
        "{{note: open only",
        "{{note: a}} {{note: b",
        "x{{note:\u{2003}\u{3000}wide}}y",
        "{{note:\n\n- item\n- item\n\n}}",
        "héllo{{note: ünïcödé 黑}}wörld",
        "}}{{note:x}}}}",
        "{{note",
        "{{note:x}",
    ];
    for input in inputs {
        assert_eq!(by_scanner(input), by_regex(input), "input: {input:?}");
    }
}
