use mdbook_inplace_notes::render::{note_has_blocks, render_note_html};
use mdbook_inplace_notes::scan::{split_notes, Segment};

/// Replaces each note by `[n]` (numbered from 1) and collects the notes'
/// contents, as a `replace_all` over the note markers would.
fn number_notes(input: &str) -> (String, Vec<String>) {
    let mut notes: Vec<String> = vec![];
    let mut result = String::new();
    for seg in split_notes(input) {
        match seg {
            Segment::Text(t) => result.push_str(&t),
            Segment::Note(n) => {
                notes.push(n);
                result.push_str(&format!("[{}]", notes.len()));
            }
        }
    }
    (result, notes)
}

#[test]
fn test_regex_simple_note() {
    let input = "Hello{{note: a tip}} world";
    let (result, notes) = number_notes(input);
    assert_eq!(result, "Hello[1] world");
    assert_eq!(notes, vec!["a tip"]);
}

#[test]
fn test_regex_multiline_note() {
    let input = "Text{{note: line1\nline2}} end";
    let (_, notes) = number_notes(input);
    assert_eq!(notes, vec!["line1\nline2"]);
}

#[test]
fn test_regex_multiple_notes() {
    let input = "A{{note: first}} B{{note: second}} C";
    let (result, notes) = number_notes(input);
    assert_eq!(result, "A[1] B[2] C");
    assert_eq!(notes, vec!["first", "second"]);
}

#[test]
fn test_render_note_html_inline() {
    let html = render_note_html("just some text");
    // Should NOT have <p> wrapper
    assert!(!html.contains("<p>"), "unexpected <p>: {html}");
    assert_eq!(html.trim(), "just some text");
}

#[test]
fn test_render_note_html_with_formatting() {
    let html = render_note_html("**bold** and *italic*");
    assert!(html.contains("<strong>bold</strong>"));
    assert!(html.contains("<em>italic</em>"));
    assert!(!html.contains("<p>"), "unexpected <p>: {html}");
}

#[test]
fn test_render_note_html_with_code() {
    let html = render_note_html("use `foo()` here");
    assert!(html.contains("<code>foo()</code>"));
}

#[test]
fn test_render_note_html_with_block_elements() {
    // Content with a list should keep <p> tags
    let html = render_note_html("para\n\n- item 1\n- item 2");
    assert!(html.contains("<ul>"), "expected <ul> in: {html}");
    assert!(html.contains("<li>"), "expected <li> in: {html}");
}

#[test]
fn test_render_note_html_empty() {
    let html = render_note_html("");
    assert!(html.is_empty() || html == "<p>\n</p>\n");
}

#[test]
fn test_note_has_blocks_inline() {
    let html = render_note_html("just text");
    assert!(!note_has_blocks(&html));
}

#[test]
fn test_note_has_blocks_with_list() {
    let html = render_note_html("text\n\n- item");
    assert!(note_has_blocks(&html));
}

#[test]
fn test_note_has_blocks_with_codeblock() {
    let html = render_note_html("```rust\nlet x = 1;\n```");
    assert!(note_has_blocks(&html));
}

#[test]
fn test_note_has_blocks_with_table() {
    let html = render_note_html("| a | b |\n|---|---|\n| 1 | 2 |");
    assert!(note_has_blocks(&html));
}
