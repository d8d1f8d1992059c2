use mdbook_inplace_notes::preprocessor::InplaceNote;
use mdbook_inplace_notes::preprocessor::PreprocessorSettings;
use mdbook_inplace_notes::render::{note_has_blocks, strip_single_paragraph};
use mdbook_inplace_notes::scan::{split_notes, Segment};

#[test]
fn pieces_alternate_text_and_note() {
    let segs = split_notes("{{note:a}}{{note:b}}x{{note: c");
    assert_eq!(segs.len(), 5);
    for (k, seg) in segs.iter().enumerate() {
        assert_eq!(matches!(seg, Segment::Text(_)), k % 2 == 0);
    }
    assert!(matches!(&segs[4], Segment::Text(t) if t == "x{{note: c"));
}

#[test]
fn pieces_rebuild_the_chapter() {
    let input = "a{{note:  b}}c{{note:\n\nd\n}}e";
    let gaps = ["  ", "\n\n"];
    let mut rebuilt = String::new();
    let mut k = 0;
    for seg in split_notes(input) {
        match seg {
            Segment::Text(t) => rebuilt.push_str(&t),
            Segment::Note(n) => {
                assert!(!n.contains("}}"));
                assert!(!n.starts_with(char::is_whitespace));
                rebuilt.push_str(&format!("{{{{note:{}{}}}}}", gaps[k], n));
                k += 1;
            }
        }
    }
    assert_eq!(k, 2);
    assert_eq!(rebuilt, input);
}

#[test]
fn stripping_keeps_the_popover_kind() {
    for html in [
        "<p>hi</p>\n",
        "<p>a</p>\n<p>b</p>\n",
        "<ul>\n<li>x</li>\n</ul>\n",
        " <p> <p>x</p> </p> ",
        "<p><hr /></p>",
        "",
        "plain",
    ] {
        let stripped = strip_single_paragraph(html.to_string());
        assert_eq!(note_has_blocks(&stripped), note_has_blocks(html), "html: {html:?}");
        if note_has_blocks(html) {
            assert_eq!(stripped, html);
        }
    }
}

#[test]
fn chapter_without_closed_marker_is_kept() {
    let md = InplaceNote::new(&PreprocessorSettings {
        mdbook_version: String::new(),
        renderer: "html".to_string(),
        markdown: Some(true),
    });
    for content in ["", "text", "{{note: x", "}} {{note", "a }}{{note:"] {
        assert_eq!(md.process_chapter(content), content);
        assert_eq!(InplaceNote::default().process_chapter(content), content);
    }
}
