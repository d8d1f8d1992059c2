use mdbook_inplace_notes::preprocessor::{
    InplaceNote, PreprocessorSettings, SetupWarning, BLOCK_NOTE_END, BLOCK_NOTE_MIDDLE,
    BLOCK_NOTE_START, INLINE_NOTE_END, INLINE_NOTE_MIDDLE, INLINE_NOTE_START, NAME, POPOVER_CSS,
};
use mdbook_inplace_notes::render::{note_has_blocks, render_note_html, strip_single_paragraph};
use mdbook_inplace_notes::scan::{split_notes, Segment};

fn settings(version: &str, renderer: &str, markdown: Option<bool>) -> PreprocessorSettings {
    PreprocessorSettings {
        mdbook_version: version.to_string(),
        renderer: renderer.to_string(),
        markdown,
    }
}

fn html_mode() -> InplaceNote {
    InplaceNote::new(&settings("0.5.4", "html", None))
}

fn markdown_mode() -> InplaceNote {
    InplaceNote::new(&settings("0.5.4", "markdown", Some(true)))
}

fn inline(idx: &str, html: &str) -> String {
    format!("{INLINE_NOTE_START}{idx}{INLINE_NOTE_MIDDLE}{html}{INLINE_NOTE_END}")
}

#[test]
fn html_mode_inline_note() {
    let out = html_mode().process_chapter("Hello{{note: a tip}} world");
    let expected = format!("{POPOVER_CSS}\nHello{} world", inline("1", "a tip"));
    assert_eq!(out, expected);
    assert!(out.contains(
        "<span class=\"inplace-note-inline\"><sup class=\"inplace-note-trigger\">1</sup>"
    ));
}

#[test]
fn html_mode_block_note() {
    let content = "Ownership{{note:\n\n- one\n- two\n}} matters";
    let out = html_mode().process_chapter(content);
    let rendered = render_note_html("- one\n- two\n");
    assert!(note_has_blocks(&rendered));
    let expected =
        format!("{POPOVER_CSS}\nOwnership{BLOCK_NOTE_START}1{BLOCK_NOTE_MIDDLE}{rendered}{BLOCK_NOTE_END} matters");
    assert_eq!(out, expected);
    assert!(out.contains("<div class=\"inplace-note-block\"><sup class=\"inplace-note-trigger\">1</sup>"));
}

#[test]
fn markdown_mode_footnotes() {
    let out = markdown_mode().process_chapter("A{{note: first}} B{{note: *second*}} C");
    assert_eq!(
        out,
        "A[^1] B[^2] C\n---\n\n\n[^1]: first\n\n[^2]: *second*"
    );
}

#[test]
fn no_notes_unchanged_in_both_modes() {
    let content = "# Title\n\nNo notes {here} at all.\n";
    assert_eq!(html_mode().process_chapter(content), content);
    assert_eq!(markdown_mode().process_chapter(content), content);
    assert_eq!(html_mode().process_chapter(""), "");
}

#[test]
fn unclosed_marker_is_text() {
    let content = "before {{note: never closed";
    assert_eq!(html_mode().process_chapter(content), content);
    let segs = split_notes(content);
    assert_eq!(segs.len(), 1);
}

#[test]
fn numbering_goes_past_nine() {
    let content = "x{{note:a}}".repeat(11);
    let out = markdown_mode().process_chapter(&content);
    assert!(out.starts_with("x[^1]x[^2]"));
    assert!(out.contains("x[^10]x[^11]\n---\n"));
    assert!(out.ends_with("\n\n[^11]: a"));
}

#[test]
fn assemble_with_given_html() {
    let segs = split_notes("a{{note: one}}b{{note: two}}c");
    let rendered = vec!["<p>x</p><p>y</p>".to_string(), "plain".to_string()];
    let out = html_mode().assemble(&segs, &rendered);
    let expected = format!(
        "{POPOVER_CSS}\na{BLOCK_NOTE_START}1{BLOCK_NOTE_MIDDLE}<p>x</p><p>y</p>{BLOCK_NOTE_END}b{}c",
        inline("2", "plain")
    );
    assert_eq!(out, expected);
    let md = markdown_mode().assemble(&segs, &rendered);
    assert_eq!(md, "a[^1]b[^2]c\n---\n\n\n[^1]: <p>x</p><p>y</p>\n\n[^2]: plain");
}

#[test]
fn marker_whitespace_and_closing() {
    let segs = split_notes("{{note:\u{a0}\n\t x }}} y");
    let pieces: Vec<String> = segs
        .iter()
        .map(|s| match s {
            Segment::Text(t) => format!("T:{t}"),
            Segment::Note(n) => format!("N:{n}"),
        })
        .collect();
    assert_eq!(pieces, vec!["T:", "N:x ", "T:} y"]);
}

#[test]
fn strip_single_paragraph_cases() {
    assert_eq!(strip_single_paragraph("<p>hi</p>\n".to_string()), "hi");
    assert_eq!(strip_single_paragraph("  <p>x</p>  ".to_string()), "x");
    assert_eq!(strip_single_paragraph("<p>a</p>\n<p>b</p>\n".to_string()), "<p>a</p>\n<p>b</p>\n");
    assert_eq!(strip_single_paragraph("<ul>\n<li>a</li>\n</ul>\n".to_string()), "<ul>\n<li>a</li>\n</ul>\n");
    assert_eq!(strip_single_paragraph("".to_string()), "");
}

#[test]
fn has_blocks_cases() {
    assert!(!note_has_blocks("<p>a</p>"));
    assert!(note_has_blocks("<p>a</p><p>b</p>"));
    assert!(note_has_blocks("<hr />"));
    assert!(note_has_blocks("<h2>T</h2>"));
    assert!(!note_has_blocks("  plain <em>x</em> "));
    assert!(!note_has_blocks(""));
}

#[test]
fn rendering_goes_through_markdown() {
    let html = render_note_html("# Head");
    assert_eq!(html, "<h1>Head</h1>\n");
    assert!(note_has_blocks(&html));
}

#[test]
fn renderer_support_and_name() {
    assert!(InplaceNote::supports_renderer("html"));
    assert!(InplaceNote::supports_renderer("markdown"));
    assert!(!InplaceNote::supports_renderer("not-supported"));
    assert_eq!(html_mode().name(), NAME);
    assert_eq!(NAME, "inplace-note-preprocessor");
}

#[test]
fn markdown_setting() {
    assert!(InplaceNote::new(&settings("v", "html", Some(true))).markdown_mode());
    assert!(!InplaceNote::new(&settings("v", "html", Some(false))).markdown_mode());
    assert!(!InplaceNote::new(&settings("v", "html", None)).markdown_mode());
    assert!(!InplaceNote::default().markdown_mode());
}

#[test]
fn setup_warning_cases() {
    let s = settings("0.4.0", "pdf", None);
    assert_eq!(
        InplaceNote::new(&s).setup_warnings(&s, "0.5.4"),
        vec![SetupWarning::VersionMismatch, SetupWarning::NonHtmlRenderer]
    );
    let s = settings("0.5.4", "linkcheck", None);
    assert!(InplaceNote::new(&s).setup_warnings(&s, "0.5.4").is_empty());
    let s = settings("0.5.4", "pdf", Some(true));
    assert!(InplaceNote::new(&s).setup_warnings(&s, "0.5.4").is_empty());
    let s = settings("0.5.4", "epub", None);
    assert_eq!(
        InplaceNote::new(&s).setup_warnings(&s, "0.5.4"),
        vec![SetupWarning::NonHtmlRenderer]
    );
}

#[test]
fn block_elements_with_attributes() {
    assert!(note_has_blocks("<ol start=\"3\">\n<li>a</li>\n</ol>\n"));
    assert!(note_has_blocks("<h1 id=\"x\">T</h1>\n"));
    assert!(note_has_blocks(
        "<div class=\"footnote-definition\" id=\"1\"><sup class=\"footnote-definition-label\">1</sup></div>\n"
    ));
    assert!(note_has_blocks("<p>a</p>\n<table\n><tr><td>1</td></tr></table>"));
    assert!(!note_has_blocks("<p>see <param> and <pa> and <h1x></p>"));
    assert!(!note_has_blocks("<span class=\"x\">inline</span>"));
}

#[test]
fn rendered_block_elements_with_attributes() {
    let ordered = render_note_html("3. a");
    assert_eq!(ordered, "<ol start=\"3\">\n<li>a</li>\n</ol>\n");
    assert!(note_has_blocks(&ordered));
    let heading = render_note_html("# T {#x}");
    assert_eq!(heading, "<h1 id=\"x\">T</h1>\n");
    assert!(note_has_blocks(&heading));
    let out = html_mode().process_chapter("x{{note: 3. a}}y");
    assert_eq!(
        out,
        format!("{POPOVER_CSS}\nx{BLOCK_NOTE_START}1{BLOCK_NOTE_MIDDLE}{ordered}{BLOCK_NOTE_END}y")
    );
}

#[test]
fn paragraph_with_nested_block_attribute_kept() {
    let html = "<p>a <div class=\"c\">b</div></p>";
    assert_eq!(strip_single_paragraph(html.to_string()), html);
    assert_eq!(strip_single_paragraph("<p>a <em class=\"c\">b</em></p>".to_string()), "a <em class=\"c\">b</em>");
}

#[test]
fn markdown_mode_keeps_note_markdown() {
    let out = markdown_mode().process_chapter("x{{note: **b**}}");
    assert_eq!(out, "x[^1]\n---\n\n\n[^1]: **b**");
    assert!(!out.contains("<strong>"));
}

#[test]
fn more_block_level_elements() {
    assert!(note_has_blocks("<section class=\"s\">x</section>"));
    assert!(note_has_blocks("<p>a <details><summary>s</summary>b</details></p>"));
    assert!(note_has_blocks("<li>x</li>"));
    assert!(note_has_blocks("<dl>\n<dt>t</dt></dl>"));
    assert!(!note_has_blocks("<p>a <link> <nav2> <sectionx></p>"));
    assert_eq!(
        strip_single_paragraph("<p>a <figure>f</figure></p>".to_string()),
        "<p>a <figure>f</figure></p>"
    );
}
