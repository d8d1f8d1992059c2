//! The preprocessor itself: its settings, the renderers it supports, and
//! how it rewrites a chapter, replacing each note marker by a numbered
//! popover (HTML mode) or a numbered footnote (Markdown mode).
use vstd::prelude::*;
use crate::render::{has_blocks, note_has_blocks, render_note_html, rendered_note};
use crate::scan::{next_note, segments, segments_view, split_notes, Segment, SegmentView};
use crate::text::{chars_of, decimal, push_decimal};

verus! {

broadcast use vstd::string::group_string_axioms;

/// Name of this preprocessor.
pub const NAME: &'static str = "inplace-note-preprocessor";

/// The CSS injected once per chapter when notes are present.
///
/// All colors use `var()` references to mdBook's CSS custom properties
/// so the popover automatically adapts to the current theme (light, coal,
/// navy, ayu, rust, or any custom theme).
pub const POPOVER_CSS: &'static str = r#"<style>
.inplace-note-trigger {
  font-size: 0.75em;
  vertical-align: super;
  line-height: 0;
  color: var(--links, #0969da);
  font-weight: 600;
  cursor: help;
}
/* Inline wrapper — surrounds trigger in inline context */
.inplace-note-inline {
  position: relative;
  display: inline;
}
/* Popover for inline-only notes (no block elements) */
.inplace-note-inline .inplace-note-popover-inline {
  display: none;
  position: absolute;
  bottom: calc(100% + 10px);
  left: 50%;
  transform: translateX(-50%);
  background: var(--theme-popup-bg, var(--bg, #fff));
  color: var(--fg, #000);
  border: 1px solid var(--theme-popup-border, #d0d7de);
  border-radius: 8px;
  padding: 10px 14px;
  min-width: 200px;
  max-width: 380px;
  box-shadow: 0 8px 24px rgba(0,0,0,0.15);
  z-index: 1000;
  font-size: 1.6rem;
  font-weight: normal;
  line-height: 1.5;
  text-align: left;
  white-space: normal;
  cursor: auto;
}
.inplace-note-inline .inplace-note-popover-inline::after {
  content: "";
  position: absolute;
  top: 100%;
  left: 50%;
  transform: translateX(-50%);
  border: 7px solid transparent;
  border-top-color: var(--theme-popup-bg, var(--bg, #fff));
}
.inplace-note-inline .inplace-note-popover-inline::before {
  content: "";
  position: absolute;
  top: 100%;
  left: 50%;
  transform: translateX(-50%);
  border: 8px solid transparent;
  border-top-color: var(--theme-popup-border, #d0d7de);
}
.inplace-note-inline:hover .inplace-note-popover-inline {
  display: block;
}
/* Block wrapper — used when note content has block elements */
.inplace-note-block {
  position: relative;
  display: inline-block;
  vertical-align: top;
}
.inplace-note-block .inplace-note-popover-block {
  display: none;
  position: absolute;
  bottom: calc(100% + 10px);
  left: 50%;
  transform: translateX(-50%);
  background: var(--theme-popup-bg, var(--bg, #fff));
  color: var(--fg, #000);
  border: 1px solid var(--theme-popup-border, #d0d7de);
  border-radius: 8px;
  padding: 12px 16px;
  min-width: 240px;
  max-width: 420px;
  box-shadow: 0 8px 24px rgba(0,0,0,0.15);
  z-index: 1000;
  font-size: 1.6rem;
  font-weight: normal;
  line-height: 1.5;
  text-align: left;
  white-space: normal;
  cursor: auto;
}
.inplace-note-block .inplace-note-popover-block::after {
  content: "";
  position: absolute;
  top: 100%;
  left: 50%;
  transform: translateX(-50%);
  border: 7px solid transparent;
  border-top-color: var(--theme-popup-bg, var(--bg, #fff));
}
.inplace-note-block .inplace-note-popover-block::before {
  content: "";
  position: absolute;
  top: 100%;
  left: 50%;
  transform: translateX(-50%);
  border: 8px solid transparent;
  border-top-color: var(--theme-popup-border, #d0d7de);
}
.inplace-note-block:hover .inplace-note-popover-block {
  display: block;
}
/* Popover inner content styling */
.inplace-note-content a {
  color: var(--links, #0969da);
}
.inplace-note-content a:hover {
  color: var(--links, #0969da);
}
.inplace-note-content p {
  margin: 0.25em 0;
}
.inplace-note-content p:first-child {
  margin-top: 0;
}
.inplace-note-content p:last-child {
  margin-bottom: 0;
}
.inplace-note-content pre {
  margin: 0.5em 0;
  padding: 8px 12px;
  font-size: var(--code-font-size, 0.875em);
  background: var(--quote-bg, #f6f8fa);
}
.inplace-note-content code {
  font-size: var(--code-font-size, 0.875em);
  color: var(--inline-code-color, #301900);
}
.inplace-note-content pre code {
  color: var(--fg, #000);
}
.inplace-note-content ul,
.inplace-note-content ol {
  margin: 0.25em 0;
  padding-left: 1.5em;
}
.inplace-note-content blockquote {
  margin: 0.5em 0;
  padding: 0 0.75em;
  border-left: 3px solid var(--theme-popup-border, #d0d7de);
  color: var(--fg, #656d76);
}
.inplace-note-content table {
  margin: 0.5em 0;
  border-collapse: collapse;
  font-size: 0.85em;
}
.inplace-note-content th,
.inplace-note-content td {
  padding: 4px 8px;
  border: 1px solid var(--table-border-color, #d0d7de);
}
.inplace-note-content th {
  background: var(--table-header-bg, #f6f8fa);
}
.inplace-note-content td {
  background: var(--theme-popup-bg, var(--bg, #fff));
}
</style>"#;

/// Opens a note whose content holds block-level elements; the note's
/// number follows.
pub const BLOCK_NOTE_START: &'static str = "\n\n<div class=\"inplace-note-block\"><sup class=\"inplace-note-trigger\">";

/// Between a block note's number and its HTML.
pub const BLOCK_NOTE_MIDDLE: &'static str = "</sup><div class=\"inplace-note-popover-block\"><div class=\"inplace-note-content\">";

/// Closes a block note.
pub const BLOCK_NOTE_END: &'static str = "</div></div></div>\n\n";

/// Opens an inline note; the note's number follows.
pub const INLINE_NOTE_START: &'static str = "<span class=\"inplace-note-inline\"><sup class=\"inplace-note-trigger\">";

/// Between an inline note's number and its HTML.
pub const INLINE_NOTE_MIDDLE: &'static str = "</sup><span class=\"inplace-note-popover-inline\"><span class=\"inplace-note-content\">";

/// Closes an inline note.
pub const INLINE_NOTE_END: &'static str = "</span></span></span>";

/// Opens a footnote reference `[^n]`.
pub const FOOTNOTE_REF_START: &'static str = "[^";

/// Closes a footnote reference.
pub const FOOTNOTE_REF_END: &'static str = "]";

/// The rule that separates a chapter from its footnote definitions.
pub const FOOTNOTE_RULE: &'static str = "\n---\n";

/// Opens a footnote definition `[^n]: html`.
pub const FOOTNOTE_DEF_START: &'static str = "\n\n[^";

/// Between a footnote definition's number and its HTML.
pub const FOOTNOTE_DEF_MIDDLE: &'static str = "]: ";

/// Between the injected CSS and the chapter.
pub const CSS_SEPARATOR: &'static str = "\n";


/// The text that replaces the `idx`-th note (counting from 1) whose
/// popover HTML is `html`: a footnote reference in Markdown mode; in HTML
/// mode a block popover when `html` holds block-level elements and an
/// inline popover otherwise.
pub open spec fn note_marker(md: bool, idx: nat, html: Seq<char>) -> Seq<char> {
    if md {
        FOOTNOTE_REF_START@ + decimal(idx) + FOOTNOTE_REF_END@
    } else if has_blocks(html) {
        BLOCK_NOTE_START@ + decimal(idx) + BLOCK_NOTE_MIDDLE@ + html + BLOCK_NOTE_END@
    } else {
        INLINE_NOTE_START@ + decimal(idx) + INLINE_NOTE_MIDDLE@ + html + INLINE_NOTE_END@
    }
}

/// The marker of the `idx`-th note (counting from 1). In Markdown mode it
/// is the footnote reference `[^idx]`. In HTML mode it is the number in a
/// `<sup class="inplace-note-trigger">` followed by the popover holding the
/// note's HTML, all inside a `<div class="inplace-note-block">` set on
/// lines of its own when the HTML holds block-level elements, and inside a
/// `<span class="inplace-note-inline">` otherwise.
pub proof fn lemma_note_marker_text(md: bool, idx: nat, html: Seq<char>)
    ensures
        md ==> note_marker(md, idx, html) == seq!['[', '^'] + decimal(idx) + seq![']'],
        !md && has_blocks(html) ==> note_marker(md, idx, html) == "\n\n<div class=\"inplace-note-block\">"@
            + "<sup class=\"inplace-note-trigger\">"@ + decimal(idx) + "</sup>"@
            + "<div class=\"inplace-note-popover-block\">"@ + "<div class=\"inplace-note-content\">"@
            + html + "</div></div></div>\n\n"@,
        !md && !has_blocks(html) ==> note_marker(md, idx, html) == "<span class=\"inplace-note-inline\">"@
            + "<sup class=\"inplace-note-trigger\">"@ + decimal(idx) + "</sup>"@
            + "<span class=\"inplace-note-popover-inline\">"@ + "<span class=\"inplace-note-content\">"@
            + html + "</span></span></span>"@,
{
    reveal_strlit("[^");
    reveal_strlit("]");
    reveal_strlit("\n\n<div class=\"inplace-note-block\"><sup class=\"inplace-note-trigger\">");
    reveal_strlit("</sup><div class=\"inplace-note-popover-block\"><div class=\"inplace-note-content\">");
    reveal_strlit("</div></div></div>\n\n");
    reveal_strlit("<span class=\"inplace-note-inline\"><sup class=\"inplace-note-trigger\">");
    reveal_strlit("</sup><span class=\"inplace-note-popover-inline\"><span class=\"inplace-note-content\">");
    reveal_strlit("</span></span></span>");
    reveal_strlit("\n\n<div class=\"inplace-note-block\">");
    reveal_strlit("<sup class=\"inplace-note-trigger\">");
    reveal_strlit("</sup>");
    reveal_strlit("<div class=\"inplace-note-popover-block\">");
    reveal_strlit("<div class=\"inplace-note-content\">");
    reveal_strlit("<span class=\"inplace-note-inline\">");
    reveal_strlit("<span class=\"inplace-note-popover-inline\">");
    reveal_strlit("<span class=\"inplace-note-content\">");
    assert(FOOTNOTE_REF_START@ =~= seq!['[', '^']);
    assert(FOOTNOTE_REF_END@ =~= seq![']']);
    assert(BLOCK_NOTE_START@ =~= "\n\n<div class=\"inplace-note-block\">"@
        + "<sup class=\"inplace-note-trigger\">"@);
    assert(BLOCK_NOTE_MIDDLE@ =~= "</sup>"@ + "<div class=\"inplace-note-popover-block\">"@
        + "<div class=\"inplace-note-content\">"@);
    assert(INLINE_NOTE_START@ =~= "<span class=\"inplace-note-inline\">"@
        + "<sup class=\"inplace-note-trigger\">"@);
    assert(INLINE_NOTE_MIDDLE@ =~= "</sup>"@ + "<span class=\"inplace-note-popover-inline\">"@
        + "<span class=\"inplace-note-content\">"@);
    if md {
        assert(note_marker(md, idx, html) =~= seq!['[', '^'] + decimal(idx) + seq![']']);
    } else if has_blocks(html) {
        assert(note_marker(md, idx, html) =~= "\n\n<div class=\"inplace-note-block\">"@
            + "<sup class=\"inplace-note-trigger\">"@ + decimal(idx) + "</sup>"@
            + "<div class=\"inplace-note-popover-block\">"@ + "<div class=\"inplace-note-content\">"@
            + html + "</div></div></div>\n\n"@);
    } else {
        assert(note_marker(md, idx, html) =~= "<span class=\"inplace-note-inline\">"@
            + "<sup class=\"inplace-note-trigger\">"@ + decimal(idx) + "</sup>"@
            + "<span class=\"inplace-note-popover-inline\">"@ + "<span class=\"inplace-note-content\">"@
            + html + "</span></span></span>"@);
    }
}

/// Notes are numbered from 1 in the order they occur, and text is kept
/// as it is: a piece added at the end of a chapter adds its text, or, for
/// the chapter's `n`-th note (counting from 1), the marker numbered `n`
/// with that note's body; notes are collected in the same order.
pub proof fn lemma_note_numbering(md: bool, segs: Seq<SegmentView>, bodies: Seq<Seq<char>>, piece: SegmentView)
    ensures
        piece matches SegmentView::Text(t) ==> {
            &&& body(md, segs.push(piece), bodies) == body(md, segs, bodies) + t
            &&& notes_of(segs.push(piece)) == notes_of(segs)
        },
        piece matches SegmentView::Note(c) ==> {
            &&& body(md, segs.push(piece), bodies) == body(md, segs, bodies) + note_marker(
                md,
                notes_of(segs).len() + 1,
                bodies[notes_of(segs).len() as int],
            )
            &&& notes_of(segs.push(piece)) == notes_of(segs).push(c)
        },
{
    assert(segs.push(piece).drop_last() =~= segs);
    if let SegmentView::Note(c) = piece {
        assert(notes_of(segs.push(piece)) =~= notes_of(segs).push(c));
    } else {
        assert(notes_of(segs.push(piece)) =~= notes_of(segs));
    }
}

/// The frame around a chapter's text: without notes, nothing; with
/// notes, in Markdown mode a line `---` and the footnote definitions
/// after the text, in HTML mode the popover CSS and a line break before it.
pub proof fn lemma_chapter_frame(md: bool, segs: Seq<SegmentView>, bodies: Seq<Seq<char>>)
    ensures
        notes_of(segs).len() == 0 ==> assemble(md, segs, bodies) == body(md, segs, bodies),
        notes_of(segs).len() > 0 && md ==> assemble(md, segs, bodies) == body(md, segs, bodies)
            + seq!['\n', '-', '-', '-', '\n'] + footnotes(bodies),
        notes_of(segs).len() > 0 && !md ==> assemble(md, segs, bodies) == POPOVER_CSS@ + seq!['\n']
            + body(md, segs, bodies),
{
    reveal_strlit("\n---\n");
    reveal_strlit("\n");
    assert(FOOTNOTE_RULE@ =~= seq!['\n', '-', '-', '-', '\n']);
    assert(CSS_SEPARATOR@ =~= seq!['\n']);
}

/// The footnote definitions: the `k`-th (counting from 1) reads a blank
/// line, `[^k]: ` and the note's body, in order.
pub proof fn lemma_footnote_definitions(bodies: Seq<Seq<char>>, b: Seq<char>)
    ensures
        footnotes(bodies.push(b)) == footnotes(bodies) + seq!['\n', '\n', '[', '^'] + decimal(
            bodies.len() + 1,
        ) + seq![']', ':', ' '] + b,
{
    reveal_strlit("\n\n[^");
    reveal_strlit("]: ");
    assert(FOOTNOTE_DEF_START@ =~= seq!['\n', '\n', '[', '^']);
    assert(FOOTNOTE_DEF_MIDDLE@ =~= seq![']', ':', ' ']);
    assert(bodies.push(b).drop_last() =~= bodies);
    assert(footnotes(bodies.push(b)) =~= footnotes(bodies) + seq!['\n', '\n', '[', '^'] + decimal(
        bodies.len() + 1,
    ) + seq![']', ':', ' '] + b);
}

/// The contents of the notes among `segs`, in order.
pub open spec fn notes_of(segs: Seq<SegmentView>) -> Seq<Seq<char>>
    decreases segs.len(),
{
    if segs.len() == 0 {
        Seq::empty()
    } else {
        notes_of(segs.drop_last()) + match segs.last() {
            SegmentView::Text(_) => Seq::empty(),
            SegmentView::Note(c) => seq![c],
        }
    }
}

/// The chapter text with each note replaced by its marker; `bodies[k]`
/// is what the `k`-th note (counting from 0) shows (see `note_bodies`).
pub open spec fn body(md: bool, segs: Seq<SegmentView>, bodies: Seq<Seq<char>>) -> Seq<char>
    decreases segs.len(),
{
    if segs.len() == 0 {
        Seq::empty()
    } else {
        let prev = segs.drop_last();
        body(md, prev, bodies) + match segs.last() {
            SegmentView::Text(t) => t,
            SegmentView::Note(_) => {
                let k = notes_of(prev).len();
                note_marker(md, k + 1, bodies[k as int])
            },
        }
    }
}

/// The footnote definitions `\n\n[^n]: body` for the notes, numbered from 1.
pub open spec fn footnotes(bodies: Seq<Seq<char>>) -> Seq<char>
    decreases bodies.len(),
{
    if bodies.len() == 0 {
        Seq::empty()
    } else {
        footnotes(bodies.drop_last()) + FOOTNOTE_DEF_START@ + decimal(bodies.len())
            + FOOTNOTE_DEF_MIDDLE@ + bodies.last()
    }
}

/// A chapter put back together from its pieces and what its notes show. Without notes it is the text unchanged; with notes, HTML
/// mode puts the popover CSS in front, and Markdown mode appends a rule
/// and the footnote definitions.
pub open spec fn assemble(md: bool, segs: Seq<SegmentView>, bodies: Seq<Seq<char>>) -> Seq<char> {
    let b = body(md, segs, bodies);
    if notes_of(segs).len() == 0 {
        b
    } else if md {
        b + FOOTNOTE_RULE@ + footnotes(bodies)
    } else {
        POPOVER_CSS@ + CSS_SEPARATOR@ + b
    }
}

/// The popover HTML of each note content.
pub open spec fn render_all(notes: Seq<Seq<char>>) -> Seq<Seq<char>> {
    notes.map_values(|c: Seq<char>| rendered_note(c))
}

/// What each note shows: in Markdown mode, the note's Markdown as it was
/// written (Markdown is emitted instead of HTML); in HTML mode, its
/// popover HTML.
pub open spec fn note_bodies(md: bool, notes: Seq<Seq<char>>) -> Seq<Seq<char>> {
    if md {
        notes
    } else {
        render_all(notes)
    }
}

/// What the preprocessor makes of a chapter whose content is `content`.
pub open spec fn processed_chapter(md: bool, content: Seq<char>) -> Seq<char> {
    let segs = segments(content);
    assemble(md, segs, note_bodies(md, notes_of(segs)))
}

/// The views of a list of strings.
pub open spec fn strings_view(v: Seq<String>) -> Seq<Seq<char>> {
    v.map_values(|s: String| s@)
}

/// The renderers for which HTML notes are meant.
pub open spec fn is_html_renderer(renderer: Seq<char>) -> bool {
    renderer == "html"@ || renderer == "linkcheck"@
}

/// The renderers taken for HTML-based are exactly `html` and
/// `linkcheck`: in HTML mode, the start-up warnings name a non-HTML
/// renderer for every other renderer and for none of these two.
pub proof fn lemma_html_renderers(renderer: Seq<char>)
    ensures
        is_html_renderer(renderer) <==> (renderer == seq!['h', 't', 'm', 'l'] || renderer == seq![
            'l',
            'i',
            'n',
            'k',
            'c',
            'h',
            'e',
            'c',
            'k',
        ]),
{
    reveal_strlit("html");
    reveal_strlit("linkcheck");
    assert("html"@ =~= seq!['h', 't', 'm', 'l']);
    assert("linkcheck"@ =~= seq!['l', 'i', 'n', 'k', 'c', 'h', 'e', 'c', 'k']);
}

/// What the preprocessor's context tells it: the mdBook version that runs
/// it, the renderer the book is built for, and the value of the
/// `preprocessor.inplace-note.markdown` setting (`None` when it is absent
/// or not a boolean).
pub struct PreprocessorSettings {
    pub mdbook_version: String,
    pub renderer: String,
    pub markdown: Option<bool>,
}

/// A condition under which the preprocessor warns when it starts.
#[derive(PartialEq, Eq, Structural, Debug, Clone, Copy)]
pub enum SetupWarning {
    /// mdBook's version differs from the one the preprocessor was built
    /// against.
    VersionMismatch,
    /// HTML notes are emitted for a renderer that may not be HTML-based.
    NonHtmlRenderer,
}

/// A pre-processor that expands `{{note: ...}}` markers into inline hover popovers.
pub struct InplaceNote {
    /// Whether to emit Markdown instead of HTML (for non-HTML backends).
    md_notes: bool,
}

/// Whether two texts are the same.
fn same_text(a: &str, b: &str) -> (r: bool)
    ensures
        r == (a@ == b@),
{
    let x = chars_of(a);
    let y = chars_of(b);
    if x.len() != y.len() {
        return false;
    }
    let mut i: usize = 0;
    while i < x.len()
        invariant
            x@ == a@,
            y@ == b@,
            x.len() == y.len(),
            i <= x.len(),
            forall|k: int| 0 <= k < i ==> x@[k] == y@[k],
        decreases x.len() - i,
    {
        if x[i] != y[i] {
            assert(x@[i as int] != y@[i as int]);
            return false;
        }
        i = i + 1;
    }
    assert(x@ =~= y@);
    true
}

impl Default for InplaceNote {
    fn default() -> (r: Self)
        ensures
            !r.emits_markdown(),
    {
        InplaceNote { md_notes: false }
    }
}

impl InplaceNote {
    /// Whether notes become Markdown footnotes rather than HTML popovers.
    pub closed spec fn emits_markdown(&self) -> bool {
        self.md_notes
    }

    /// A preprocessor configured from its settings: Markdown mode exactly
    /// when the `markdown` setting is `true`.
    pub fn new(settings: &PreprocessorSettings) -> (r: Self)
        ensures
            r.emits_markdown() == (settings.markdown == Some(true)),
    {
        let md_notes = match settings.markdown {
            Some(b) => b,
            None => false,
        };
        InplaceNote { md_notes }
    }

    /// Whether notes become Markdown footnotes rather than HTML popovers.
    pub fn markdown_mode(&self) -> (b: bool)
        ensures
            b == self.emits_markdown(),
    {
        self.md_notes
    }

    /// The warnings due when the preprocessor starts, in order: a version
    /// mismatch when mdBook's version is not `built_version`, then a
    /// non-HTML renderer when HTML notes go to a renderer other than
    /// `html` or `linkcheck`.
    pub fn setup_warnings(&self, settings: &PreprocessorSettings, built_version: &str) -> (w: Vec<SetupWarning>)
        ensures
            w@ == (if settings.mdbook_version@ != built_version@ {
                seq![SetupWarning::VersionMismatch]
            } else {
                Seq::empty()
            }) + (if !self.emits_markdown() && !is_html_renderer(settings.renderer@) {
                seq![SetupWarning::NonHtmlRenderer]
            } else {
                Seq::empty()
            }),
    {
        let mut w: Vec<SetupWarning> = Vec::new();
        if !same_text(settings.mdbook_version.as_str(), built_version) {
            w.push(SetupWarning::VersionMismatch);
        }
        let ghost first = w@;
        if !self.md_notes {
            let renderer = settings.renderer.as_str();
            if !same_text(renderer, "html") && !same_text(renderer, "linkcheck") {
                w.push(SetupWarning::NonHtmlRenderer);
            }
        }
        assert(w@ =~= first + (if !self.emits_markdown() && !is_html_renderer(settings.renderer@) {
            seq![SetupWarning::NonHtmlRenderer]
        } else {
            Seq::empty()
        }));
        w
    }

    /// Indicate whether a renderer is supported. Markdown mode can target
    /// any renderer.
    pub fn supports_renderer(renderer: &str) -> (b: bool)
        ensures
            b == (renderer@ != "not-supported"@),
            b == (renderer@ != seq!['n', 'o', 't', '-', 's', 'u', 'p', 'p', 'o', 'r', 't', 'e', 'd']),
    {
        proof {
            reveal_strlit("not-supported");
            assert("not-supported"@ =~= seq!['n', 'o', 't', '-', 's', 'u', 'p', 'p', 'o', 'r', 't', 'e', 'd']);
        }
        !same_text(renderer, "not-supported")
    }

    /// Name of this preprocessor.
    pub fn name(&self) -> (n: &'static str)
        ensures
            n@ == NAME@,
            n@ == seq![
                'i', 'n', 'p', 'l', 'a', 'c', 'e', '-', 'n', 'o', 't', 'e', '-', 'p', 'r', 'e', 'p', 'r',
                'o', 'c', 'e', 's', 's', 'o', 'r',
            ],
    {
        proof {
            reveal_strlit("inplace-note-preprocessor");
            assert(NAME@ =~= seq![
                'i', 'n', 'p', 'l', 'a', 'c', 'e', '-', 'n', 'o', 't', 'e', '-', 'p', 'r', 'e', 'p', 'r',
                'o', 'c', 'e', 's', 's', 'o', 'r',
            ]);
        }
        NAME
    }
}


/// In Markdown mode the footnote definitions hold each note's Markdown
/// exactly as it was written in the chapter; in HTML mode each popover
/// holds the note's rendered HTML.
pub proof fn lemma_note_bodies_by_mode(content: Seq<char>)
    ensures
        processed_chapter(true, content) == assemble(true, segments(content), notes_of(segments(content))),
        processed_chapter(false, content) == assemble(
            false,
            segments(content),
            notes_of(segments(content)).map_values(|c: Seq<char>| rendered_note(c)),
        ),
{
}

/// A chapter in which no `{{note:` is closed by a later `}}` comes back
/// unchanged, in either mode: nothing is replaced, and neither CSS nor
/// footnote definitions are added.
pub proof fn lemma_no_notes_unchanged(md: bool, content: Seq<char>)
    requires
        next_note(content, 0) is None,
    ensures
        processed_chapter(md, content) == content,
{
    let segs = segments(content);
    assert(segs == seq![SegmentView::Text(content.subrange(0, content.len() as int))]);
    let none = Seq::<SegmentView>::empty();
    let r = note_bodies(md, notes_of(segs));
    assert(segs.drop_last() =~= none);
    assert(segs.last() == SegmentView::Text(content.subrange(0, content.len() as int)));
    assert(notes_of(none) =~= Seq::<Seq<char>>::empty());
    assert(body(md, none, r) =~= Seq::<char>::empty());
    assert(notes_of(segs) =~= Seq::<Seq<char>>::empty());
    assert(body(md, segs, r) =~= content);
}

/// A longer prefix of the pieces holds at least as many notes.
pub proof fn lemma_notes_of_prefix(segs: Seq<SegmentView>, i: int, j: int)
    requires
        0 <= i <= j <= segs.len(),
    ensures
        notes_of(segs.take(i)).len() <= notes_of(segs.take(j)).len(),
    decreases j - i,
{
    if i < j {
        lemma_notes_of_prefix(segs, i, j - 1);
        assert(segs.take(j).drop_last() =~= segs.take(j - 1));
    }
}

impl InplaceNote {
    /// Puts a chapter back together from its pieces and what its notes
    /// show (`bodies[k]` for the `k`-th note, counting from 0: its popover
    /// HTML in HTML mode, its Markdown in Markdown mode):
    /// each note becomes a numbered footnote reference (Markdown mode) or
    /// a numbered block or inline popover (HTML mode); then, if there are
    /// notes, Markdown mode appends the footnote definitions and HTML mode
    /// puts the popover CSS in front.
    pub fn assemble(&self, segs: &Vec<Segment>, bodies: &Vec<String>) -> (r: String)
        requires
            bodies.len() == notes_of(segments_view(segs@)).len(),
        ensures
            r@ == assemble(self.emits_markdown(), segments_view(segs@), strings_view(bodies@)),
    {
        let ghost md = self.emits_markdown();
        let ghost sv = segments_view(segs@);
        let ghost rv = strings_view(bodies@);
        let mut out = String::new();
        let mut k: usize = 0;
        let mut i: usize = 0;
        while i < segs.len()
            invariant
                md == self.emits_markdown(),
                sv == segments_view(segs@),
                rv == strings_view(bodies@),
                bodies.len() == notes_of(sv).len(),
                i <= segs.len(),
                k == notes_of(sv.take(i as int)).len(),
                out@ == body(md, sv.take(i as int), rv),
            decreases segs.len() - i,
        {
            proof {
                lemma_notes_of_prefix(sv, i as int + 1, sv.len() as int);
                assert(sv.take(sv.len() as int) =~= sv);
                assert(sv.take(i + 1).drop_last() =~= sv.take(i as int));
                assert(sv.take(i + 1).last() == segs@[i as int]@);
            }
            let ghost prev = out@;
            match &segs[i] {
                Segment::Text(t) => {
                    out.append(t.as_str());
                },
                Segment::Note(_) => {
                    if self.md_notes {
                        out.append(FOOTNOTE_REF_START);
                        push_decimal(&mut out, k + 1);
                        out.append(FOOTNOTE_REF_END);
                    } else {
                        let html = bodies[k].as_str();
                        if note_has_blocks(html) {
                            out.append(BLOCK_NOTE_START);
                            push_decimal(&mut out, k + 1);
                            out.append(BLOCK_NOTE_MIDDLE);
                            out.append(html);
                            out.append(BLOCK_NOTE_END);
                        } else {
                            out.append(INLINE_NOTE_START);
                            push_decimal(&mut out, k + 1);
                            out.append(INLINE_NOTE_MIDDLE);
                            out.append(html);
                            out.append(INLINE_NOTE_END);
                        }
                    }
                    assert(out@ =~= prev + note_marker(md, (k + 1) as nat, rv[k as int]));
                    k = k + 1;
                },
            }
            i = i + 1;
        }
        proof {
            assert(sv.take(i as int) =~= sv);
        }
        if k == 0 {
            return out;
        }
        if self.md_notes {
            let ghost b = out@;
            out.append(FOOTNOTE_RULE);
            let mut j: usize = 0;
            while j < k
                invariant
                    rv == strings_view(bodies@),
                    k == bodies.len(),
                    j <= k,
                    out@ == b + FOOTNOTE_RULE@ + footnotes(rv.take(j as int)),
                decreases k - j,
            {
                proof {
                    assert(rv.take(j + 1).drop_last() =~= rv.take(j as int));
                }
                let ghost prev = out@;
                out.append(FOOTNOTE_DEF_START);
                push_decimal(&mut out, j + 1);
                out.append(FOOTNOTE_DEF_MIDDLE);
                out.append(bodies[j].as_str());
                assert(out@ =~= prev + FOOTNOTE_DEF_START@ + decimal((j + 1) as nat) + FOOTNOTE_DEF_MIDDLE@
                    + rv[j as int]);
                j = j + 1;
            }
            proof {
                assert(rv.take(k as int) =~= rv);
            }
            out
        } else {
            let mut r = POPOVER_CSS.to_owned();
            r.append(CSS_SEPARATOR);
            r.append(out.as_str());
            r
        }
    }

    /// Rewrites a chapter: every `{{note: ...}}` marker gives way to its
    /// numbered popover or footnote reference. In HTML mode each note's
    /// Markdown is rendered to HTML for its popover; in Markdown mode the
    /// footnote definitions keep the note's Markdown. See `assemble` for
    /// the rest.
    pub fn process_chapter(&self, content: &str) -> (r: String)
        ensures
            r@ == processed_chapter(self.emits_markdown(), content@),
    {
        let ghost md = self.emits_markdown();
        let segs = split_notes(content);
        let ghost sv = segments_view(segs@);
        let mut bodies: Vec<String> = Vec::new();
        let mut i: usize = 0;
        while i < segs.len()
            invariant
                md == self.emits_markdown(),
                sv == segments_view(segs@),
                i <= segs.len(),
                strings_view(bodies@) == note_bodies(md, notes_of(sv.take(i as int))),
            decreases segs.len() - i,
        {
            proof {
                assert(sv.take(i + 1).drop_last() =~= sv.take(i as int));
                assert(sv.take(i + 1).last() == segs@[i as int]@);
            }
            let ghost prev = bodies@;
            let ghost before = notes_of(sv.take(i as int));
            match &segs[i] {
                Segment::Text(_) => {
                    assert(notes_of(sv.take(i + 1)) =~= before);
                    assert(bodies@ == prev);
                },
                Segment::Note(c) => {
                    let body = if self.md_notes {
                        c.clone()
                    } else {
                        render_note_html(c.as_str())
                    };
                    bodies.push(body);
                    assert(notes_of(sv.take(i + 1)) =~= before + seq![c@]);
                    assert(strings_view(bodies@) =~= strings_view(prev).push(body@));
                    assert(render_all(before + seq![c@]) =~= render_all(before).push(rendered_note(c@)));
                    assert(note_bodies(md, before + seq![c@]) =~= note_bodies(md, before).push(body@));
                },
            }
            assert(strings_view(bodies@) =~= note_bodies(md, notes_of(sv.take(i + 1))));
            i = i + 1;
        }
        proof {
            assert(sv.take(i as int) =~= sv);
        }
        self.assemble(&segs, &bodies)
    }
}

} // verus!
