//! Rendering a note's Markdown to the HTML shown in its popover, and
//! telling whether that HTML holds block-level elements.
use vstd::prelude::*;
use crate::text::{
    chars_of, ends_with, lemma_trim_is_subrange, matches_at, matches_at_index, skip_ws, starts_with,
    trim, trim_back, trim_bounds,
};

verus! {

broadcast use vstd::string::group_string_axioms;

/// The Markdown extensions a note is rendered with, as the bits of
/// `pulldown_cmark::Options`: tables (bit 1), footnotes (bit 2),
/// strikethrough (bit 3), task lists (bit 4) and heading attributes (bit 6).
pub const NOTE_EXTENSIONS: u32 = (1u32 << 1u32) | (1u32 << 2u32) | (1u32 << 3u32) | (1u32 << 4u32)
    | (1u32 << 6u32);

/// The HTML that pulldown-cmark renders from `markdown` with the
/// extensions whose `Options` bits are `extensions`.
pub uninterp spec fn commonmark_html(markdown: Seq<char>, extensions: u32) -> Seq<char>;

/// Renders Markdown to HTML with `pulldown_cmark::Parser::new_ext` and
/// `pulldown_cmark::html::push_html` into a fresh `String`.
/// Trusted: the result is whatever pulldown-cmark renders from `markdown`
/// with the extension bits `extensions`; the HTML itself is not described.
#[verifier::external_body]
fn markdown_to_html(markdown: &str, extensions: u32) -> (html: String)
    ensures
        html@ == commonmark_html(markdown@, extensions),
{
    let options = pulldown_cmark::Options::from_bits_truncate(extensions);
    let parser = pulldown_cmark::Parser::new_ext(markdown, options);
    let mut html = String::new();
    pulldown_cmark::html::push_html(&mut html, parser);
    html
}

/// `<p>`
pub open spec fn p_open() -> Seq<char> {
    seq!['<', 'p', '>']
}

/// `</p>`
pub open spec fn p_close() -> Seq<char> {
    seq!['<', '/', 'p', '>']
}

/// The starts of the block-level elements a note's HTML is checked for:
/// `<` and the element's name, for the HTML block-level elements `p`,
/// `ul`, `ol`, `pre`, `blockquote`, `h1` to `h6`, `table`, `div`, `address`,
/// `article`, `aside`, `details`, `dialog`, `dd`, `dl`, `dt`, `fieldset`,
/// `figcaption`, `figure`, `footer`, `form`, `header`, `hgroup`, `li`,
/// `main`, `nav` and `section` (`hr` is matched by `hr_start`).
pub open spec fn block_starts() -> Seq<Seq<char>> {
    seq![
        seq!['<', 'p'],
        seq!['<', 'u', 'l'],
        seq!['<', 'o', 'l'],
        seq!['<', 'p', 'r', 'e'],
        seq!['<', 'b', 'l', 'o', 'c', 'k', 'q', 'u', 'o', 't', 'e'],
        seq!['<', 'h', '1'],
        seq!['<', 'h', '2'],
        seq!['<', 'h', '3'],
        seq!['<', 'h', '4'],
        seq!['<', 'h', '5'],
        seq!['<', 'h', '6'],
        seq!['<', 't', 'a', 'b', 'l', 'e'],
        seq!['<', 'd', 'i', 'v'],
        seq!['<', 'a', 'd', 'd', 'r', 'e', 's', 's'],
        seq!['<', 'a', 'r', 't', 'i', 'c', 'l', 'e'],
        seq!['<', 'a', 's', 'i', 'd', 'e'],
        seq!['<', 'd', 'e', 't', 'a', 'i', 'l', 's'],
        seq!['<', 'd', 'i', 'a', 'l', 'o', 'g'],
        seq!['<', 'd', 'd'],
        seq!['<', 'd', 'l'],
        seq!['<', 'd', 't'],
        seq!['<', 'f', 'i', 'e', 'l', 'd', 's', 'e', 't'],
        seq!['<', 'f', 'i', 'g', 'c', 'a', 'p', 't', 'i', 'o', 'n'],
        seq!['<', 'f', 'i', 'g', 'u', 'r', 'e'],
        seq!['<', 'f', 'o', 'o', 't', 'e', 'r'],
        seq!['<', 'f', 'o', 'r', 'm'],
        seq!['<', 'h', 'e', 'a', 'd', 'e', 'r'],
        seq!['<', 'h', 'g', 'r', 'o', 'u', 'p'],
        seq!['<', 'l', 'i'],
        seq!['<', 'm', 'a', 'i', 'n'],
        seq!['<', 'n', 'a', 'v'],
        seq!['<', 's', 'e', 'c', 't', 'i', 'o', 'n'],
    ]
}

/// `<hr`, the start of a horizontal rule (`<hr>` or `<hr />`).
pub open spec fn hr_start() -> Seq<char> {
    seq!['<', 'h', 'r']
}

/// HTML whitespace: space, tab, line feed, form feed, carriage return.
pub open spec fn is_html_space(c: char) -> bool {
    c == ' ' || c == '\t' || c == '\n' || c == '\u{C}' || c == '\r'
}

/// A start tag begins at `k` with `start` (`<` and an element's name),
/// and the name ends there: `>` or whitespace (before attributes) follows.
pub open spec fn opens_element(s: Seq<char>, k: int, start: Seq<char>) -> bool {
    let end = k + start.len();
    &&& matches_at(s, k, start)
    &&& end < s.len()
    &&& (s[end] == '>' || is_html_space(s[end]))
}

/// A block-level element starts at `k`: `<hr`, or a start tag of one of
/// the `block_starts`, with or without attributes.
pub open spec fn block_tag_at(s: Seq<char>, k: int) -> bool {
    ||| matches_at(s, k, hr_start())
    ||| exists|n: int| 0 <= n < block_starts().len() && #[trigger] opens_element(s, k, block_starts()[n])
}

/// A block-level element starts somewhere in `s`.
pub open spec fn has_block_tag(s: Seq<char>) -> bool {
    exists|k: int| #[trigger] block_tag_at(s, k)
}

/// `t` starts with `<p>` and ends with `</p>`.
pub open spec fn is_wrapped_paragraph(t: Seq<char>) -> bool {
    starts_with(t, p_open()) && ends_with(t, p_close())
}

/// `t` without its first three and last four characters: the inside of
/// `<p>...</p>`.
pub open spec fn unwrap_paragraph(t: Seq<char>) -> Seq<char> {
    t.subrange(3, t.len() - 4)
}

/// The HTML of a note as the popover shows it: when the trimmed HTML is a
/// single paragraph `<p>...</p>` in which no block-level element starts,
/// its inside; otherwise the HTML unchanged.
pub open spec fn strip_paragraph(html: Seq<char>) -> Seq<char> {
    let t = trim(html);
    if is_wrapped_paragraph(t) && !has_block_tag(unwrap_paragraph(t)) {
        unwrap_paragraph(t)
    } else {
        html
    }
}

/// The HTML holds block-level elements: one starts in the trimmed HTML
/// once one wrapping `<p>...</p>` is taken off.
pub open spec fn has_blocks(html: Seq<char>) -> bool {
    let t = trim(html);
    let inner = if is_wrapped_paragraph(t) {
        unwrap_paragraph(t)
    } else {
        t
    };
    has_block_tag(inner)
}

/// What a note with Markdown content `markdown` shows in its popover.
pub open spec fn rendered_note(markdown: Seq<char>) -> Seq<char> {
    strip_paragraph(commonmark_html(markdown, NOTE_EXTENSIONS))
}

/// A note's popover HTML is what pulldown-cmark renders from its Markdown
/// with tables (`Options` bit 1), footnotes (bit 2), strikethrough
/// (bit 3), task lists (bit 4) and heading attributes (bit 6) enabled,
/// and no other extension, before the paragraph wrapper is stripped.
pub proof fn lemma_note_rendering_extensions(markdown: Seq<char>)
    ensures
        rendered_note(markdown) == strip_paragraph(
            commonmark_html(markdown, 2u32 | 4u32 | 8u32 | 16u32 | 64u32),
        ),
{
    assert((1u32 << 1u32) | (1u32 << 2u32) | (1u32 << 3u32) | (1u32 << 4u32) | (1u32 << 6u32)
        == 2u32 | 4u32 | 8u32 | 16u32 | 64u32) by (bit_vector);
}

/// Each HTML block-level element counts wherever it starts, with or
/// without attributes: `<hr`, and `<` followed by `name` and then `>` or
/// whitespace, for `name` any of `p`, `ul`, `ol`, `pre`, `blockquote`,
/// `h1` to `h6`, `table`, `div`, `address`, `article`, `aside`,
/// `details`, `dialog`, `dd`, `dl`, `dt`, `fieldset`, `figcaption`,
/// `figure`, `footer`, `form`, `header`, `hgroup`, `li`, `main`, `nav` and
/// `section`.
pub proof fn lemma_block_elements_detected(s: Seq<char>, k: int, name: Seq<char>)
    requires
        matches_at(s, k, seq!['<', 'h', 'r']) || {
            &&& seq![
                seq!['p'],
                seq!['u', 'l'],
                seq!['o', 'l'],
                seq!['p', 'r', 'e'],
                seq!['b', 'l', 'o', 'c', 'k', 'q', 'u', 'o', 't', 'e'],
                seq!['h', '1'],
                seq!['h', '2'],
                seq!['h', '3'],
                seq!['h', '4'],
                seq!['h', '5'],
                seq!['h', '6'],
                seq!['t', 'a', 'b', 'l', 'e'],
                seq!['d', 'i', 'v'],
                seq!['a', 'd', 'd', 'r', 'e', 's', 's'],
                seq!['a', 'r', 't', 'i', 'c', 'l', 'e'],
                seq!['a', 's', 'i', 'd', 'e'],
                seq!['d', 'e', 't', 'a', 'i', 'l', 's'],
                seq!['d', 'i', 'a', 'l', 'o', 'g'],
                seq!['d', 'd'],
                seq!['d', 'l'],
                seq!['d', 't'],
                seq!['f', 'i', 'e', 'l', 'd', 's', 'e', 't'],
                seq!['f', 'i', 'g', 'c', 'a', 'p', 't', 'i', 'o', 'n'],
                seq!['f', 'i', 'g', 'u', 'r', 'e'],
                seq!['f', 'o', 'o', 't', 'e', 'r'],
                seq!['f', 'o', 'r', 'm'],
                seq!['h', 'e', 'a', 'd', 'e', 'r'],
                seq!['h', 'g', 'r', 'o', 'u', 'p'],
                seq!['l', 'i'],
                seq!['m', 'a', 'i', 'n'],
                seq!['n', 'a', 'v'],
                seq!['s', 'e', 'c', 't', 'i', 'o', 'n'],
            ].contains(name)
            &&& matches_at(s, k, seq!['<'] + name)
            &&& k + 1 + name.len() < s.len()
            &&& (s[k + 1 + name.len()] == '>' || is_html_space(s[k + 1 + name.len()]))
        },
    ensures
        block_tag_at(s, k),
        has_block_tag(s),
{
    if !matches_at(s, k, seq!['<', 'h', 'r']) {
        let names = seq![
            seq!['p'],
            seq!['u', 'l'],
            seq!['o', 'l'],
            seq!['p', 'r', 'e'],
            seq!['b', 'l', 'o', 'c', 'k', 'q', 'u', 'o', 't', 'e'],
            seq!['h', '1'],
            seq!['h', '2'],
            seq!['h', '3'],
            seq!['h', '4'],
            seq!['h', '5'],
            seq!['h', '6'],
            seq!['t', 'a', 'b', 'l', 'e'],
            seq!['d', 'i', 'v'],
            seq!['a', 'd', 'd', 'r', 'e', 's', 's'],
            seq!['a', 'r', 't', 'i', 'c', 'l', 'e'],
            seq!['a', 's', 'i', 'd', 'e'],
            seq!['d', 'e', 't', 'a', 'i', 'l', 's'],
            seq!['d', 'i', 'a', 'l', 'o', 'g'],
            seq!['d', 'd'],
            seq!['d', 'l'],
            seq!['d', 't'],
            seq!['f', 'i', 'e', 'l', 'd', 's', 'e', 't'],
            seq!['f', 'i', 'g', 'c', 'a', 'p', 't', 'i', 'o', 'n'],
            seq!['f', 'i', 'g', 'u', 'r', 'e'],
            seq!['f', 'o', 'o', 't', 'e', 'r'],
            seq!['f', 'o', 'r', 'm'],
            seq!['h', 'e', 'a', 'd', 'e', 'r'],
            seq!['h', 'g', 'r', 'o', 'u', 'p'],
            seq!['l', 'i'],
            seq!['m', 'a', 'i', 'n'],
            seq!['n', 'a', 'v'],
            seq!['s', 'e', 'c', 't', 'i', 'o', 'n'],
        ];
        let i = choose|i: int| 0 <= i < names.len() && names[i] == name;
        assert(names.map_values(|x: Seq<char>| seq!['<'] + x) =~~= block_starts());
        assert(block_starts()[i] == seq!['<'] + name);
        assert(opens_element(s, k, block_starts()[i]));
    } else {
        assert(seq!['<', 'h', 'r'] =~= hr_start());
    }
    assert(block_tag_at(s, k));
}


/// A single paragraph loses its wrapper: when the trimmed HTML is `<p>`,
/// a text `y`, and `</p>`, the popover shows `y` if no block-level element
/// starts in `y` and the HTML unchanged otherwise, and the HTML holds
/// block-level elements exactly when one starts in `y`. HTML not so
/// wrapped is shown unchanged and holds block-level elements exactly when
/// one starts in it.
pub proof fn lemma_single_paragraph(html: Seq<char>, y: Seq<char>)
    ensures
        trim(html) == seq!['<', 'p', '>'] + y + seq!['<', '/', 'p', '>'] ==> {
            &&& strip_paragraph(html) == (if has_block_tag(y) {
                html
            } else {
                y
            })
            &&& has_blocks(html) == has_block_tag(y)
        },
        !is_wrapped_paragraph(trim(html)) ==> {
            &&& strip_paragraph(html) == html
            &&& has_blocks(html) == has_block_tag(trim(html))
        },
{
    let t = trim(html);
    if t == seq!['<', 'p', '>'] + y + seq!['<', '/', 'p', '>'] {
        assert(t.subrange(0, 3) =~= p_open());
        assert(t.subrange(t.len() - 4, t.len() as int) =~= p_close());
        assert(unwrap_paragraph(t) =~= y);
    }
}


/// A text that starts with `<p>` and ends with `</p>` is at least seven
/// characters long: the two cannot overlap.
pub proof fn lemma_wrapped_paragraph_len(t: Seq<char>)
    requires
        is_wrapped_paragraph(t),
    ensures
        t.len() >= 7,
{
    let n = t.len() as int;
    assert(t.subrange(0, 3)[0] == '<' && t.subrange(0, 3)[1] == 'p' && t.subrange(0, 3)[2] == '>');
    assert(t.subrange(n - 4, n)[0] == '<' && t.subrange(n - 4, n)[1] == '/');
    assert(t.subrange(n - 4, n)[2] == 'p' && t.subrange(n - 4, n)[3] == '>');
    if n < 7 {
        assert(t[n - 4] == '<');
        assert(t[n - 3] == '/');
        assert(t[0] == '<' && t[1] == 'p' && t[2] == '>');
    }
}

/// A block-level element that starts in a piece of a text starts in the
/// text.
pub proof fn lemma_block_tag_subrange(x: Seq<char>, a: int, b: int)
    requires
        0 <= a <= b <= x.len(),
        has_block_tag(x.subrange(a, b)),
    ensures
        has_block_tag(x),
{
    let sub = x.subrange(a, b);
    let k = choose|k: int| #[trigger] block_tag_at(sub, k);
    if matches_at(sub, k, hr_start()) {
        assert(x.subrange(a + k, a + k + 3) =~= sub.subrange(k, k + 3));
        assert(block_tag_at(x, a + k));
    } else {
        let n = choose|n: int| 0 <= n < block_starts().len() && #[trigger] opens_element(sub, k, block_starts()[n]);
        let start = block_starts()[n];
        assert(x.subrange(a + k, a + k + start.len()) =~= sub.subrange(k, k + start.len()));
        assert(x[a + k + start.len()] == sub[k + start.len()]);
        assert(opens_element(x, a + k, start));
        assert(block_tag_at(x, a + k));
    }
}

/// Stripping the paragraph wrapper does not change the kind of popover
/// a note gets: the stripped HTML holds block-level elements exactly when
/// the rendered HTML does, and HTML that holds them is kept whole.
pub proof fn lemma_strip_keeps_block_kind(html: Seq<char>)
    ensures
        has_blocks(strip_paragraph(html)) == has_blocks(html),
        has_blocks(html) ==> strip_paragraph(html) == html,
{
    let t = trim(html);
    if is_wrapped_paragraph(t) && !has_block_tag(unwrap_paragraph(t)) {
        let inner = unwrap_paragraph(t);
        let t2 = trim(inner);
        lemma_trim_is_subrange(inner);
        if is_wrapped_paragraph(t2) {
            lemma_wrapped_paragraph_len(t2);
            assert(t2.subrange(0, 3)[2] == '>');
            assert(t2.subrange(0, 2) =~= block_starts()[0]);
            assert(opens_element(t2, 0, block_starts()[0]));
            assert(block_tag_at(t2, 0));
            lemma_block_tag_subrange(inner, skip_ws(inner, 0), trim_back(inner, inner.len() as int));
        } else if has_block_tag(t2) && t2.len() > 0 {
            lemma_block_tag_subrange(inner, skip_ws(inner, 0), trim_back(inner, inner.len() as int));
        }
    }
}

fn sub_chars(v: &Vec<char>, a: usize, b: usize) -> (r: Vec<char>)
    requires
        a <= b <= v.len(),
    ensures
        r@ == v@.subrange(a as int, b as int),
{
    let mut r: Vec<char> = Vec::new();
    let mut i = a;
    while i < b
        invariant
            a <= i <= b <= v.len(),
            r@ == v@.subrange(a as int, i as int),
        decreases b - i,
    {
        r.push(v[i]);
        i = i + 1;
        assert(r@ =~= v@.subrange(a as int, i as int));
    }
    r
}

fn block_start_chars() -> (starts: Vec<Vec<char>>)
    ensures
        starts.len() == block_starts().len(),
        forall|n: int| 0 <= n < starts.len() ==> #[trigger] starts@[n]@ == block_starts()[n],
{
    let starts = vec![
        vec!['<', 'p'],
        vec!['<', 'u', 'l'],
        vec!['<', 'o', 'l'],
        vec!['<', 'p', 'r', 'e'],
        vec!['<', 'b', 'l', 'o', 'c', 'k', 'q', 'u', 'o', 't', 'e'],
        vec!['<', 'h', '1'],
        vec!['<', 'h', '2'],
        vec!['<', 'h', '3'],
        vec!['<', 'h', '4'],
        vec!['<', 'h', '5'],
        vec!['<', 'h', '6'],
        vec!['<', 't', 'a', 'b', 'l', 'e'],
        vec!['<', 'd', 'i', 'v'],
        vec!['<', 'a', 'd', 'd', 'r', 'e', 's', 's'],
        vec!['<', 'a', 'r', 't', 'i', 'c', 'l', 'e'],
        vec!['<', 'a', 's', 'i', 'd', 'e'],
        vec!['<', 'd', 'e', 't', 'a', 'i', 'l', 's'],
        vec!['<', 'd', 'i', 'a', 'l', 'o', 'g'],
        vec!['<', 'd', 'd'],
        vec!['<', 'd', 'l'],
        vec!['<', 'd', 't'],
        vec!['<', 'f', 'i', 'e', 'l', 'd', 's', 'e', 't'],
        vec!['<', 'f', 'i', 'g', 'c', 'a', 'p', 't', 'i', 'o', 'n'],
        vec!['<', 'f', 'i', 'g', 'u', 'r', 'e'],
        vec!['<', 'f', 'o', 'o', 't', 'e', 'r'],
        vec!['<', 'f', 'o', 'r', 'm'],
        vec!['<', 'h', 'e', 'a', 'd', 'e', 'r'],
        vec!['<', 'h', 'g', 'r', 'o', 'u', 'p'],
        vec!['<', 'l', 'i'],
        vec!['<', 'm', 'a', 'i', 'n'],
        vec!['<', 'n', 'a', 'v'],
        vec!['<', 's', 'e', 'c', 't', 'i', 'o', 'n'],
    ];
    assert(starts.deep_view() =~~= block_starts());
    assert forall|n: int| 0 <= n < starts.len() implies #[trigger] starts@[n]@ == block_starts()[n] by {
        assert(starts@[n].deep_view() =~= starts@[n]@);
    }
    starts
}

/// Whether a start tag `start` (`<` and a name) begins at `k` and its
/// name ends there.
fn opens_element_at(s: &Vec<char>, k: usize, start: &Vec<char>) -> (b: bool)
    ensures
        b == opens_element(s@, k as int, start@),
{
    let found = matches_at_index(s, k, start);
    if !found {
        return false;
    }
    if start.len() >= s.len() - k {
        return false;
    }
    let end = k + start.len();
    let c = s[end];
    c == '>' || c == ' ' || c == '\t' || c == '\n' || c == '\u{C}' || c == '\r'
}

/// Whether a block-level element starts at `k`.
fn block_tag_at_index(s: &Vec<char>, k: usize, starts: &Vec<Vec<char>>, hr: &Vec<char>) -> (b: bool)
    requires
        starts.len() == block_starts().len(),
        forall|n: int| 0 <= n < starts.len() ==> #[trigger] starts@[n]@ == block_starts()[n],
        hr@ == hr_start(),
    ensures
        b == block_tag_at(s@, k as int),
{
    if matches_at_index(s, k, hr) {
        return true;
    }
    let mut n: usize = 0;
    while n < starts.len()
        invariant
            starts.len() == block_starts().len(),
            forall|m: int| 0 <= m < starts.len() ==> #[trigger] starts@[m]@ == block_starts()[m],
            n <= starts.len(),
            forall|m: int| 0 <= m < n ==> !opens_element(s@, k as int, #[trigger] block_starts()[m]),
        decreases starts.len() - n,
    {
        if opens_element_at(s, k, &starts[n]) {
            assert(opens_element(s@, k as int, block_starts()[n as int]));
            return true;
        }
        n = n + 1;
    }
    false
}

fn contains_block_tag(s: &Vec<char>) -> (b: bool)
    ensures
        b == has_block_tag(s@),
{
    let starts = block_start_chars();
    let hr = vec!['<', 'h', 'r'];
    assert(hr@ =~= hr_start());
    let mut k: usize = 0;
    while k < s.len()
        invariant
            starts.len() == block_starts().len(),
            forall|n: int| 0 <= n < starts.len() ==> #[trigger] starts@[n]@ == block_starts()[n],
            hr@ == hr_start(),
            k <= s.len(),
            forall|m: int| 0 <= m < k ==> !#[trigger] block_tag_at(s@, m),
        decreases s.len() - k,
    {
        if block_tag_at_index(s, k, &starts, &hr) {
            return true;
        }
        k = k + 1;
    }
    assert forall|m: int| !#[trigger] block_tag_at(s@, m) by {
        if m >= s.len() {
            assert(!matches_at(s@, m, hr_start()));
        }
    }
    false
}

/// Where the trimmed text and the inside of a wrapping paragraph lie in
/// `v`: `(a, b, wrapped)` with `trim(v) == v[a..b]` (empty when `a >= b`)
/// and `wrapped` telling whether that text is `<p>...</p>`.
fn paragraph_bounds(v: &Vec<char>) -> (r: (usize, usize, bool))
    ensures
        r.0 <= v.len(),
        r.1 <= v.len(),
        trim(v@) == (if r.0 < r.1 { v@.subrange(r.0 as int, r.1 as int) } else { Seq::empty() }),
        r.2 == is_wrapped_paragraph(trim(v@)),
        r.2 ==> r.0 + 7 <= r.1,
{
    let (a, b) = trim_bounds(v);
    let ghost t = trim(v@);
    let p = vec!['<', 'p', '>'];
    let q = vec!['<', '/', 'p', '>'];
    assert(p@ =~= p_open());
    assert(q@ =~= p_close());
    proof {
        if is_wrapped_paragraph(t) {
            lemma_wrapped_paragraph_len(t);
        }
        if a + 7 <= b {
            assert(t =~= v@.subrange(a as int, b as int));
            assert(t.subrange(0, 3) =~= v@.subrange(a as int, a + 3));
            assert(t.subrange(t.len() - 4, t.len() as int) =~= v@.subrange(b - 4, b as int));
        }
    }
    let wrapped = a < b && b - a >= 7 && matches_at_index(v, a, &p) && matches_at_index(v, b - 4, &q);
    (a, b, wrapped)
}

/// Strips the `<p>...</p>` that wraps a single paragraph of rendered
/// HTML, so that the content flows inside the inline popover; HTML with
/// block-level content inside, or not so wrapped, comes back unchanged.
pub fn strip_single_paragraph(html: String) -> (r: String)
    ensures
        r@ == strip_paragraph(html@),
{
    let v = chars_of(html.as_str());
    let (a, b, wrapped) = paragraph_bounds(&v);
    if wrapped {
        let inner = sub_chars(&v, a + 3, b - 4);
        assert(inner@ =~= unwrap_paragraph(trim(html@)));
        if !contains_block_tag(&inner) {
            return html.as_str().substring_char(a + 3, b - 4).to_owned();
        }
    }
    html
}

/// Renders a note's Markdown to HTML for its popover. A single paragraph
/// with no nested block-level elements loses its wrapping `<p>` tags.
pub fn render_note_html(markdown: &str) -> (r: String)
    ensures
        r@ == rendered_note(markdown@),
{
    strip_single_paragraph(markdown_to_html(markdown, NOTE_EXTENSIONS))
}

/// Whether rendered HTML holds block-level elements (a single wrapping
/// `<p>` does not count).
pub fn note_has_blocks(html: &str) -> (b: bool)
    ensures
        b == has_blocks(html@),
{
    let v = chars_of(html);
    let (a, b, wrapped) = paragraph_bounds(&v);
    let inner = if wrapped {
        sub_chars(&v, a + 3, b - 4)
    } else if a < b {
        sub_chars(&v, a, b)
    } else {
        Vec::new()
    };
    proof {
        let t = trim(html@);
        if wrapped {
            assert(inner@ =~= unwrap_paragraph(t));
        } else {
            assert(inner@ =~= t);
        }
    }
    contains_block_tag(&inner)
}

} // verus!
