//! The `{{note: ...}}` marker grammar: where notes start and end in a
//! chapter, and how a chapter splits into plain text and note contents.
//!
//! A marker is `{{note:`, then any whitespace, then the note's content,
//! which runs up to the first `}}` after it (the content may span lines).
//! Markers are found from left to right and do not overlap; a `{{note:`
//! that no `}}` follows is plain text.
use vstd::prelude::*;
use crate::text::{
    chars_of, contains, find_at_or_after, find_from, is_ws, lemma_find_from, lemma_skip_ws,
    matches_at, skip_whitespace, skip_ws,
};

verus! {

broadcast use vstd::string::group_string_axioms;

/// The opening token `{{note:`.
pub open spec fn note_open() -> Seq<char> {
    seq!['{', '{', 'n', 'o', 't', 'e', ':']
}

/// The closing token `}}`.
pub open spec fn note_close() -> Seq<char> {
    seq!['}', '}']
}

/// The next marker at or after `from`, as the triple (start of `{{note:`,
/// start of the content, start of the closing `}}`).
pub open spec fn next_note(s: Seq<char>, from: int) -> Option<(int, int, int)> {
    match find_from(s, note_open(), from) {
        None => None,
        Some(i) => {
            let c = skip_ws(s, i + note_open().len());
            match find_from(s, note_close(), c) {
                None => None,
                Some(j) => Some((i, c, j)),
            }
        },
    }
}

/// A marker found by `next_note` lies inside `s`, in order, after `from`.
pub proof fn lemma_next_note(s: Seq<char>, from: int)
    requires
        0 <= from <= s.len(),
    ensures
        next_note(s, from) matches Some((i, c, j)) ==> {
            &&& from <= i
            &&& i + note_open().len() <= c <= j
            &&& j + note_close().len() <= s.len()
            &&& matches_at(s, i, note_open())
            &&& matches_at(s, j, note_close())
        },
{
    lemma_find_from(s, note_open(), from);
    if let Some(i) = find_from(s, note_open(), from) {
        lemma_skip_ws(s, i + note_open().len());
        lemma_find_from(s, note_close(), skip_ws(s, i + note_open().len()));
    }
}

/// A piece of a chapter: text kept as it is, or the content of a note.
pub enum SegmentView {
    Text(Seq<char>),
    Note(Seq<char>),
}

/// The pieces of `s` from index `from` on: text and note contents in
/// turn, starting and ending with a (possibly empty) text.
pub open spec fn segments_from(s: Seq<char>, from: int) -> Seq<SegmentView>
    decreases s.len() - from,
{
    if from < 0 || from > s.len() {
        Seq::empty()
    } else {
        match next_note(s, from) {
            None => seq![SegmentView::Text(s.subrange(from, s.len() as int))],
            Some((i, c, j)) => {
                proof {
                    lemma_next_note(s, from);
                }
                seq![SegmentView::Text(s.subrange(from, i)), SegmentView::Note(s.subrange(c, j))]
                    + segments_from(s, j + note_close().len())
            },
        }
    }
}

/// The pieces of a chapter alternate: text, note, text, ..., note, text.
/// There is one more text than there are notes, and a chapter always
/// starts and ends with a (possibly empty) text.
pub proof fn lemma_segments_alternate(s: Seq<char>, from: int)
    requires
        0 <= from <= s.len(),
    ensures
        segments_from(s, from).len() % 2 == 1,
        forall|k: int|
            0 <= k < segments_from(s, from).len() ==> (#[trigger] segments_from(s, from)[k] is Text
                <==> k % 2 == 0),
    decreases s.len() - from,
{
    lemma_next_note(s, from);
    if let Some((i, c, j)) = next_note(s, from) {
        let rest = segments_from(s, j + note_close().len());
        lemma_segments_alternate(s, j + note_close().len());
        let g = segments_from(s, from);
        assert forall|k: int| 0 <= k < g.len() implies (#[trigger] g[k] is Text <==> k % 2 == 0) by {
            if k >= 2 {
                assert(g[k] == rest[k - 2]);
            }
        }
    }
}

/// A note's content is what the marker holds between its leading
/// whitespace and the first `}}`: it never starts with whitespace and
/// never contains `}}`.
pub proof fn lemma_note_content(s: Seq<char>, from: int)
    requires
        0 <= from <= s.len(),
    ensures
        forall|k: int|
            0 <= k < segments_from(s, from).len() && #[trigger] segments_from(s, from)[k] is Note
                ==> {
                let c = segments_from(s, from)[k]->Note_0;
                &&& !contains(c, note_close())
                &&& c.len() > 0 ==> !is_ws(c[0])
            },
    decreases s.len() - from,
{
    lemma_next_note(s, from);
    if let Some((i, c, j)) = next_note(s, from) {
        let rest = segments_from(s, j + note_close().len());
        lemma_segments_alternate(s, j + note_close().len());
        lemma_note_content(s, j + note_close().len());
        lemma_skip_ws(s, i + note_open().len());
        lemma_find_from(s, note_close(), c);
        let content = s.subrange(c, j);
        assert(!contains(content, note_close())) by {
            if contains(content, note_close()) {
                let m = choose|m: int| matches_at(content, m, note_close());
                assert(s.subrange(c + m, c + m + 2) =~= content.subrange(m, m + 2));
                assert(matches_at(s, c + m, note_close()));
            }
        }
        let g = segments_from(s, from);
        assert forall|k: int| 0 <= k < g.len() && #[trigger] g[k] is Note implies {
            let n = g[k]->Note_0;
            &&& !contains(n, note_close())
            &&& n.len() > 0 ==> !is_ws(n[0])
        } by {
            if k >= 2 {
                assert(g[k] == rest[k - 2]);
            } else {
                assert(k == 1);
                assert(g[1] == SegmentView::Note(content));
            }
        }
    }
}

/// Every character of `w` is whitespace.
pub open spec fn all_ws(w: Seq<char>) -> bool {
    forall|m: int| 0 <= m < w.len() ==> is_ws(#[trigger] w[m])
}

/// The pieces put back together: each text as it is, and the `k`-th note
/// as `{{note:`, then `gaps[k]`, then its content, then `}}`.
pub open spec fn join(segs: Seq<SegmentView>, gaps: Seq<Seq<char>>) -> Seq<char>
    decreases segs.len(),
{
    if segs.len() == 0 {
        Seq::empty()
    } else {
        match segs[0] {
            SegmentView::Text(t) => t + join(segs.drop_first(), gaps),
            SegmentView::Note(c) => note_open() + gaps[0] + c + note_close() + join(
                segs.drop_first(),
                gaps.drop_first(),
            ),
        }
    }
}

/// The whitespace that opens each note found from `from` on.
pub open spec fn gaps_from(s: Seq<char>, from: int) -> Seq<Seq<char>>
    decreases s.len() - from,
{
    if from < 0 || from > s.len() {
        Seq::empty()
    } else {
        match next_note(s, from) {
            None => Seq::empty(),
            Some((i, c, j)) => {
                proof {
                    lemma_next_note(s, from);
                }
                seq![s.subrange(i + note_open().len(), c)] + gaps_from(s, j + note_close().len())
            },
        }
    }
}

proof fn lemma_join_from(s: Seq<char>, from: int)
    requires
        0 <= from <= s.len(),
    ensures
        join(segments_from(s, from), gaps_from(s, from)) == s.subrange(from, s.len() as int),
        forall|k: int| 0 <= k < gaps_from(s, from).len() ==> all_ws(#[trigger] gaps_from(s, from)[k]),
    decreases s.len() - from,
{
    lemma_next_note(s, from);
    match next_note(s, from) {
        None => {
            let segs = segments_from(s, from);
            let t = s.subrange(from, s.len() as int);
            assert(segs.drop_first() =~= Seq::<SegmentView>::empty());
            assert(join(segs.drop_first(), gaps_from(s, from)) =~= Seq::<char>::empty());
            assert(join(segs, gaps_from(s, from)) =~= t);
        },
        Some((i, c, j)) => {
            let next = j + note_close().len();
            lemma_join_from(s, next);
            lemma_skip_ws(s, i + note_open().len());
            let rest = segments_from(s, next);
            let grest = gaps_from(s, next);
            let segs = segments_from(s, from);
            let gaps = gaps_from(s, from);
            let gap = s.subrange(i + note_open().len(), c);
            let content = s.subrange(c, j);
            assert(segs.drop_first() =~= seq![SegmentView::Note(content)] + rest);
            assert(segs.drop_first().drop_first() =~= rest);
            assert(gaps.drop_first() =~= grest);
            assert(join(segs.drop_first(), gaps) == note_open() + gap + content + note_close() + join(
                rest,
                grest,
            ));
            assert(s.subrange(i, i + note_open().len()) == note_open());
            assert(s.subrange(j, j + note_close().len()) == note_close());
            assert(join(segs, gaps) =~= s.subrange(from, s.len() as int));
            assert forall|k: int| 0 <= k < gaps.len() implies all_ws(#[trigger] gaps[k]) by {
                if k > 0 {
                    assert(gaps[k] == grest[k - 1]);
                } else {
                    assert forall|m: int| 0 <= m < gap.len() implies is_ws(#[trigger] gap[m]) by {
                        assert(gap[m] == s[i + note_open().len() + m]);
                    }
                }
            }
        },
    }
}

/// Splitting a chapter loses nothing but the whitespace that opens each
/// note: put back between `{{note:` plus that whitespace and `}}`, the
/// notes and the texts around them make up the chapter again.
pub proof fn lemma_segments_rebuild(s: Seq<char>)
    ensures
        exists|gaps: Seq<Seq<char>>|
            (forall|k: int| 0 <= k < gaps.len() ==> all_ws(#[trigger] gaps[k])) && #[trigger] join(
                segments(s),
                gaps,
            ) == s,
{
    lemma_join_from(s, 0);
    assert(s.subrange(0, s.len() as int) =~= s);
    let gaps = gaps_from(s, 0);
    assert(join(segments(s), gaps) == s);
}

/// What a marker is: when the first `{{note:` of a chapter starts at `i`
/// and is followed by whitespace `w`, then a text `x` that does not start
/// with whitespace, holds no `}}` and does not end with `}`, then `}}`,
/// the chapter's first two
/// pieces are the text before `i` and the note `x`.
pub proof fn lemma_first_marker(s: Seq<char>, i: int, w: Seq<char>, x: Seq<char>)
    requires
        0 <= i,
        i + 7 + w.len() + x.len() + 2 <= s.len(),
        s.subrange(i, i + 7) == seq!['{', '{', 'n', 'o', 't', 'e', ':'],
        forall|m: int| 0 <= m < i ==> #[trigger] s.subrange(m, m + 7) != seq!['{', '{', 'n', 'o', 't', 'e', ':'],
        s.subrange(i + 7, i + 7 + w.len()) == w,
        forall|m: int| 0 <= m < w.len() ==> is_ws(#[trigger] w[m]),
        s.subrange(i + 7 + w.len(), i + 7 + w.len() + x.len()) == x,
        x.len() > 0 ==> !is_ws(x[0]),
        forall|m: int| 0 <= m < x.len() - 1 ==> !(#[trigger] x[m] == '}' && x[m + 1] == '}'),
        x.len() > 0 ==> x.last() != '}',
        s[i + 7 + w.len() + x.len()] == '}',
        s[i + 7 + w.len() + x.len() + 1] == '}',
    ensures
        segments(s).len() >= 3,
        segments(s)[0] == SegmentView::Text(s.subrange(0, i)),
        segments(s)[1] == SegmentView::Note(x),
{
    let open = note_open();
    let close = note_close();
    assert(open =~= seq!['{', '{', 'n', 'o', 't', 'e', ':']);
    assert(close =~= seq!['}', '}']);
    lemma_find_from(s, open, 0);
    assert(matches_at(s, i, open));
    if let Some(f) = find_from(s, open, 0) {
        if f < i {
            assert(s.subrange(f, f + 7) == open);
        }
        assert(f == i);
    }
    let c0 = i + 7;
    let c = i + 7 + w.len();
    let j = c + x.len();
    lemma_skip_ws(s, c0);
    assert forall|m: int| c0 <= m < c implies is_ws(#[trigger] s[m]) by {
        assert(s[m] == s.subrange(c0, c)[m - c0]);
    }
    if skip_ws(s, c0) < c {
        assert(is_ws(s[skip_ws(s, c0)]));
    }
    if skip_ws(s, c0) > c {
        assert(x.len() > 0);
        assert(s[c] == x[0]);
    }
    assert(skip_ws(s, c0) == c);
    lemma_find_from(s, close, c);
    assert(s.subrange(j, j + 2) =~= close);
    assert(matches_at(s, j, close));
    if let Some(g) = find_from(s, close, c) {
        if g < j {
            assert(s.subrange(g, g + 2) == close);
            assert(s[g] == '}' && s[g + 1] == '}') by {
                assert(s.subrange(g, g + 2)[0] == s[g]);
                assert(s.subrange(g, g + 2)[1] == s[g + 1]);
            }
            assert(x[g - c] == s[g]);
            if g + 1 < j {
                assert(x[g - c + 1] == s[g + 1]);
            } else {
                assert(x.last() == s[g]);
            }
        }
        assert(g == j);
    }
    assert(next_note(s, 0) == Some((i, c, j)));
    lemma_segments_alternate(s, j + 2);
    assert(s.subrange(c, j) == x);
}

/// The pieces of a whole chapter.
pub open spec fn segments(s: Seq<char>) -> Seq<SegmentView> {
    segments_from(s, 0)
}

/// A piece of a chapter, as `split_notes` hands it out.
pub enum Segment {
    Text(String),
    Note(String),
}

impl View for Segment {
    type V = SegmentView;

    open spec fn view(&self) -> SegmentView {
        match self {
            Segment::Text(t) => SegmentView::Text(t@),
            Segment::Note(n) => SegmentView::Note(n@),
        }
    }
}

/// The views of a sequence of segments.
pub open spec fn segments_view(v: Seq<Segment>) -> Seq<SegmentView> {
    v.map_values(|x: Segment| x@)
}

fn note_open_chars() -> (v: Vec<char>)
    ensures
        v@ == note_open(),
{
    let v = vec!['{', '{', 'n', 'o', 't', 'e', ':'];
    assert(v@ =~= note_open());
    v
}

fn note_close_chars() -> (v: Vec<char>)
    ensures
        v@ == note_close(),
{
    let v = vec!['}', '}'];
    assert(v@ =~= note_close());
    v
}

/// Splits a chapter into its text and the contents of its notes, in the
/// order in which they occur.
pub fn split_notes(content: &str) -> (segs: Vec<Segment>)
    ensures
        segments_view(segs@) == segments(content@),
{
    let s = chars_of(content);
    let open = note_open_chars();
    let close = note_close_chars();
    let mut segs: Vec<Segment> = Vec::new();
    let mut pos: usize = 0;
    loop
        invariant
            s@ == content@,
            open@ == note_open(),
            close@ == note_close(),
            pos <= s.len(),
            segments(s@) == segments_view(segs@) + segments_from(s@, pos as int),
        decreases s.len() - pos,
    {
        proof {
            lemma_next_note(s@, pos as int);
        }
        let found = match find_at_or_after(&s, &open, pos) {
            None => None,
            Some(i) => {
                proof {
                    lemma_find_from(s@, open@, pos as int);
                }
                let c = skip_whitespace(&s, i + 7);
                match find_at_or_after(&s, &close, c) {
                    None => None,
                    Some(j) => Some((i, c, j)),
                }
            },
        };
        let ghost before = segs@;
        match found {
            None => {
                let rest = content.substring_char(pos, s.len()).to_owned();
                segs.push(Segment::Text(rest));
                assert(segments_view(segs@) =~= segments_view(before) + segments_from(s@, pos as int));
                return segs;
            },
            Some((i, c, j)) => {
                let text = content.substring_char(pos, i).to_owned();
                let note = content.substring_char(c, j).to_owned();
                segs.push(Segment::Text(text));
                segs.push(Segment::Note(note));
                assert(segments_view(segs@) =~= segments_view(before) + seq![
                    SegmentView::Text(s@.subrange(pos as int, i as int)),
                    SegmentView::Note(s@.subrange(c as int, j as int)),
                ]);
                pos = j + 2;
            },
        }
    }
}

} // verus!
