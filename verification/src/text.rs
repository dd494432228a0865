//! Text segmentation and white-space handling for inline layout, the generic
//! font families, and the glyph bitmaps the painter blits.
use vstd::prelude::*;

use crate::chars::{is_white_space, is_white_space_char, lower_seq, lowercase, push_char, str_equal};
use crate::inline_style::views;

verus! {

/// The pieces, concatenated in order.
pub open spec fn concat_all(parts: Seq<Seq<char>>) -> Seq<char>
    decreases parts.len(),
{
    if parts.len() == 0 {
        Seq::empty()
    } else {
        concat_all(parts.drop_last()) + parts.last()
    }
}

pub open spec fn segment_views(segments: Seq<(&str, bool)>) -> Seq<(Seq<char>, bool)> {
    segments.map_values(|s: (&str, bool)| (s.0@, s.1))
}

pub open spec fn segment_texts(segments: Seq<(Seq<char>, bool)>) -> Seq<Seq<char>> {
    segments.map_values(|s: (Seq<char>, bool)| s.0)
}

pub open spec fn is_newline(s: Seq<char>) -> bool {
    s == seq!['\n']
}

/// Every segment is a non-empty run of characters that are all white space
/// (flag set) or all not, and a newline is always a segment of its own.
pub open spec fn segments_are_runs(segments: Seq<(Seq<char>, bool)>) -> bool {
    &&& forall|k: int| 0 <= k < segments.len() ==> (#[trigger] segments[k]).0.len() > 0
    &&& forall|k: int, j: int|
        0 <= k < segments.len() && 0 <= j < segments[k].0.len() ==> is_white_space(
            #[trigger] segments[k].0[j],
        ) == segments[k].1
    &&& forall|k: int, j: int|
        0 <= k < segments.len() && 0 <= j < segments[k].0.len() && #[trigger] segments[k].0[j]
            == '\n' ==> is_newline(segments[k].0)
}

/// Two neighbouring segments, neither a newline, differ in their flag: every
/// run is as long as it can be.
pub open spec fn segments_are_maximal(segments: Seq<(Seq<char>, bool)>) -> bool {
    forall|k: int, l: int|
        0 <= k && l == k + 1 && l < segments.len() && !is_newline(#[trigger] segments[k].0)
            && !is_newline(#[trigger] segments[l].0) ==> segments[k].1 != segments[l].1
}

/// `segments` is the segmentation of `text` into words, white-space runs and
/// newlines, in source order.
pub open spec fn is_segmentation_of(text: Seq<char>, segments: Seq<(Seq<char>, bool)>) -> bool {
    &&& concat_all(segment_texts(segments)) == text
    &&& segments_are_runs(segments)
    &&& segments_are_maximal(segments)
}

/// Splits `text` into runs that can each be placed or wrapped as a unit:
/// words, individual whitespace runs and explicit newlines.
///
/// Returns `(text, is_whitespace)` pairs in source order.
pub fn segment_words<'a>(text: &'a str) -> (segments: Vec<(&'a str, bool)>)
    ensures
        is_segmentation_of(text@, segment_views(segments@)),
{
    broadcast use vstd::string::group_string_axioms;

    let n = text.unicode_len();
    let mut segments: Vec<(&'a str, bool)> = Vec::new();
    let mut start: usize = 0;
    let mut in_whitespace: Option<bool> = None;
    let mut index: usize = 0;
    assert(text@.take(0) =~= Seq::<char>::empty());
    assert(concat_all(segment_texts(segment_views(segments@))) =~= Seq::<char>::empty());
    for ch in it: text.chars()
        invariant
            n == text@.len(),
            it.seq() == text@,
            index == it.index(),
            start <= it.index(),
            concat_all(segment_texts(segment_views(segments@))) == text@.take(start as int),
            in_whitespace is None <==> start == it.index(),
            in_whitespace matches Some(f) ==> forall|j: int|
                start <= j < it.index() ==> is_white_space(#[trigger] text@[j]) == f && text@[j]
                    != '\n',
            segments_are_runs(segment_views(segments@)),
            segments_are_maximal(segment_views(segments@)),
            in_whitespace matches Some(f) ==> segments@.len() > 0 && !is_newline(
                segments@.last().0@,
            ) ==> segments@.last().1 != f,
            in_whitespace is None && segments@.len() > 0 ==> is_newline(segments@.last().0@),
    {
        assert(text@[index as int] == ch);
        let whitespace = is_white_space_char(ch);
        match in_whitespace {
            None => in_whitespace = Some(whitespace),
            Some(previous) => {
                if previous != whitespace {
                    let ghost before = segment_views(segments@);
                    let piece = text.substring_char(start, index);
                    segments.push((piece, previous));
                    proof {
                        lemma_push_segment(
                            text@,
                            before,
                            start as int,
                            index as int,
                            previous,
                        );
                        assert(segment_views(segments@) =~= before.push((piece@, previous)));
                    }
                    start = index;
                    in_whitespace = Some(whitespace);
                }
            },
        }
        // A newline is always its own segment so `pre` can break on it.
        if ch == '\n' {
            if start < index {
                let ghost before = segment_views(segments@);
                let piece = text.substring_char(start, index);
                segments.push((piece, true));
                proof {
                    lemma_push_segment(text@, before, start as int, index as int, true);
                    assert(segment_views(segments@) =~= before.push((piece@, true)));
                }
            }
            let ghost before = segment_views(segments@);
            let piece = text.substring_char(index, index + 1);
            segments.push((piece, true));
            proof {
                assert(piece@ =~= seq!['\n']);
                lemma_push_segment(text@, before, index as int, index + 1, true);
                assert(segment_views(segments@) =~= before.push((piece@, true)));
            }
            start = index + 1;
            in_whitespace = None;
        }
        index = index + 1;
    }
    if start < n {
        let ghost before = segment_views(segments@);
        let flag = match in_whitespace {
            Some(f) => f,
            None => false,
        };
        let piece = text.substring_char(start, n);
        segments.push((piece, flag));
        proof {
            lemma_push_segment(text@, before, start as int, n as int, flag);
            assert(segment_views(segments@) =~= before.push((piece@, flag)));
        }
    }
    assert(text@.take(n as int) =~= text@);
    segments
}

/// Appending the run `text[start..end]` keeps the segments' properties and
/// extends their concatenation.
proof fn lemma_push_segment(
    text: Seq<char>,
    segments: Seq<(Seq<char>, bool)>,
    start: int,
    end: int,
    flag: bool,
)
    requires
        0 <= start < end <= text.len(),
        concat_all(segment_texts(segments)) == text.take(start),
        segments_are_runs(segments),
        segments_are_maximal(segments),
        forall|j: int| start <= j < end ==> is_white_space(#[trigger] text[j]) == flag,
        (forall|j: int| start <= j < end ==> #[trigger] text[j] != '\n') || (end == start + 1
            && text[start] == '\n'),
        segments.len() > 0 && !is_newline(segments.last().0) && !is_newline(
            text.subrange(start, end),
        ) ==> segments.last().1 != flag,
    ensures
        ({
            let pushed = segments.push((text.subrange(start, end), flag));
            &&& concat_all(segment_texts(pushed)) == text.take(end)
            &&& segments_are_runs(pushed)
            &&& segments_are_maximal(pushed)
        }),
{
    let piece = text.subrange(start, end);
    let pushed = segments.push((piece, flag));
    assert(segment_texts(pushed).drop_last() =~= segment_texts(segments));
    assert(text.take(end) =~= text.take(start) + piece);
    assert forall|k: int, j: int|
        0 <= k < pushed.len() && 0 <= j < pushed[k].0.len() && #[trigger] pushed[k].0[j]
            == '\n' implies is_newline(pushed[k].0) by {
        if k == pushed.len() - 1 {
            assert(pushed[k].0[j] == text[start + j]);
            if !(end == start + 1 && text[start] == '\n') {
                assert(text[start + j] != '\n');
            } else {
                assert(piece =~= seq!['\n']);
            }
        }
    }
    assert forall|k: int, j: int|
        0 <= k < pushed.len() && 0 <= j < pushed[k].0.len() implies is_white_space(
        #[trigger] pushed[k].0[j],
    ) == pushed[k].1 by {
        if k == pushed.len() - 1 {
            assert(pushed[k].0[j] == text[start + j]);
        }
    }
}

/// The collapsed text so far, and whether the last character read was white
/// space.
pub open spec fn collapse_state(s: Seq<char>) -> (Seq<char>, bool)
    decreases s.len(),
{
    if s.len() == 0 {
        (Seq::empty(), false)
    } else {
        let (out, in_whitespace) = collapse_state(s.drop_last());
        let c = s.last();
        if is_white_space(c) {
            if in_whitespace {
                (out, true)
            } else {
                (out.push(' '), true)
            }
        } else {
            (out.push(c), false)
        }
    }
}

/// `s` with every white-space run replaced by a single space.
pub open spec fn collapse_seq(s: Seq<char>) -> Seq<char> {
    collapse_state(s).0
}

/// Collapses each whitespace run to a single space, as CSS
/// `white-space: normal` requires.
///
/// Leading and trailing spaces are preserved: whether they survive depends on
/// where the run lands on a line, which only inline layout knows.
pub fn collapse_whitespace(text: &str) -> (r: String)
    ensures
        r@ == collapse_seq(text@),
{
    broadcast use vstd::string::group_string_axioms;

    let mut out = String::new();
    let mut in_whitespace = false;
    for ch in it: text.chars()
        invariant
            it.seq() == text@,
            (out@, in_whitespace) == collapse_state(text@.take(it.index() as int)),
    {
        assert(text@.take(it.index() + 1).drop_last() == text@.take(it.index() as int));
        if is_white_space_char(ch) {
            if !in_whitespace {
                push_char(&mut out, ' ');
                in_whitespace = true;
            }
        } else {
            in_whitespace = false;
            push_char(&mut out, ch);
        }
    }
    assert(text@.take(text@.len() as int) == text@);
    out
}

/// Collapsing already-collapsed text changes nothing: white-space collapsing
/// is idempotent.
pub proof fn lemma_collapse_is_idempotent(s: Seq<char>)
    ensures
        collapse_seq(collapse_seq(s)) == collapse_seq(s),
{
    lemma_collapse_state_fixed(s);
}

proof fn lemma_collapse_state_fixed(s: Seq<char>)
    ensures
        collapse_state(collapse_state(s).0) == collapse_state(s),
    decreases s.len(),
{
    if s.len() > 0 {
        lemma_collapse_state_fixed(s.drop_last());
        let (out, in_whitespace) = collapse_state(s.drop_last());
        let c = s.last();
        if is_white_space(c) {
            if !in_whitespace {
                assert(out.push(' ').drop_last() == out);
            }
        } else {
            assert(out.push(c).drop_last() == out);
        }
    }
}

/// One step of collapsing: the text so far and whether it ends in a run of
/// white space, after reading `c`.
pub open spec fn collapse_step(st: (Seq<char>, bool), c: char) -> (Seq<char>, bool) {
    if is_white_space(c) {
        if st.1 {
            st
        } else {
            (st.0.push(' '), true)
        }
    } else {
        (st.0.push(c), false)
    }
}

/// Collapsing `s` from the state `st`.
pub open spec fn collapse_from(st: (Seq<char>, bool), s: Seq<char>) -> (Seq<char>, bool)
    decreases s.len(),
{
    if s.len() == 0 {
        st
    } else {
        collapse_step(collapse_from(st, s.drop_last()), s.last())
    }
}

proof fn lemma_collapse_state_from(s: Seq<char>)
    ensures
        collapse_state(s) == collapse_from((Seq::empty(), false), s),
    decreases s.len(),
{
    if s.len() > 0 {
        lemma_collapse_state_from(s.drop_last());
    }
}

proof fn lemma_collapse_from_concat(st: (Seq<char>, bool), x: Seq<char>, y: Seq<char>)
    ensures
        collapse_from(st, x + y) == collapse_from(collapse_from(st, x), y),
    decreases y.len(),
{
    if y.len() == 0 {
        assert(x + y =~= x);
    } else {
        lemma_collapse_from_concat(st, x, y.drop_last());
        assert((x + y).drop_last() =~= x + y.drop_last());
        assert((x + y).last() == y.last());
    }
}

proof fn lemma_collapse_from_prefix(o: Seq<char>, f: bool, y: Seq<char>)
    ensures
        collapse_from((o, f), y) == (o + collapse_from((Seq::empty(), f), y).0, collapse_from(
            (Seq::empty(), f),
            y,
        ).1),
    decreases y.len(),
{
    if y.len() == 0 {
        assert(o + Seq::<char>::empty() =~= o);
    } else {
        lemma_collapse_from_prefix(o, f, y.drop_last());
        let inner = collapse_from((Seq::empty(), f), y.drop_last());
        assert((o + inner.0).push(' ') =~= o + inner.0.push(' '));
        assert((o + inner.0).push(y.last()) =~= o + inner.0.push(y.last()));
    }
}

proof fn lemma_collapse_from_flag(f: bool, y: Seq<char>)
    requires
        y.len() > 0,
        !is_white_space(y[0]),
    ensures
        collapse_from((Seq::empty(), f), y) == collapse_from((Seq::empty(), false), y),
{
    let head = seq![y[0]];
    let rest = y.drop_first();
    assert(y =~= head + rest);
    lemma_collapse_from_concat((Seq::empty(), f), head, rest);
    lemma_collapse_from_concat((Seq::empty(), false), head, rest);
    assert(head.drop_last() =~= Seq::<char>::empty());
    assert(collapse_from((Seq::<char>::empty(), f), head.drop_last()) == (Seq::<char>::empty(), f));
    assert(collapse_from((Seq::<char>::empty(), false), head.drop_last()) == (
        Seq::<char>::empty(),
        false,
    ));
    assert(head.last() == y[0]);
}

proof fn lemma_collapse_from_run(o: Seq<char>, f: bool, w: Seq<char>)
    requires
        w.len() > 0,
        forall|i: int| 0 <= i < w.len() ==> is_white_space(#[trigger] w[i]),
    ensures
        collapse_from((o, f), w) == if f {
            (o, true)
        } else {
            (o.push(' '), true)
        },
    decreases w.len(),
{
    if w.len() > 1 {
        lemma_collapse_from_run(o, f, w.drop_last());
    } else {
        assert(w.drop_last().len() == 0);
        assert(collapse_from((o, f), w.drop_last()) == (o, f));
    }
    assert(is_white_space(w[w.len() - 1]));
    assert(w.last() == w[w.len() - 1]);
}

proof fn lemma_collapse_from_plain(o: Seq<char>, f: bool, x: Seq<char>)
    requires
        x.len() > 0,
        forall|i: int| 0 <= i < x.len() ==> !is_white_space(#[trigger] x[i]),
    ensures
        collapse_from((o, f), x) == (o + x, false),
    decreases x.len(),
{
    if x.len() > 1 {
        lemma_collapse_from_plain(o, f, x.drop_last());
        assert((o + x.drop_last()).push(x.last()) =~= o + x);
    } else {
        assert(x.drop_last().len() == 0);
        assert(collapse_from((o, f), x.drop_last()) == (o, f));
        assert(o.push(x[0]) =~= o + x);
    }
    assert(!is_white_space(x[x.len() - 1]));
    assert(x.last() == x[x.len() - 1]);
}

/// Text without white space is left as it is.
pub proof fn lemma_collapse_keeps_plain_text(x: Seq<char>)
    requires
        forall|i: int| 0 <= i < x.len() ==> !is_white_space(#[trigger] x[i]),
    ensures
        collapse_seq(x) == x,
{
    lemma_collapse_state_from(x);
    if x.len() > 0 {
        lemma_collapse_from_plain(Seq::empty(), false, x);
        assert(Seq::<char>::empty() + x =~= x);
    }
}

/// A maximal run of white space becomes exactly one space, and the text on
/// either side collapses on its own: with `a` empty or ending in something
/// other than white space, `w` a non-empty run of white space, and `b`
/// empty or starting with something other than white space,
/// `collapse(a + w + b) == collapse(a) + " " + collapse(b)`. With
/// [`lemma_collapse_keeps_plain_text`] this fixes the collapsed text of
/// every text: the characters other than white space stay, in order.
pub proof fn lemma_collapse_run(a: Seq<char>, w: Seq<char>, b: Seq<char>)
    requires
        a.len() == 0 || !is_white_space(a.last()),
        w.len() > 0,
        forall|i: int| 0 <= i < w.len() ==> is_white_space(#[trigger] w[i]),
        b.len() == 0 || !is_white_space(b[0]),
    ensures
        collapse_seq(a + w + b) == collapse_seq(a) + seq![' '] + collapse_seq(b),
{
    let e = Seq::<char>::empty();
    lemma_collapse_state_from(a + w + b);
    lemma_collapse_state_from(a);
    lemma_collapse_state_from(b);
    lemma_collapse_from_concat((e, false), a + w, b);
    lemma_collapse_from_concat((e, false), a, w);
    let sa = collapse_from((e, false), a);
    assert(!sa.1) by {
        if a.len() > 0 {
            assert(!is_white_space(a.last()));
        }
    }
    lemma_collapse_from_run(sa.0, false, w);
    lemma_collapse_from_prefix(sa.0.push(' '), true, b);
    if b.len() > 0 {
        lemma_collapse_from_flag(true, b);
    } else {
        assert(b =~= e);
    }
    assert(sa.0.push(' ') + collapse_from((e, false), b).0 =~= sa.0 + seq![' '] + collapse_from(
        (e, false),
        b,
    ).0);
}

/// The characters of `s` that are not white space, in order.
pub open spec fn non_white(s: Seq<char>) -> Seq<char>
    decreases s.len(),
{
    if s.len() == 0 {
        Seq::empty()
    } else if is_white_space(s.last()) {
        non_white(s.drop_last())
    } else {
        non_white(s.drop_last()).push(s.last())
    }
}

/// Collapsing keeps every character that is not white space, in order, and
/// leaves no white space but single spaces: no white space other than `' '`,
/// and never two white-space characters side by side.
pub proof fn lemma_collapse_keeps_characters_and_single_spaces(s: Seq<char>)
    ensures
        non_white(collapse_seq(s)) == non_white(s),
        forall|i: int|
            0 <= i < collapse_seq(s).len() && is_white_space(#[trigger] collapse_seq(s)[i])
                ==> collapse_seq(s)[i] == ' ',
        forall|i: int|
            0 < i < collapse_seq(s).len() && is_white_space(#[trigger] collapse_seq(s)[i])
                ==> !is_white_space(collapse_seq(s)[i - 1]),
{
    lemma_collapse_state_shape(s);
}

proof fn lemma_collapse_state_shape(s: Seq<char>)
    ensures
        non_white(collapse_state(s).0) == non_white(s),
        collapse_state(s).1 == (collapse_state(s).0.len() > 0 && is_white_space(
            collapse_state(s).0.last(),
        )),
        forall|i: int|
            0 <= i < collapse_state(s).0.len() && is_white_space(#[trigger] collapse_state(s).0[i])
                ==> collapse_state(s).0[i] == ' ',
        forall|i: int|
            0 < i < collapse_state(s).0.len() && is_white_space(#[trigger] collapse_state(s).0[i])
                ==> !is_white_space(collapse_state(s).0[i - 1]),
    decreases s.len(),
{
    if s.len() > 0 {
        let front = s.drop_last();
        lemma_collapse_state_shape(front);
        let (out, flag) = collapse_state(front);
        let c = s.last();
        let next = collapse_state(s).0;
        if next != out {
            let pushed = if is_white_space(c) {
                ' '
            } else {
                c
            };
            assert(next == out.push(pushed));
            assert(next.drop_last() =~= out);
            assert forall|i: int|
                0 < i < next.len() && is_white_space(#[trigger] next[i]) implies !is_white_space(
                next[i - 1],
            ) by {
                if i < out.len() {
                    assert(next[i] == out[i]);
                    assert(next[i - 1] == out[i - 1]);
                } else {
                    assert(next[i - 1] == out.last());
                }
            }
            assert forall|i: int|
                0 <= i < next.len() && is_white_space(#[trigger] next[i]) implies next[i] == ' ' by {
                if i < out.len() {
                    assert(next[i] == out[i]);
                }
            }
        }
    }
}

/// A generic CSS family, which maps to a list of concrete candidates.
#[derive(Clone, Copy, Debug, PartialEq, Eq, Structural)]
pub enum GenericFamily {
    SansSerif,
    Serif,
    Monospace,
}

/// The generic family a (lower-cased) family name stands for, if any.
pub open spec fn generic_family_of(name: Seq<char>) -> Option<GenericFamily> {
    let name = lower_seq(name);
    if name == "sans-serif"@ || name == "system-ui"@ || name == "-apple-system"@ || name
        == "ui-sans-serif"@ || name == "blinkmacsystemfont"@ {
        Some(GenericFamily::SansSerif)
    } else if name == "serif"@ || name == "ui-serif"@ {
        Some(GenericFamily::Serif)
    } else if name == "monospace"@ || name == "ui-monospace"@ {
        Some(GenericFamily::Monospace)
    } else if name == "cursive"@ || name == "fantasy"@ {
        // `cursive` and `fantasy` have no sensible mapping; fall back to sans.
        Some(GenericFamily::SansSerif)
    } else {
        None
    }
}

/// Every generic family keyword of CSS, in any ASCII case, names its
/// family: `sans-serif`, `system-ui`, `-apple-system`, `ui-sans-serif` and
/// `BlinkMacSystemFont` the sans-serif family, `serif` and `ui-serif` the
/// serif one, `monospace` and `ui-monospace` the monospace one, and
/// `cursive` and `fantasy`, which have no family of their own, sans-serif.
pub proof fn lemma_generic_family_keywords(name: Seq<char>)
    ensures
        lower_seq(name) == "sans-serif"@ ==> generic_family_of(name) == Some(GenericFamily::SansSerif),
        lower_seq(name) == "system-ui"@ ==> generic_family_of(name) == Some(GenericFamily::SansSerif),
        lower_seq(name) == "-apple-system"@ ==> generic_family_of(name) == Some(GenericFamily::SansSerif),
        lower_seq(name) == "ui-sans-serif"@ ==> generic_family_of(name) == Some(GenericFamily::SansSerif),
        lower_seq(name) == "blinkmacsystemfont"@ ==> generic_family_of(name) == Some(GenericFamily::SansSerif),
        lower_seq(name) == "serif"@ ==> generic_family_of(name) == Some(GenericFamily::Serif),
        lower_seq(name) == "ui-serif"@ ==> generic_family_of(name) == Some(GenericFamily::Serif),
        lower_seq(name) == "monospace"@ ==> generic_family_of(name) == Some(GenericFamily::Monospace),
        lower_seq(name) == "ui-monospace"@ ==> generic_family_of(name) == Some(GenericFamily::Monospace),
        lower_seq(name) == "cursive"@ ==> generic_family_of(name) == Some(GenericFamily::SansSerif),
        lower_seq(name) == "fantasy"@ ==> generic_family_of(name) == Some(GenericFamily::SansSerif),
{
    reveal_strlit("sans-serif");
    reveal_strlit("system-ui");
    reveal_strlit("-apple-system");
    reveal_strlit("ui-sans-serif");
    reveal_strlit("blinkmacsystemfont");
    reveal_strlit("serif");
    reveal_strlit("ui-serif");
    reveal_strlit("monospace");
    reveal_strlit("ui-monospace");
    reveal_strlit("cursive");
    reveal_strlit("fantasy");
    assert("sans-serif"@.len() == 10);
    assert("system-ui"@.len() == 9);
    assert("-apple-system"@.len() == 13);
    assert("ui-sans-serif"@.len() == 13);
    assert("blinkmacsystemfont"@.len() == 18);
    assert("serif"@.len() == 5);
    assert("ui-serif"@.len() == 8);
    assert("monospace"@.len() == 9);
    assert("ui-monospace"@.len() == 12);
    assert("cursive"@.len() == 7);
    assert("fantasy"@.len() == 7);
    assert("system-ui"@[0] != "monospace"@[0]);
    assert("-apple-system"@[0] != "ui-sans-serif"@[0]);
    assert("cursive"@[0] != "fantasy"@[0]);
}

/// A request for one family tries that family's names and then the
/// sans-serif candidates: for a generic family, its candidates; for any
/// other name, the name itself.
pub proof fn lemma_one_family_candidates(name: Seq<char>)
    ensures
        face_candidates_seq(seq![name]) == match generic_family_of(name) {
            Some(f) => family_candidates(f) + family_candidates(GenericFamily::SansSerif),
            None => seq![name] + family_candidates(GenericFamily::SansSerif),
        },
{
    assert(seq![name].drop_last() =~= Seq::<Seq<char>>::empty());
    assert(seq![name].last() == name);
    assert(requested_names(Seq::<Seq<char>>::empty()) =~= Seq::<Seq<char>>::empty());
    assert(requested_names(seq![name]) == requested_names(Seq::<Seq<char>>::empty()) + names_for(name));
    assert(requested_names(seq![name]) =~= names_for(name));
}

pub open spec fn str_views(v: Seq<&str>) -> Seq<Seq<char>> {
    v.map_values(|s: &str| s@)
}

/// The concrete families a generic family maps to, most preferred first.
pub open spec fn family_candidates(family: GenericFamily) -> Seq<Seq<char>> {
    match family {
        GenericFamily::SansSerif => seq![
            "Inter"@,
            "Helvetica Neue"@,
            "Helvetica"@,
            "Arial"@,
            "Liberation Sans"@,
            "DejaVu Sans"@,
            "Noto Sans"@,
            "Segoe UI"@,
            "Roboto"@,
            "FreeSans"@,
        ],
        GenericFamily::Serif => seq![
            "Georgia"@,
            "Times New Roman"@,
            "Liberation Serif"@,
            "DejaVu Serif"@,
            "Noto Serif"@,
            "FreeSerif"@,
        ],
        GenericFamily::Monospace => seq![
            "SF Mono"@,
            "Menlo"@,
            "Consolas"@,
            "Liberation Mono"@,
            "DejaVu Sans Mono"@,
            "Noto Sans Mono"@,
            "Courier New"@,
            "FreeMono"@,
        ],
    }
}

impl GenericFamily {
    /// Concrete candidates for this family, most preferred first.
    pub fn candidates(self) -> (r: Vec<&'static str>)
        ensures
            str_views(r@) == family_candidates(self),
    {
        let r = match self {
            GenericFamily::SansSerif => vec![
                "Inter",
                "Helvetica Neue",
                "Helvetica",
                "Arial",
                "Liberation Sans",
                "DejaVu Sans",
                "Noto Sans",
                "Segoe UI",
                "Roboto",
                "FreeSans",
            ],
            GenericFamily::Serif => vec![
                "Georgia",
                "Times New Roman",
                "Liberation Serif",
                "DejaVu Serif",
                "Noto Serif",
                "FreeSerif",
            ],
            GenericFamily::Monospace => vec![
                "SF Mono",
                "Menlo",
                "Consolas",
                "Liberation Mono",
                "DejaVu Sans Mono",
                "Noto Sans Mono",
                "Courier New",
                "FreeMono",
            ],
        };
        assert(str_views(r@) =~= family_candidates(self));
        r
    }
}

/// The generic family `name` stands for, compared without regard to ASCII
/// case.
pub fn generic_family(name: &str) -> (r: Option<GenericFamily>)
    ensures
        r == generic_family_of(name@),
{
    let lower = lowercase(name);
    let name = lower.as_str();
    if str_equal(name, "sans-serif") || str_equal(name, "system-ui") || str_equal(
        name,
        "-apple-system",
    ) || str_equal(name, "ui-sans-serif") || str_equal(name, "blinkmacsystemfont") {
        Some(GenericFamily::SansSerif)
    } else if str_equal(name, "serif") || str_equal(name, "ui-serif") {
        Some(GenericFamily::Serif)
    } else if str_equal(name, "monospace") || str_equal(name, "ui-monospace") {
        Some(GenericFamily::Monospace)
    } else if str_equal(name, "cursive") || str_equal(name, "fantasy") {
        Some(GenericFamily::SansSerif)
    } else {
        None
    }
}

/// Generic CSS families mapped to concrete candidates, most preferred first.
pub fn generic_candidates(name: &str) -> (r: Option<Vec<&'static str>>)
    ensures
        match r {
            Some(v) => generic_family_of(name@) matches Some(f) && str_views(v@)
                == family_candidates(f),
            None => generic_family_of(name@) is None,
        },
{
    match generic_family(name) {
        Some(family) => Some(family.candidates()),
        None => None,
    }
}

/// The names one requested family tries: a generic family's candidates,
/// else the name itself.
pub open spec fn names_for(family: Seq<char>) -> Seq<Seq<char>> {
    match generic_family_of(family) {
        Some(f) => family_candidates(f),
        None => seq![family],
    }
}

/// The names each of `families` tries, one family after the other.
pub open spec fn requested_names(families: Seq<Seq<char>>) -> Seq<Seq<char>>
    decreases families.len(),
{
    if families.len() == 0 {
        Seq::empty()
    } else {
        requested_names(families.drop_last()) + names_for(families.last())
    }
}

/// The names a font request tries, in order: those of each requested family,
/// then the sans-serif candidates, which stand in when none of them is
/// installed.
pub open spec fn face_candidates_seq(families: Seq<Seq<char>>) -> Seq<Seq<char>> {
    requested_names(families) + family_candidates(GenericFamily::SansSerif)
}

fn push_names(out: &mut Vec<String>, names: &Vec<&'static str>)
    ensures
        views(final(out)@) == views(old(out)@) + str_views(names@),
{
    let ghost start = views(out@);
    let mut i: usize = 0;
    while i < names.len()
        invariant
            i <= names@.len(),
            views(out@) == start + str_views(names@).subrange(0, i as int),
        decreases names@.len() - i,
    {
        let ghost before = out@;
        out.push(names[i].to_owned());
        assert(views(out@) =~= views(before).push(names@[i as int]@));
        assert(str_views(names@).subrange(0, i + 1) =~= str_views(names@).subrange(0, i as int).push(
            names@[i as int]@,
        ));
        i = i + 1;
    }
    assert(str_views(names@).subrange(0, i as int) =~= str_views(names@));
}

/// The family names a font request with `families` tries, in order.
pub fn face_candidates(families: &Vec<String>) -> (r: Vec<String>)
    ensures
        views(r@) == face_candidates_seq(views(families@)),
{
    let mut out: Vec<String> = Vec::new();
    let mut i: usize = 0;
    while i < families.len()
        invariant
            i <= families@.len(),
            views(out@) == requested_names(views(families@).subrange(0, i as int)),
        decreases families@.len() - i,
    {
        let ghost before = views(out@);
        proof {
            let done = views(families@).subrange(0, i + 1);
            assert(done.drop_last() =~= views(families@).subrange(0, i as int));
            assert(done.last() == families@[i as int]@);
        }
        match generic_candidates(families[i].as_str()) {
            Some(names) => push_names(&mut out, &names),
            None => {
                out.push(families[i].clone());
                assert(views(out@) =~= before + seq![families@[i as int]@]);
            },
        }
        i = i + 1;
    }
    assert(views(families@).subrange(0, i as int) =~= views(families@));
    push_names(&mut out, &GenericFamily::SansSerif.candidates());
    out
}

/// The first face found among the candidates, given what the font database
/// found for each name in order, else the first fallback face.
pub open spec fn first_found(found: Seq<Option<u64>>, fallbacks: Seq<u64>) -> Option<u64>
    decreases found.len(),
{
    if found.len() == 0 {
        if fallbacks.len() > 0 {
            Some(fallbacks[0])
        } else {
            None
        }
    } else if found[0] is Some {
        found[0]
    } else {
        first_found(found.drop_first(), fallbacks)
    }
}

/// The face a request resolves to: `found` holds what the font database
/// found for each candidate name in order, `fallbacks` the faces that cover
/// what the others lack.
pub fn resolve_face(found: &Vec<Option<u64>>, fallbacks: &Vec<u64>) -> (r: Option<u64>)
    ensures
        r == first_found(found@, fallbacks@),
{
    let mut i: usize = 0;
    assert(found@.skip(0) =~= found@);
    while i < found.len()
        invariant
            i <= found@.len(),
            first_found(found@, fallbacks@) == first_found(found@.skip(i as int), fallbacks@),
        decreases found@.len() - i,
    {
        assert(found@.skip(i as int).drop_first() =~= found@.skip(i + 1));
        assert(found@.skip(i as int)[0] == found@[i as int]);
        if found[i].is_some() {
            return found[i];
        }
        i = i + 1;
    }
    assert(found@.skip(i as int).len() == 0);
    if fallbacks.len() > 0 {
        Some(fallbacks[0])
    } else {
        None
    }
}

/// The family names whose faces cover what a chosen face lacks: the
/// sans-serif, serif and monospace candidates, in that order.
pub open spec fn fallback_names_seq() -> Seq<Seq<char>> {
    family_candidates(GenericFamily::SansSerif) + family_candidates(GenericFamily::Serif)
        + family_candidates(GenericFamily::Monospace)
}

/// The family names the fallback faces are looked up by, in order.
pub fn fallback_names() -> (r: Vec<String>)
    ensures
        views(r@) == fallback_names_seq(),
{
    let mut out: Vec<String> = Vec::new();
    push_names(&mut out, &GenericFamily::SansSerif.candidates());
    push_names(&mut out, &GenericFamily::Serif.candidates());
    push_names(&mut out, &GenericFamily::Monospace.candidates());
    assert(Seq::<Seq<char>>::empty() + family_candidates(GenericFamily::SansSerif) =~= family_candidates(
        GenericFamily::SansSerif,
    ));
    out
}

/// The ids found, each once, in the order first found.
pub open spec fn distinct_found(found: Seq<Option<u64>>) -> Seq<u64>
    decreases found.len(),
{
    if found.len() == 0 {
        Seq::empty()
    } else {
        let prev = distinct_found(found.drop_last());
        match found.last() {
            Some(id) => if prev.contains(id) {
                prev
            } else {
                prev.push(id)
            },
            None => prev,
        }
    }
}

/// The fallback faces: those found for the fallback names, each once, then
/// the first face in the database when it is not among them.
pub open spec fn fallback_faces(found: Seq<Option<u64>>, first_face: Option<u64>) -> Seq<u64> {
    let ids = distinct_found(found);
    match first_face {
        Some(id) => if ids.contains(id) {
            ids
        } else {
            ids.push(id)
        },
        None => ids,
    }
}

fn contains_id(ids: &Vec<u64>, id: u64) -> (r: bool)
    ensures
        r == ids@.contains(id),
{
    let mut i: usize = 0;
    while i < ids.len()
        invariant
            i <= ids@.len(),
            forall|k: int| 0 <= k < i ==> ids@[k] != id,
        decreases ids@.len() - i,
    {
        if ids[i] == id {
            return true;
        }
        i = i + 1;
    }
    false
}

/// The fallback faces, given what the font database found for each of the
/// fallback names in order and the first face it lists.
pub fn collect_fallbacks(found: &Vec<Option<u64>>, first_face: Option<u64>) -> (r: Vec<u64>)
    ensures
        r@ == fallback_faces(found@, first_face),
{
    let mut ids: Vec<u64> = Vec::new();
    let mut i: usize = 0;
    while i < found.len()
        invariant
            i <= found@.len(),
            ids@ == distinct_found(found@.subrange(0, i as int)),
        decreases found@.len() - i,
    {
        proof {
            let done = found@.subrange(0, i + 1);
            assert(done.drop_last() =~= found@.subrange(0, i as int));
            assert(done.last() == found@[i as int]);
        }
        if let Some(id) = found[i] {
            if !contains_id(&ids, id) {
                ids.push(id);
            }
        }
        i = i + 1;
    }
    assert(found@.subrange(0, i as int) =~= found@);
    if let Some(id) = first_face {
        if !contains_id(&ids, id) {
            ids.push(id);
        }
    }
    ids
}

/// No face is a fallback twice.
pub proof fn lemma_fallbacks_are_distinct(found: Seq<Option<u64>>, first_face: Option<u64>)
    ensures
        forall|i: int, j: int|
            0 <= i < j < fallback_faces(found, first_face).len() ==> fallback_faces(found, first_face)[i]
                != fallback_faces(found, first_face)[j],
    decreases found.len(),
{
    lemma_distinct_found_is_distinct(found);
}

/// The face a request resolves to is the one found for the earliest
/// candidate that was found at all; when none was, the first fallback face,
/// and nothing when there is none.
pub proof fn lemma_first_found_face_wins(found: Seq<Option<u64>>, fallbacks: Seq<u64>, i: int)
    ensures
        0 <= i < found.len() && found[i] is Some && (forall|j: int| 0 <= j < i ==> found[j] is None)
            ==> first_found(found, fallbacks) == found[i],
        (forall|j: int| 0 <= j < found.len() ==> found[j] is None) ==> first_found(found, fallbacks)
            == if fallbacks.len() > 0 {
            Some(fallbacks[0])
        } else {
            None::<u64>
        },
    decreases found.len(),
{
    if found.len() > 0 {
        let rest = found.drop_first();
        assert forall|j: int| 0 <= j < rest.len() implies rest[j] == found[j + 1] by {}
        if i > 0 && 0 <= i < found.len() && found[i] is Some && (forall|j: int| 0 <= j < i ==> found[j] is None) {
            assert(found[0] is None);
            assert(forall|j: int| 0 <= j < i - 1 ==> rest[j] is None) by {
                assert forall|j: int| 0 <= j < i - 1 implies rest[j] is None by {
                    assert(found[j + 1] is None);
                }
            }
            lemma_first_found_face_wins(rest, fallbacks, i - 1);
        } else {
            lemma_first_found_face_wins(rest, fallbacks, 0);
        }
        if forall|j: int| 0 <= j < found.len() ==> found[j] is None {
            assert(found[0] is None);
            assert forall|j: int| 0 <= j < rest.len() implies rest[j] is None by {
                assert(found[j + 1] is None);
            }
        }
    }
}

/// Every face found for a fallback name, and the database's first face, is
/// among the fallback faces.
pub proof fn lemma_found_faces_are_fallbacks(found: Seq<Option<u64>>, first_face: Option<u64>)
    ensures
        forall|i: int| 0 <= i < found.len() && #[trigger] found[i] is Some ==> fallback_faces(found, first_face).contains(found[i]->0),
        first_face is Some ==> fallback_faces(found, first_face).contains(first_face->0),
        forall|k: int| 0 <= k < fallback_faces(found, first_face).len() ==> (exists|i: int|
            0 <= i < found.len() && found[i] == Some(#[trigger] fallback_faces(found, first_face)[k]))
            || first_face == Some(fallback_faces(found, first_face)[k]),
{
    lemma_distinct_found_covers(found);
    let ids = distinct_found(found);
    if let Some(id) = first_face {
        if !ids.contains(id) {
            let all = ids.push(id);
            assert(all[ids.len() as int] == id);
            assert forall|i: int| 0 <= i < found.len() && #[trigger] found[i] is Some implies all.contains(found[i]->0) by {
                let k = choose|k: int| 0 <= k < ids.len() && ids[k] == found[i]->0;
                assert(all[k] == ids[k]);
            }
            assert forall|k: int| 0 <= k < all.len() implies (exists|i: int|
                0 <= i < found.len() && found[i] == Some(#[trigger] all[k])) || first_face == Some(all[k]) by {
                if k < ids.len() {
                    assert(all[k] == ids[k]);
                }
            }
        }
    }
}

proof fn lemma_distinct_found_covers(found: Seq<Option<u64>>)
    ensures
        forall|i: int| 0 <= i < found.len() && #[trigger] found[i] is Some ==> distinct_found(found).contains(found[i]->0),
        forall|k: int| 0 <= k < distinct_found(found).len() ==> exists|i: int|
            0 <= i < found.len() && found[i] == Some(#[trigger] distinct_found(found)[k]),
    decreases found.len(),
{
    if found.len() > 0 {
        let front = found.drop_last();
        lemma_distinct_found_covers(front);
        let prev = distinct_found(front);
        let now = distinct_found(found);
        assert forall|i: int| 0 <= i < found.len() && #[trigger] found[i] is Some implies now.contains(found[i]->0) by {
            if i < front.len() {
                assert(front[i] == found[i]);
                let k = choose|k: int| 0 <= k < prev.len() && prev[k] == found[i]->0;
                if now != prev {
                    assert(now[k] == prev[k]);
                }
            } else {
                assert(found[i] == found.last());
                if now != prev {
                    assert(now[prev.len() as int] == found[i]->0);
                }
            }
        }
        assert forall|k: int| 0 <= k < now.len() implies exists|i: int|
            0 <= i < found.len() && found[i] == Some(#[trigger] now[k]) by {
            if k < prev.len() {
                let i = choose|i: int| 0 <= i < front.len() && front[i] == Some(#[trigger] prev[k]);
                assert(found[i] == front[i]);
                if now != prev {
                    assert(now[k] == prev[k]);
                }
                assert(found[i] == Some(now[k]));
            } else {
                assert(found[found.len() - 1] == found.last());
                assert(found[found.len() - 1] == Some(now[k]));
            }
        }
    }
}

/// The face chosen for a character: the primary face whenever it has a
/// glyph for it; else the first fallback that has one, never one without a
/// glyph and never a later one; the primary face when no fallback has one;
/// nothing only without a primary face and any fallback glyph.
pub proof fn lemma_face_choice(ch: char, primary_glyph: Option<bool>, fallback_glyphs: Seq<bool>)
    requires
        fallback_glyphs.len() <= usize::MAX,
    ensures
        primary_glyph == Some(true) ==> face_for_char_of(ch, primary_glyph, fallback_glyphs) == Some(
            FaceChoice::Primary,
        ),
        face_for_char_of(ch, primary_glyph, fallback_glyphs) matches Some(FaceChoice::Fallback(k)) ==> {
            &&& primary_glyph != Some(true)
            &&& k < fallback_glyphs.len()
            &&& fallback_glyphs[k as int]
            &&& forall|j: int| 0 <= j < k ==> !fallback_glyphs[j]
        },
        primary_glyph == Some(false) && !ch_is_drawn_by_primary(ch) && (exists|j: int|
            0 <= j < fallback_glyphs.len() && fallback_glyphs[j]) ==> face_for_char_of(ch, primary_glyph, fallback_glyphs) is Some
            && !(face_for_char_of(ch, primary_glyph, fallback_glyphs) == Some(FaceChoice::Primary)),
        (forall|j: int| 0 <= j < fallback_glyphs.len() ==> !fallback_glyphs[j]) ==> face_for_char_of(
            ch,
            primary_glyph,
            fallback_glyphs,
        ) == match primary_glyph {
            Some(_) => Some(FaceChoice::Primary),
            None => None::<FaceChoice>,
        },
{
    lemma_first_with_glyph(fallback_glyphs);
}

/// A character the primary face draws even without a glyph: NUL and white
/// space, whose advance it gives.
pub open spec fn ch_is_drawn_by_primary(ch: char) -> bool {
    ch == '\0' || is_white_space(ch)
}

proof fn lemma_first_with_glyph(glyphs: Seq<bool>)
    ensures
        first_with_glyph(glyphs) matches Some(k) ==> 0 <= k < glyphs.len() && glyphs[k] && forall|j: int|
            0 <= j < k ==> !glyphs[j],
        first_with_glyph(glyphs) is None <==> forall|j: int| 0 <= j < glyphs.len() ==> !glyphs[j],
    decreases glyphs.len(),
{
    if glyphs.len() > 0 {
        let rest = glyphs.drop_first();
        lemma_first_with_glyph(rest);
        assert forall|j: int| 0 <= j < rest.len() implies rest[j] == glyphs[j + 1] by {}
        if !glyphs[0] {
            if let Some(k) = first_with_glyph(rest) {
                assert forall|j: int| 0 <= j < k + 1 implies !glyphs[j] by {
                    if j > 0 {
                        assert(!rest[j - 1]);
                    }
                }
            } else {
                assert forall|j: int| 0 <= j < glyphs.len() implies !glyphs[j] by {
                    if j > 0 {
                        assert(!rest[j - 1]);
                    }
                }
            }
            if forall|j: int| 0 <= j < glyphs.len() ==> !glyphs[j] {
                assert forall|j: int| 0 <= j < rest.len() implies !rest[j] by {
                    assert(!glyphs[j + 1]);
                }
            }
        }
    }
}

proof fn lemma_distinct_found_is_distinct(found: Seq<Option<u64>>)
    ensures
        forall|i: int, j: int|
            0 <= i < j < distinct_found(found).len() ==> distinct_found(found)[i] != distinct_found(found)[j],
    decreases found.len(),
{
    if found.len() > 0 {
        let prev = distinct_found(found.drop_last());
        lemma_distinct_found_is_distinct(found.drop_last());
        let now = distinct_found(found);
        assert forall|i: int, j: int| 0 <= i < j < now.len() implies now[i] != now[j] by {
            if j == prev.len() {
                assert(now[i] == prev[i]);
                assert(!prev.contains(now[j]));
            } else {
                assert(now[i] == prev[i]);
                assert(now[j] == prev[j]);
            }
        }
    }
}

/// Which face draws a character.
#[derive(Clone, Copy, Debug, PartialEq, Eq, Structural)]
pub enum FaceChoice {
    /// The face the request resolved to.
    Primary,
    /// The fallback face at this position.
    Fallback(usize),
}

/// The first fallback with a glyph for the character.
pub open spec fn first_with_glyph(glyphs: Seq<bool>) -> Option<int>
    decreases glyphs.len(),
{
    if glyphs.len() == 0 {
        None
    } else if glyphs[0] {
        Some(0)
    } else {
        match first_with_glyph(glyphs.drop_first()) {
            Some(k) => Some(k + 1),
            None => None,
        }
    }
}

/// The face that draws `ch`: the primary face when it has a glyph for it,
/// or `ch` is NUL or white space (whose advance it should give); else the
/// first fallback with a glyph; else the primary face all the same; nothing
/// when there is no primary face either. `primary_glyph` says whether the
/// primary face has a glyph for `ch`, and is `None` without a primary face;
/// `fallback_glyphs` says the same of each fallback face.
pub open spec fn face_for_char_of(ch: char, primary_glyph: Option<bool>, fallback_glyphs: Seq<bool>) -> Option<FaceChoice> {
    match primary_glyph {
        Some(has) if has || ch == '\0' || is_white_space(ch) => Some(FaceChoice::Primary),
        _ => match first_with_glyph(fallback_glyphs) {
            Some(k) => Some(FaceChoice::Fallback(k as usize)),
            None => match primary_glyph {
                Some(_) => Some(FaceChoice::Primary),
                None => None,
            },
        },
    }
}

/// The face that should draw `ch`, falling back when the primary face has
/// no glyph for it.
pub fn choose_face_for_char(ch: char, primary_glyph: Option<bool>, fallback_glyphs: &Vec<bool>) -> (r: Option<FaceChoice>)
    ensures
        r == face_for_char_of(ch, primary_glyph, fallback_glyphs@),
{
    if let Some(has) = primary_glyph {
        if has || ch == '\0' || is_white_space_char(ch) {
            return Some(FaceChoice::Primary);
        }
    }
    let mut i: usize = 0;
    assert(fallback_glyphs@.skip(0) =~= fallback_glyphs@);
    while i < fallback_glyphs.len()
        invariant
            i <= fallback_glyphs@.len(),
            !(primary_glyph matches Some(has) && (has || ch == '\0' || is_white_space(ch))),
            first_with_glyph(fallback_glyphs@) == match first_with_glyph(fallback_glyphs@.skip(i as int)) {
                Some(k) => Some(k + i),
                None => None::<int>,
            },
        decreases fallback_glyphs@.len() - i,
    {
        assert(fallback_glyphs@.skip(i as int).drop_first() =~= fallback_glyphs@.skip(i + 1));
        assert(fallback_glyphs@.skip(i as int)[0] == fallback_glyphs@[i as int]);
        if fallback_glyphs[i] {
            return Some(FaceChoice::Fallback(i));
        }
        i = i + 1;
    }
    assert(fallback_glyphs@.skip(i as int).len() == 0);
    match primary_glyph {
        Some(_) => Some(FaceChoice::Primary),
        None => None,
    }
}

/// One rasterized glyph: an 8-bit coverage mask plus placement.
#[derive(Clone, Debug)]
pub struct GlyphBitmap {
    pub width: usize,
    pub height: usize,
    /// Offset from the pen position to the left edge of the bitmap.
    pub left: i32,
    /// Offset from the baseline to the *top* of the bitmap, downwards positive.
    pub top: i32,
    pub coverage: Vec<u8>,
}

impl GlyphBitmap {
    /// A glyph with no pixels, such as a space.
    pub fn empty() -> (r: GlyphBitmap)
        ensures
            r.width == 0,
            r.height == 0,
            r.left == 0,
            r.top == 0,
            r.coverage@.len() == 0,
    {
        GlyphBitmap { width: 0, height: 0, left: 0, top: 0, coverage: Vec::new() }
    }

    pub fn is_empty(&self) -> (r: bool)
        ensures
            r == (self.width == 0 || self.height == 0),
    {
        self.width == 0 || self.height == 0
    }
}

} // verus!
