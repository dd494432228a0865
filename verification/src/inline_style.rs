//! Editing an inline `style` attribute as text.
//!
//! `el.style.color = 'red'` has to end up in the `style` attribute, because that
//! is where the cascade reads inline declarations from. Working on the text
//! rather than on parsed CSS values means a property the engine does not
//! understand still round-trips untouched.
use vstd::prelude::*;

use crate::chars::{
    is_ascii_lower, is_ascii_upper, lower_char, upper_char, to_lower_char, to_upper_char, find_char,
    first_index_of, lemma_first_index_of, lower_seq, owned, push_char, str_equal, trim, lowercase, trim_seq,
    is_white_space, trim_start_seq, trim_end_seq,
};

verus! {

/// The characters that open or close a bracket or a quoted string.
pub open spec fn is_grouping(c: char) -> bool {
    c == '"' || c == '\'' || c == '(' || c == '[' || c == ')' || c == ']'
}

/// One step of the scanner that tracks bracket depth and the open quote.
pub open spec fn scan_step(state: (nat, Option<char>), c: char) -> (nat, Option<char>) {
    match state.1 {
        Some(open) => if c == open {
            (state.0, None)
        } else {
            state
        },
        None => if c == '"' || c == '\'' {
            (state.0, Some(c))
        } else if c == '(' || c == '[' {
            ((state.0 + 1) as nat, None)
        } else if c == ')' || c == ']' {
            (if state.0 > 0 {
                (state.0 - 1) as nat
            } else {
                0nat
            }, None)
        } else {
            state
        },
    }
}

/// The bracket depth and open quote after reading `s`.
pub open spec fn scan(s: Seq<char>) -> (nat, Option<char>)
    decreases s.len(),
{
    if s.len() == 0 {
        (0nat, None)
    } else {
        scan_step(scan(s.drop_last()), s.last())
    }
}

/// Is `s[i]` a separator that is outside every bracket and quote?
pub open spec fn separates(s: Seq<char>, i: int, separator: char) -> bool {
    &&& s[i] == separator
    &&& !is_grouping(separator)
    &&& scan(s.take(i)) == (0nat, None::<char>)
}

/// The pieces of `s` between the separators that [`separates`] picks out.
pub open spec fn split_top_level_seq(s: Seq<char>, separator: char) -> Seq<Seq<char>>
    decreases s.len(),
{
    if s.len() == 0 {
        seq![Seq::empty()]
    } else {
        let previous = split_top_level_seq(s.drop_last(), separator);
        if separates(s, s.len() - 1, separator) {
            previous.push(Seq::empty())
        } else {
            previous.update(previous.len() - 1, previous.last().push(s.last()))
        }
    }
}

/// The parts, with `separator` between each two.
pub open spec fn join_seq(parts: Seq<Seq<char>>, separator: Seq<char>) -> Seq<char>
    decreases parts.len(),
{
    if parts.len() == 0 {
        Seq::empty()
    } else if parts.len() == 1 {
        parts[0]
    } else {
        join_seq(parts.drop_last(), separator) + separator + parts.last()
    }
}

/// The text before the first top-level `separator`, and everything after it.
pub open spec fn split_once_top_level_seq(s: Seq<char>, separator: char) -> Option<
    (Seq<char>, Seq<char>),
> {
    let parts = split_top_level_seq(s, separator);
    if parts.len() < 2 {
        None
    } else {
        Some((parts[0], join_seq(parts.skip(1), seq![separator])))
    }
}

/// The declaration one `;`-separated chunk holds, if it holds one.
pub open spec fn declaration_of(chunk: Seq<char>) -> Option<(Seq<char>, Seq<char>)> {
    match split_once_top_level_seq(chunk, ':') {
        None => None,
        Some((name, value)) => {
            let name = lower_seq(trim_seq(name));
            let value = trim_seq(value);
            if name.len() == 0 || value.len() == 0 {
                None
            } else {
                Some((name, value))
            }
        },
    }
}

/// The declarations of the chunks, in order, skipping chunks that hold none.
pub open spec fn declarations_of(chunks: Seq<Seq<char>>) -> Seq<(Seq<char>, Seq<char>)>
    decreases chunks.len(),
{
    if chunks.len() == 0 {
        Seq::empty()
    } else {
        let earlier = declarations_of(chunks.drop_last());
        match declaration_of(chunks.last()) {
            Some(d) => earlier.push(d),
            None => earlier,
        }
    }
}

/// The declarations of an inline style.
pub open spec fn declarations_seq(text: Seq<char>) -> Seq<(Seq<char>, Seq<char>)> {
    declarations_of(split_top_level_seq(text, ';'))
}

/// `name: value`.
pub open spec fn declaration_text(d: (Seq<char>, Seq<char>)) -> Seq<char> {
    d.0 + seq![':', ' '] + d.1
}

/// Declarations rendered as an inline style: `a: b; c: d`.
pub open spec fn serialise_seq(ds: Seq<(Seq<char>, Seq<char>)>) -> Seq<char> {
    join_seq(declaration_texts(ds), seq![';', ' '])
}

/// Each declaration as `name: value`.
pub open spec fn declaration_texts(ds: Seq<(Seq<char>, Seq<char>)>) -> Seq<Seq<char>> {
    ds.map_values(|d: (Seq<char>, Seq<char>)| declaration_text(d))
}

/// The value of the last declaration of `name`.
pub open spec fn last_value_of(ds: Seq<(Seq<char>, Seq<char>)>, name: Seq<char>) -> Option<
    Seq<char>,
>
    decreases ds.len(),
{
    if ds.len() == 0 {
        None
    } else if ds.last().0 == name {
        Some(ds.last().1)
    } else {
        last_value_of(ds.drop_last(), name)
    }
}

/// Does some declaration have `name`?
pub open spec fn declares(ds: Seq<(Seq<char>, Seq<char>)>, name: Seq<char>) -> bool {
    exists|i: int| 0 <= i < ds.len() && (#[trigger] ds[i]).0 == name
}

/// `d`, given `value` when it is a declaration of `name`.
pub open spec fn value_set(d: (Seq<char>, Seq<char>), name: Seq<char>, value: Seq<char>) -> (Seq<char>, Seq<char>) {
    if d.0 == name {
        (d.0, value)
    } else {
        d
    }
}

/// Every declaration of `name` given `value`.
pub open spec fn values_set(ds: Seq<(Seq<char>, Seq<char>)>, name: Seq<char>, value: Seq<char>) -> Seq<(Seq<char>, Seq<char>)> {
    ds.map_values(|d: (Seq<char>, Seq<char>)| value_set(d, name, value))
}

/// Every declaration of `name` given `value`, in its place, or a new one
/// appended when there is none.
pub open spec fn with_value(ds: Seq<(Seq<char>, Seq<char>)>, name: Seq<char>, value: Seq<char>) -> Seq<
    (Seq<char>, Seq<char>),
> {
    if declares(ds, name) {
        values_set(ds, name, value)
    } else {
        ds.push((name, value))
    }
}

/// Every declaration but those of `name`, in order.
pub open spec fn without_name(ds: Seq<(Seq<char>, Seq<char>)>, name: Seq<char>) -> Seq<
    (Seq<char>, Seq<char>),
>
    decreases ds.len(),
{
    if ds.len() == 0 {
        Seq::empty()
    } else if ds.last().0 == name {
        without_name(ds.drop_last(), name)
    } else {
        without_name(ds.drop_last(), name).push(ds.last())
    }
}

pub open spec fn views(v: Seq<String>) -> Seq<Seq<char>> {
    v.map_values(|s: String| s@)
}

pub open spec fn pair_views(v: Seq<(String, String)>) -> Seq<(Seq<char>, Seq<char>)> {
    v.map_values(|d: (String, String)| (d.0@, d.1@))
}

/// Splitting never yields an empty list of pieces.
pub proof fn lemma_split_nonempty(s: Seq<char>, separator: char)
    ensures
        split_top_level_seq(s, separator).len() >= 1,
    decreases s.len(),
{
    if s.len() > 0 {
        lemma_split_nonempty(s.drop_last(), separator);
    }
}

proof fn lemma_join_extend_last(parts: Seq<Seq<char>>, separator: Seq<char>, c: char)
    requires
        parts.len() >= 1,
    ensures
        join_seq(parts.update(parts.len() - 1, parts.last().push(c)), separator) == join_seq(
            parts,
            separator,
        ).push(c),
{
    let updated = parts.update(parts.len() - 1, parts.last().push(c));
    if parts.len() == 1 {
        assert(updated[0] == parts[0].push(c));
    } else {
        assert(updated.drop_last() == parts.drop_last());
        assert(join_seq(parts.drop_last(), separator) + separator + parts.last().push(c) =~= (
        join_seq(parts.drop_last(), separator) + separator + parts.last()).push(c));
    }
}

/// Splitting at the top-level separators and joining the pieces back with the
/// separator gives back the text: a split loses and adds nothing.
pub proof fn lemma_split_join(s: Seq<char>, separator: char)
    ensures
        join_seq(split_top_level_seq(s, separator), seq![separator]) == s,
    decreases s.len(),
{
    if s.len() == 0 {
        assert(split_top_level_seq(s, separator) =~= seq![Seq::<char>::empty()]);
        assert(s =~= Seq::<char>::empty());
    } else {
        let previous = split_top_level_seq(s.drop_last(), separator);
        lemma_split_join(s.drop_last(), separator);
        lemma_split_nonempty(s.drop_last(), separator);
        if separates(s, s.len() - 1, separator) {
            let parts = previous.push(Seq::<char>::empty());
            assert(parts.drop_last() == previous);
            assert(s =~= s.drop_last() + seq![separator] + Seq::<char>::empty());
        } else {
            lemma_join_extend_last(previous, seq![separator], s.last());
            assert(s =~= s.drop_last().push(s.last()));
        }
    }
}

/// Joining pieces is the first piece, the separator, and the rest joined.
pub proof fn lemma_join_front(parts: Seq<Seq<char>>, separator: Seq<char>)
    requires
        parts.len() >= 2,
    ensures
        join_seq(parts, separator) == parts[0] + separator + join_seq(parts.skip(1), separator),
    decreases parts.len(),
{
    if parts.len() == 2 {
        assert(parts.drop_last() =~= seq![parts[0]]);
        assert(parts.skip(1) =~= seq![parts[1]]);
        assert(join_seq(parts.drop_last(), separator) == parts[0]);
        assert(join_seq(parts.skip(1), separator) == parts[1]);
    } else {
        lemma_join_front(parts.drop_last(), separator);
        assert(parts.drop_last().skip(1) =~= parts.skip(1).drop_last());
        assert(parts.skip(1).last() == parts.last());
        assert(parts.skip(1).len() > 1);
        assert(join_seq(parts.skip(1), separator) == join_seq(parts.skip(1).drop_last(), separator)
            + separator + parts.skip(1).last());
        assert(parts[0] + separator + join_seq(parts.skip(1), separator) =~= parts[0] + separator
            + join_seq(parts.drop_last().skip(1), separator) + separator + parts.last());
    }
}

/// When a text splits once, the two halves around the separator are the text.
pub proof fn lemma_split_once_rejoins(s: Seq<char>, separator: char)
    ensures
        split_once_top_level_seq(s, separator) matches Some((before, after)) ==> before + seq![
            separator,
        ] + after == s,
{
    let parts = split_top_level_seq(s, separator);
    if parts.len() >= 2 {
        lemma_split_join(s, separator);
        lemma_join_front(parts, seq![separator]);
    }
}

/// Splits on `separator`, ignoring ones inside brackets or quotes.
pub fn split_top_level(text: &str, separator: char) -> (chunks: Vec<String>)
    ensures
        views(chunks@) == split_top_level_seq(text@, separator),
{
    broadcast use vstd::string::group_string_axioms;

    let n = text.unicode_len();
    let mut done: Vec<String> = Vec::new();
    let mut current = String::new();
    let mut depth: usize = 0;
    let mut quote: Option<char> = None;
    assert(text@.take(0) =~= Seq::<char>::empty());
    assert(views(done@).push(current@) =~= seq![Seq::<char>::empty()]);
    for ch in it: text.chars()
        invariant
            n == text@.len(),
            it.seq() == text@,
            depth <= it.index(),
            views(done@).push(current@) == split_top_level_seq(
                text@.take(it.index() as int),
                separator,
            ),
            (depth as nat, quote) == scan(text@.take(it.index() as int)),
    {
        let ghost prefix = text@.take(it.index() as int);
        let ghost before = views(done@).push(current@);
        let ghost next = text@.take(it.index() + 1);
        assert(next.drop_last() == prefix);
        assert(next.last() == ch);
        assert(next.take(it.index() as int) == prefix);
        proof { lemma_split_nonempty(prefix, separator); }
        if let Some(open) = quote {
            push_char(&mut current, ch);
            if ch == open {
                quote = None;
            }
        } else if ch == '"' || ch == '\'' {
            quote = Some(ch);
            push_char(&mut current, ch);
        } else if ch == '(' || ch == '[' {
            depth = depth + 1;
            push_char(&mut current, ch);
        } else if ch == ')' || ch == ']' {
            depth = if depth > 0 {
                depth - 1
            } else {
                0
            };
            push_char(&mut current, ch);
        } else if ch == separator && depth == 0 {
            done.push(current);
            current = String::new();
            assert(views(done@).push(current@) =~= before.push(Seq::<char>::empty()));
        } else {
            push_char(&mut current, ch);
        }
        proof {
            if !separates(next, next.len() - 1, separator) {
                assert(views(done@).push(current@) =~= before.update(
                    before.len() - 1,
                    before.last().push(ch),
                ));
            }
        }
    }
    assert(text@.take(n as int) == text@);
    done.push(current);
    assert(views(done@) =~= split_top_level_seq(text@, separator));
    done
}

/// The pieces from `from` on, joined with `separator`.
pub(crate) fn join_from(parts: &Vec<String>, from: usize, separator: char) -> (joined: String)
    requires
        from <= parts@.len(),
    ensures
        joined@ == join_seq(views(parts@).skip(from as int), seq![separator]),
{
    let mut out = String::new();
    let mut i = from;
    assert(views(parts@).subrange(from as int, from as int) =~= Seq::<Seq<char>>::empty());
    while i < parts.len()
        invariant
            from <= i <= parts@.len(),
            out@ == join_seq(views(parts@).subrange(from as int, i as int), seq![separator]),
        decreases parts@.len() - i,
    {
        let ghost done = views(parts@).subrange(from as int, i as int);
        let ghost next = views(parts@).subrange(from as int, i + 1);
        assert(next.drop_last() == done);
        assert(next.last() == parts@[i as int]@);
        if i > from {
            push_char(&mut out, separator);
        } else {
            assert(next =~= seq![parts@[i as int]@]);
        }
        out.append(parts[i].as_str());
        proof {
            if i > from {
                assert(out@ =~= join_seq(done, seq![separator]) + seq![separator] + next.last());
            }
        }
        i = i + 1;
    }
    assert(views(parts@).subrange(from as int, parts@.len() as int) =~= views(parts@).skip(
        from as int,
    ));
    out
}

/// Splits at the first top-level `separator`.
pub fn split_once_top_level(text: &str, separator: char) -> (r: Option<(String, String)>)
    ensures
        match r {
            Some((before, after)) => split_once_top_level_seq(text@, separator) == Some(
                (before@, after@),
            ),
            None => split_once_top_level_seq(text@, separator) is None,
        },
{
    let parts = split_top_level(text, separator);
    if parts.len() < 2 {
        return None;
    }
    let first = parts[0].clone();
    let rest = join_from(&parts, 1, separator);
    Some((first, rest))
}

/// Splits an inline style into `(property, value)` pairs.
///
/// Semicolons inside `url(…)` or a quoted string do not separate declarations,
/// so the split tracks nesting and quoting.
pub fn declarations(text: &str) -> (r: Vec<(String, String)>)
    ensures
        pair_views(r@) == declarations_seq(text@),
{
    let chunks = split_top_level(text, ';');
    let mut out: Vec<(String, String)> = Vec::new();
    let mut i: usize = 0;
    assert(views(chunks@).take(0) =~= Seq::<Seq<char>>::empty());
    while i < chunks.len()
        invariant
            i <= chunks@.len(),
            views(chunks@) == split_top_level_seq(text@, ';'),
            pair_views(out@) == declarations_of(views(chunks@).take(i as int)),
        decreases chunks@.len() - i,
    {
        let ghost taken = views(chunks@).take(i + 1);
        assert(taken.drop_last() == views(chunks@).take(i as int));
        assert(taken.last() == chunks@[i as int]@);
        match split_once_top_level(chunks[i].as_str(), ':') {
            None => {},
            Some((name, value)) => {
                let trimmed = trim(name.as_str());
                let name = lowercase(trimmed.as_str());
                let value = trim(value.as_str());
                if name.unicode_len() != 0 && value.unicode_len() != 0 {
                    out.push((name, value));
                    assert(pair_views(out@) =~= declarations_of(taken));
                }
            },
        }
        i = i + 1;
    }
    assert(views(chunks@).take(chunks@.len() as int) == views(chunks@));
    out
}

/// Renders declarations back into an inline style.
pub fn serialise(declarations: &[(String, String)]) -> (r: String)
    ensures
        r@ == serialise_seq(pair_views(declarations@)),
{
    let ghost texts = declaration_texts(pair_views(declarations@));
    let mut out = String::new();
    let mut i: usize = 0;
    assert(texts.take(0) =~= Seq::<Seq<char>>::empty());
    while i < declarations.len()
        invariant
            i <= declarations@.len(),
            texts == declaration_texts(pair_views(declarations@)),
            out@ == join_seq(texts.take(i as int), seq![';', ' ']),
        decreases declarations@.len() - i,
    {
        let ghost before = out@;
        assert(texts.take(i + 1).drop_last() == texts.take(i as int));
        if i > 0 {
            push_char(&mut out, ';');
            push_char(&mut out, ' ');
        } else {
            assert(texts.take(1) =~= seq![texts[0]]);
        }
        let ghost start = out@;
        out.append(declarations[i].0.as_str());
        push_char(&mut out, ':');
        push_char(&mut out, ' ');
        out.append(declarations[i].1.as_str());
        assert(out@ =~= start + declaration_text(pair_views(declarations@)[i as int]));
        proof {
            if i > 0 {
                assert(out@ =~= before + seq![';', ' '] + texts.take(i + 1).last());
            }
        }
        i = i + 1;
    }
    assert(texts.take(declarations@.len() as int) == texts);
    out
}

/// The value of one property, if it is set.
///
/// A property declared twice resolves to the last declaration, as the
/// cascade does.
pub fn property(text: &str, name: &str) -> (r: Option<String>)
    ensures
        match r {
            Some(v) => last_value_of(declarations_seq(text@), name@) == Some(v@),
            None => last_value_of(declarations_seq(text@), name@) is None,
        },
{
    let ds = declarations(text);
    let mut i = ds.len();
    assert(pair_views(ds@).take(i as int) == pair_views(ds@));
    while i > 0
        invariant
            i <= ds@.len(),
            pair_views(ds@) == declarations_seq(text@),
            last_value_of(pair_views(ds@), name@) == last_value_of(
                pair_views(ds@).take(i as int),
                name@,
            ),
        decreases i,
    {
        assert(pair_views(ds@).take(i as int).drop_last() == pair_views(ds@).take(i - 1));
        assert(pair_views(ds@).take(i as int).last() == (ds@[i - 1].0@, ds@[i - 1].1@));
        if str_equal(ds[i - 1].0.as_str(), name) {
            return Some(ds[i - 1].1.clone());
        }
        i = i - 1;
    }
    None
}

/// Sets a property: every declaration of it takes the value, in its place,
/// or a declaration is appended when there is none.
pub fn set_property(text: &str, name: &str, value: &str) -> (r: String)
    ensures
        r@ == serialise_seq(with_value(declarations_seq(text@), name@, value@)),
{
    let ds = declarations(text);
    let ghost start = pair_views(ds@);
    let mut out: Vec<(String, String)> = Vec::new();
    let mut found = false;
    let mut i: usize = 0;
    while i < ds.len()
        invariant
            i <= ds@.len(),
            start == pair_views(ds@),
            start == declarations_seq(text@),
            pair_views(out@) == values_set(start.take(i as int), name@, value@),
            found == declares(start.take(i as int), name@),
        decreases ds@.len() - i,
    {
        let ghost before = out@;
        proof {
            assert(start[i as int] == (ds@[i as int].0@, ds@[i as int].1@));
        }
        if str_equal(ds[i].0.as_str(), name) {
            out.push((ds[i].0.clone(), owned(value)));
            found = true;
            assert(start.take(i + 1)[i as int].0 == name@);
        } else {
            out.push((ds[i].0.clone(), ds[i].1.clone()));
            proof {
                if declares(start.take(i + 1), name@) {
                    let k = choose|k: int| 0 <= k < i + 1 && (#[trigger] start.take(i + 1)[k]).0 == name@;
                    assert(start.take(i as int)[k] == start.take(i + 1)[k]);
                }
            }
        }
        proof {
            if declares(start.take(i as int), name@) {
                let k = choose|k: int| 0 <= k < i && (#[trigger] start.take(i as int)[k]).0 == name@;
                assert(start.take(i + 1)[k] == start.take(i as int)[k]);
            }
        }
        assert(pair_views(out@) =~= pair_views(before).push(
            (out@[i as int].0@, out@[i as int].1@),
        ));
        assert(values_set(start.take(i + 1), name@, value@) =~= values_set(
            start.take(i as int),
            name@,
            value@,
        ).push(value_set(start[i as int], name@, value@)));
        i = i + 1;
    }
    assert(start.take(i as int) =~= start);
    if !found {
        let ghost before = out@;
        out.push((owned(name), owned(value)));
        assert(values_set(start, name@, value@) =~= start);
        assert(pair_views(out@) =~= start.push((name@, value@)));
    }
    serialise(out.as_slice())
}

/// Removes every declaration of a property.
pub fn remove_property(text: &str, name: &str) -> (r: String)
    ensures
        r@ == serialise_seq(without_name(declarations_seq(text@), name@)),
{
    let ds = declarations(text);
    let mut kept: Vec<(String, String)> = Vec::new();
    let mut i: usize = 0;
    assert(pair_views(ds@).take(0) =~= Seq::<(Seq<char>, Seq<char>)>::empty());
    while i < ds.len()
        invariant
            i <= ds@.len(),
            pair_views(kept@) == without_name(pair_views(ds@).take(i as int), name@),
        decreases ds@.len() - i,
    {
        assert(pair_views(ds@).take(i + 1).drop_last() == pair_views(ds@).take(i as int));
        if !str_equal(ds[i].0.as_str(), name) {
            kept.push((ds[i].0.clone(), ds[i].1.clone()));
            assert(pair_views(kept@) =~= without_name(pair_views(ds@).take(i + 1), name@));
        }
        i = i + 1;
    }
    assert(pair_views(ds@).take(ds@.len() as int) == pair_views(ds@));
    serialise(kept.as_slice())
}

/// `backgroundColor` to `background-color`, one character at a time.
pub open spec fn kebab_chars(s: Seq<char>) -> Seq<char>
    decreases s.len(),
{
    if s.len() == 0 {
        Seq::empty()
    } else {
        kebab_chars(s.drop_last()) + if is_ascii_upper(s.last()) {
            seq!['-', lower_char(s.last())]
        } else {
            seq![s.last()]
        }
    }
}

/// A hyphenated name is left alone; any other has a hyphen put before each
/// capital, which is lower-cased.
pub open spec fn kebab_seq(s: Seq<char>) -> Seq<char> {
    if s.contains('-') {
        s
    } else {
        kebab_chars(s)
    }
}

/// Hyphens dropped, and the character after each capitalised.
pub open spec fn camel_from(s: Seq<char>, capitalise: bool) -> Seq<char>
    decreases s.len(),
{
    if s.len() == 0 {
        Seq::empty()
    } else if s[0] == '-' {
        camel_from(s.drop_first(), true)
    } else if capitalise {
        seq![upper_char(s[0])] + camel_from(s.drop_first(), false)
    } else {
        seq![s[0]] + camel_from(s.drop_first(), false)
    }
}

/// A `--custom` property keeps its name; any other is camel-cased.
pub open spec fn camel_seq(s: Seq<char>) -> Seq<char> {
    if s.len() >= 2 && s[0] == '-' && s[1] == '-' {
        s
    } else {
        camel_from(s, false)
    }
}

/// `backgroundColor` to `background-color`.
///
/// A name that is already hyphenated, including a `--custom` property, is left
/// alone.
pub fn to_kebab_case(name: &str) -> (r: String)
    ensures
        r@ == kebab_seq(name@),
        name@.contains('-') ==> r@ == name@,
{
    broadcast use vstd::string::group_string_axioms;

    proof {
        lemma_first_index_of(name@, '-');
    }
    if find_char(name, '-').is_some() {
        return owned(name);
    }
    let mut out = String::new();
    for ch in it: name.chars()
        invariant
            it.seq() == name@,
            out@ == kebab_chars(name@.take(it.index() as int)),
    {
        assert(name@.take(it.index() + 1).drop_last() == name@.take(it.index() as int));
        if 'A' <= ch && ch <= 'Z' {
            push_char(&mut out, '-');
            push_char(&mut out, to_lower_char(ch));
        } else {
            push_char(&mut out, ch);
        }
        assert(out@ =~= kebab_chars(name@.take(it.index() + 1)));
    }
    assert(name@.take(name@.len() as int) == name@);
    out
}

/// `background-color` to `backgroundColor`.
pub fn to_camel_case(name: &str) -> (r: String)
    ensures
        r@ == camel_seq(name@),
        name@.len() >= 2 && name@[0] == '-' && name@[1] == '-' ==> r@ == name@,
{
    let n = name.unicode_len();
    // A custom property keeps its name exactly, because that is how it is read.
    if n >= 2 && name.get_char(0) == '-' && name.get_char(1) == '-' {
        return owned(name);
    }
    let mut out = String::new();
    let mut capitalise = false;
    let mut i: usize = 0;
    assert(name@.skip(0) == name@);
    while i < n
        invariant
            n == name@.len(),
            i <= n,
            out@ + camel_from(name@.skip(i as int), capitalise) == camel_from(name@, false),
        decreases n - i,
    {
        let ch = name.get_char(i);
        let ghost before = out@;
        let ghost rest = name@.skip(i as int);
        assert(rest.drop_first() == name@.skip(i + 1));
        assert(rest[0] == ch);
        if ch == '-' {
            capitalise = true;
        } else if capitalise {
            push_char(&mut out, to_upper_char(ch));
            capitalise = false;
            assert(out@ + camel_from(name@.skip(i + 1), false) =~= before + camel_from(rest, true));
        } else {
            push_char(&mut out, ch);
            assert(out@ + camel_from(name@.skip(i + 1), false) =~= before + camel_from(rest, false));
        }
        i = i + 1;
    }
    assert(name@.skip(n as int) =~= Seq::<char>::empty());
    out
}

/// A name whose camel-case form converts back to it: no capitals, and either
/// a `--custom` name or one where every hyphen is followed by a lower-case
/// letter.
pub open spec fn is_plain_property_name(s: Seq<char>) -> bool {
    &&& forall|i: int| 0 <= i < s.len() ==> !is_ascii_upper(#[trigger] s[i])
    &&& (s.len() >= 2 && s[0] == '-' && s[1] == '-') || hyphens_lead_letters(s)
}

/// Every hyphen is followed by a lower-case ASCII letter.
pub open spec fn hyphens_lead_letters(s: Seq<char>) -> bool {
    forall|i: int|
        0 <= i < s.len() && #[trigger] s[i] == '-' ==> i + 1 < s.len() && is_ascii_lower(s[i + 1])
}

proof fn lemma_kebab_chars_concat(a: Seq<char>, b: Seq<char>)
    ensures
        kebab_chars(a + b) == kebab_chars(a) + kebab_chars(b),
    decreases b.len(),
{
    if b.len() == 0 {
        assert(a + b =~= a);
        assert(kebab_chars(a) + kebab_chars(b) =~= kebab_chars(a));
    } else {
        lemma_kebab_chars_concat(a, b.drop_last());
        assert((a + b).drop_last() =~= a + b.drop_last());
        assert((a + b).last() == b.last());
        assert(kebab_chars(a + b) =~= kebab_chars(a) + kebab_chars(b));
    }
}

proof fn lemma_camel_has_no_hyphen(s: Seq<char>, capitalise: bool)
    ensures
        !camel_from(s, capitalise).contains('-'),
    decreases s.len(),
{
    if s.len() > 0 {
        lemma_camel_has_no_hyphen(s.drop_first(), true);
        lemma_camel_has_no_hyphen(s.drop_first(), false);
        if s[0] != '-' {
            let head = if capitalise {
                upper_char(s[0])
            } else {
                s[0]
            };
            assert(head != '-');
            let out = camel_from(s, capitalise);
            assert(out =~= seq![head] + camel_from(s.drop_first(), false));
            assert forall|j: int| 0 <= j < out.len() implies out[j] != '-' by {
                if j > 0 {
                    assert(out[j] == camel_from(s.drop_first(), false)[j - 1]);
                }
            }
        }
    }
}

proof fn lemma_camel_then_kebab(s: Seq<char>, capitalise: bool)
    requires
        forall|i: int| 0 <= i < s.len() ==> !is_ascii_upper(#[trigger] s[i]),
        hyphens_lead_letters(s),
        capitalise ==> s.len() > 0 && is_ascii_lower(s[0]),
    ensures
        kebab_chars(camel_from(s, capitalise)) == if capitalise {
            seq!['-'] + s
        } else {
            s
        },
    decreases s.len(),
{
    if s.len() == 0 {
        assert(kebab_chars(Seq::<char>::empty()) =~= Seq::<char>::empty());
    } else {
        let rest = s.drop_first();
        assert forall|i: int| 0 <= i < rest.len() implies !is_ascii_upper(#[trigger] rest[i]) by {
            assert(rest[i] == s[i + 1]);
        }
        assert forall|i: int| 0 <= i < rest.len() && #[trigger] rest[i] == '-' implies i + 1
            < rest.len() && is_ascii_lower(rest[i + 1]) by {
            assert(rest[i] == s[i + 1]);
            assert(s[i + 1] == '-');
        }
        if s[0] == '-' {
            assert(is_ascii_lower(s[1]));
            assert(rest[0] == s[1]);
            lemma_camel_then_kebab(rest, true);
            assert(seq!['-'] + rest =~= s);
        } else {
            lemma_camel_then_kebab(rest, false);
            let head = if capitalise {
                upper_char(s[0])
            } else {
                s[0]
            };
            lemma_kebab_chars_concat(seq![head], camel_from(rest, false));
            assert(seq![head].drop_last() =~= Seq::<char>::empty());
            assert(kebab_chars(Seq::<char>::empty()) =~= Seq::<char>::empty());
            if capitalise {
                assert(is_ascii_upper(head));
                assert(lower_char(head) == s[0]);
                assert(kebab_chars(seq![head]) =~= seq!['-', s[0]]);
                assert(seq!['-', s[0]] + rest =~= seq!['-'] + s);
            } else {
                assert(kebab_chars(seq![head]) =~= seq![s[0]]);
                assert(seq![s[0]] + rest =~= s);
            }
        }
    }
}

/// Camel-casing a plain property name and converting it back gives the name:
/// `to_kebab_case(to_camel_case(name)) == name`.
pub proof fn lemma_case_conversion_round_trips(name: Seq<char>)
    requires
        is_plain_property_name(name),
    ensures
        kebab_seq(camel_seq(name)) == name,
{
    if name.len() >= 2 && name[0] == '-' && name[1] == '-' {
        assert(name.contains('-'));
    } else {
        lemma_camel_has_no_hyphen(name, false);
        lemma_camel_then_kebab(name, false);
    }
}

proof fn lemma_kebab_then_camel(s: Seq<char>)
    requires
        !s.contains('-'),
    ensures
        camel_from(kebab_chars(s), false) == s,
    decreases s.len(),
{
    if s.len() > 0 {
        let rest = s.drop_first();
        assert(!rest.contains('-')) by {
            if rest.contains('-') {
                let j = choose|j: int| 0 <= j < rest.len() && rest[j] == '-';
                assert(s[j + 1] == '-');
            }
        }
        lemma_kebab_then_camel(rest);
        assert(s =~= seq![s[0]] + rest);
        lemma_kebab_chars_concat(seq![s[0]], rest);
        assert(seq![s[0]].drop_last() =~= Seq::<char>::empty());
        assert(kebab_chars(Seq::<char>::empty()) =~= Seq::<char>::empty());
        assert(s[0] != '-') by {
            assert(s[0] == s[0]);
        }
        let k = kebab_chars(rest);
        if is_ascii_upper(s[0]) {
            let piece = seq!['-', lower_char(s[0])];
            assert(kebab_chars(seq![s[0]]) =~= piece);
            let whole = piece + k;
            assert(whole.drop_first() =~= seq![lower_char(s[0])] + k);
            assert((seq![lower_char(s[0])] + k).drop_first() =~= k);
            assert(upper_char(lower_char(s[0])) == s[0]);
            assert(camel_from(whole, false) == camel_from(seq![lower_char(s[0])] + k, true));
            assert(camel_from(seq![lower_char(s[0])] + k, true) =~= seq![s[0]] + camel_from(k, false));
        } else {
            assert(kebab_chars(seq![s[0]]) =~= seq![s[0]]);
            let whole = seq![s[0]] + k;
            assert(whole.drop_first() =~= k);
            assert(camel_from(whole, false) =~= seq![s[0]] + camel_from(k, false));
        }
    }
}

/// Kebab-casing a name without hyphens and converting it back gives the
/// name: `to_camel_case(to_kebab_case(name)) == name`; and a `--custom`
/// name is kept exactly by both.
pub proof fn lemma_kebab_then_camel_round_trips(name: Seq<char>)
    ensures
        !name.contains('-') ==> camel_seq(kebab_seq(name)) == name,
        name.len() >= 2 && name[0] == '-' && name[1] == '-' ==> camel_seq(name) == name && kebab_seq(name) == name,
{
    if !name.contains('-') {
        lemma_kebab_then_camel(name);
        let k = kebab_chars(name);
        if k.len() >= 2 && k[0] == '-' && k[1] == '-' {
            // A hyphen in the kebab form is always followed by a letter.
            lemma_kebab_hyphens(name);
            assert(false);
        }
    } else if name.len() >= 2 && name[0] == '-' && name[1] == '-' {
        assert(name.contains('-')) by {
            assert(name[0] == '-');
        }
    }
}

/// In the kebab form of a name without hyphens, no hyphen is followed by
/// another.
proof fn lemma_kebab_hyphens(s: Seq<char>)
    requires
        !s.contains('-'),
    ensures
        forall|i: int| 0 <= i < kebab_chars(s).len() - 1 && #[trigger] kebab_chars(s)[i] == '-' ==> kebab_chars(s)[i + 1] != '-',
        kebab_chars(s).len() > 0 ==> kebab_chars(s).last() != '-',
    decreases s.len(),
{
    if s.len() > 0 {
        let front = s.drop_last();
        assert(!front.contains('-')) by {
            if front.contains('-') {
                let j = choose|j: int| 0 <= j < front.len() && front[j] == '-';
                assert(s[j] == '-');
            }
        }
        lemma_kebab_hyphens(front);
        let c = s.last();
        assert(c != '-') by {
            assert(s[s.len() - 1] == c);
        }
        let kf = kebab_chars(front);
        let piece = if is_ascii_upper(c) {
            seq!['-', lower_char(c)]
        } else {
            seq![c]
        };
        let k = kebab_chars(s);
        assert(k =~= kf + piece);
        assert(lower_char(c) != '-');
        assert forall|i: int| 0 <= i < k.len() - 1 && #[trigger] k[i] == '-' implies k[i + 1] != '-' by {
            if i < kf.len() - 1 {
                assert(k[i] == kf[i]);
                assert(k[i + 1] == kf[i + 1]);
            } else if i == kf.len() - 1 {
                assert(k[i] == kf.last());
            } else {
                assert(k[i] == piece[i - kf.len()]);
                assert(k[i + 1] == piece[i + 1 - kf.len()]);
            }
        }
    }
}

/// How many characters of `s` are separators at the top level.
pub open spec fn top_level_separators(s: Seq<char>, separator: char) -> nat
    decreases s.len(),
{
    if s.len() == 0 {
        0
    } else {
        top_level_separators(s.drop_last(), separator) + if separates(s, s.len() - 1, separator) {
            1nat
        } else {
            0nat
        }
    }
}

/// Splitting gives one piece more than there are top-level separators, and
/// the pieces joined with the separator give back the text.
pub proof fn lemma_split_counts_separators(s: Seq<char>, separator: char)
    ensures
        split_top_level_seq(s, separator).len() == top_level_separators(s, separator) + 1,
        join_seq(split_top_level_seq(s, separator), seq![separator]) == s,
    decreases s.len(),
{
    lemma_split_join(s, separator);
    if s.len() > 0 {
        lemma_split_counts_separators(s.drop_last(), separator);
    }
}

/// The scanner state after reading `s`, starting from `state`.
pub open spec fn scan_from(state: (nat, Option<char>), s: Seq<char>) -> (nat, Option<char>)
    decreases s.len(),
{
    if s.len() == 0 {
        state
    } else {
        scan_step(scan_from(state, s.drop_last()), s.last())
    }
}

proof fn lemma_scan_is_scan_from(s: Seq<char>)
    ensures
        scan(s) == scan_from((0nat, None::<char>), s),
    decreases s.len(),
{
    if s.len() > 0 {
        lemma_scan_is_scan_from(s.drop_last());
    }
}

proof fn lemma_scan_from_concat(state: (nat, Option<char>), a: Seq<char>, b: Seq<char>)
    ensures
        scan_from(state, a + b) == scan_from(scan_from(state, a), b),
    decreases b.len(),
{
    if b.len() == 0 {
        assert(a + b =~= a);
    } else {
        lemma_scan_from_concat(state, a, b.drop_last());
        assert((a + b).drop_last() =~= a + b.drop_last());
        assert((a + b).last() == b.last());
    }
}

/// A text the scanner leaves balanced does not change how what follows it is
/// scanned.
proof fn lemma_scan_after_balanced(a: Seq<char>, b: Seq<char>)
    requires
        scan(a) == (0nat, None::<char>),
    ensures
        scan(a + b) == scan(b),
{
    lemma_scan_is_scan_from(a);
    lemma_scan_is_scan_from(b);
    lemma_scan_is_scan_from(a + b);
    lemma_scan_from_concat((0nat, None::<char>), a, b);
}

/// No separator of `s` is at the top level.
pub open spec fn no_top_level(s: Seq<char>, separator: char) -> bool {
    forall|i: int| 0 <= i < s.len() ==> !#[trigger] separates(s, i, separator)
}

/// After a balanced prefix, a position separates exactly when it does in the
/// rest alone.
proof fn lemma_separates_after_balanced(p: Seq<char>, x: Seq<char>, i: int, separator: char)
    requires
        scan(p) == (0nat, None::<char>),
        0 <= i < x.len(),
    ensures
        separates(p + x, p.len() + i, separator) == separates(x, i, separator),
{
    assert((p + x).take(p.len() + i) =~= p + x.take(i));
    lemma_scan_after_balanced(p, x.take(i));
    assert((p + x)[p.len() + i] == x[i]);
}

/// A text without a top-level separator is a single piece.
proof fn lemma_split_single(d: Seq<char>, separator: char)
    requires
        no_top_level(d, separator),
    ensures
        split_top_level_seq(d, separator) == seq![d],
    decreases d.len(),
{
    if d.len() == 0 {
        assert(d =~= Seq::<char>::empty());
    } else {
        let front = d.drop_last();
        assert forall|i: int| 0 <= i < front.len() implies !#[trigger] separates(
            front,
            i,
            separator,
        ) by {
            assert(front.take(i) =~= d.take(i));
            assert(!separates(d, i, separator));
        }
        lemma_split_single(front, separator);
        assert(!separates(d, d.len() - 1, separator));
        assert(front.push(d.last()) =~= d);
    }
}

/// Splitting at a top-level separator that follows a balanced text splits
/// the two sides independently.
proof fn lemma_split_concat(a: Seq<char>, b: Seq<char>, separator: char)
    requires
        scan(a) == (0nat, None::<char>),
        !is_grouping(separator),
    ensures
        split_top_level_seq(a + seq![separator] + b, separator) == split_top_level_seq(
            a,
            separator,
        ) + split_top_level_seq(b, separator),
    decreases b.len(),
{
    let head = a + seq![separator];
    lemma_split_nonempty(a, separator);
    assert(scan(head) == (0nat, None::<char>)) by {
        assert(head.drop_last() =~= a);
    }
    if b.len() == 0 {
        assert(a + seq![separator] + b =~= head);
        assert(head.drop_last() =~= a);
        assert(head.take(a.len() as int) =~= a);
        assert(separates(head, head.len() - 1, separator));
        assert(split_top_level_seq(b, separator) =~= seq![Seq::<char>::empty()]);
        assert(split_top_level_seq(a, separator).push(Seq::empty()) =~= split_top_level_seq(
            a,
            separator,
        ) + seq![Seq::<char>::empty()]);
    } else {
        let whole = a + seq![separator] + b;
        lemma_split_concat(a, b.drop_last(), separator);
        lemma_split_nonempty(b.drop_last(), separator);
        assert(whole.drop_last() =~= a + seq![separator] + b.drop_last());
        assert(whole =~= head + b);
        lemma_separates_after_balanced(head, b, b.len() - 1, separator);
        let left = split_top_level_seq(a, separator);
        let right = split_top_level_seq(b.drop_last(), separator);
        if separates(b, b.len() - 1, separator) {
            assert((left + right).push(Seq::empty()) =~= left + right.push(Seq::empty()));
        } else {
            assert((left + right).update((left + right).len() - 1, (left + right).last().push(
                b.last(),
            )) =~= left + right.update(right.len() - 1, right.last().push(b.last())));
        }
    }
}

/// A declaration that reads back as itself from its own text, wherever it
/// stands in a style: a non-empty, trimmed, lower-case name that is balanced
/// and has no top-level colon, a non-empty trimmed value, and a text
/// `name: value` that is balanced and has no top-level semicolon.
pub open spec fn is_self_contained(d: (Seq<char>, Seq<char>)) -> bool {
    &&& d.0.len() > 0
    &&& d.1.len() > 0
    &&& trim_seq(d.0) == d.0
    &&& lower_seq(d.0) == d.0
    &&& trim_seq(d.1) == d.1
    &&& scan(d.0) == (0nat, None::<char>)
    &&& no_top_level(d.0, ':')
    &&& scan(declaration_text(d)) == (0nat, None::<char>)
    &&& no_top_level(declaration_text(d), ';')
}

pub open spec fn all_self_contained(ds: Seq<(Seq<char>, Seq<char>)>) -> bool {
    forall|k: int| 0 <= k < ds.len() ==> is_self_contained(#[trigger] ds[k])
}

/// A character that neither brackets nor quotes leaves the scanner balanced.
proof fn lemma_scan_plain_char(c: char)
    requires
        !is_grouping(c),
    ensures
        scan(seq![c]) == (0nat, None::<char>),
{
    let s = seq![c];
    assert(s.drop_last() =~= Seq::<char>::empty());
    assert(scan(s.drop_last()) == (0nat, None::<char>));
    assert(s.last() == c);
    assert(scan(s) == scan_step(scan(s.drop_last()), s.last()));
}

proof fn lemma_scan_space(x: Seq<char>)
    ensures
        scan(seq![' '] + x) == scan(x),
{
    lemma_scan_plain_char(' ');
    lemma_scan_after_balanced(seq![' '], x);
}

proof fn lemma_no_top_level_after_space(x: Seq<char>, separator: char)
    requires
        no_top_level(x, separator),
        separator != ' ',
    ensures
        no_top_level(seq![' '] + x, separator),
{
    let sx = seq![' '] + x;
    lemma_scan_plain_char(' ');
    assert forall|i: int| 0 <= i < sx.len() implies !#[trigger] separates(sx, i, separator) by {
        if i > 0 {
            lemma_separates_after_balanced(seq![' '], x, i - 1, separator);
        }
    }
}

proof fn lemma_trim_after_space(x: Seq<char>)
    ensures
        trim_seq(seq![' '] + x) == trim_seq(x),
{
    assert((seq![' '] + x).drop_first() =~= x);
}

/// A well-shaped declaration's text, with or without the space a
/// serialised style puts before it, reads back as the declaration.
proof fn lemma_declaration_reads_back(d: (Seq<char>, Seq<char>), spaced: bool)
    requires
        is_well_shaped(d),
    ensures
        declaration_of(if spaced {
            seq![' '] + declaration_text(d)
        } else {
            declaration_text(d)
        }) == Some(d),
{
    let name = if spaced {
        seq![' '] + d.0
    } else {
        d.0
    };
    let rest = seq![' '] + d.1;
    if spaced {
        lemma_scan_space(d.0);
        lemma_no_top_level_after_space(d.0, ':');
        lemma_trim_after_space(d.0);
    }
    let chunk = name + seq![':'] + rest;
    assert(chunk =~= if spaced {
        seq![' '] + declaration_text(d)
    } else {
        declaration_text(d)
    });
    lemma_split_concat(name, rest, ':');
    lemma_split_single(name, ':');
    lemma_split_nonempty(rest, ':');
    lemma_split_join(rest, ':');
    let parts = split_top_level_seq(chunk, ':');
    assert(parts.skip(1) =~= split_top_level_seq(rest, ':'));
    lemma_trim_after_space(d.1);
}

proof fn lemma_scan_of_join(ds: Seq<(Seq<char>, Seq<char>)>)
    requires
        all_self_contained(ds),
    ensures
        scan(serialise_seq(ds)) == (0nat, None::<char>),
    decreases ds.len(),
{
    let texts = declaration_texts(ds);
    if ds.len() == 0 {
    } else if ds.len() == 1 {
        assert(is_self_contained(ds[0]));
    } else {
        let front = ds.drop_last();
        assert(texts.drop_last() =~= declaration_texts(front));
        lemma_scan_of_join(front);
        assert(is_self_contained(ds.last())) by {
            assert(is_self_contained(ds[ds.len() - 1]));
        }
        let last = seq![' '] + declaration_text(ds.last());
        assert(serialise_seq(ds) =~= serialise_seq(front) + seq![';'] + last);
        lemma_scan_space(declaration_text(ds.last()));
        lemma_scan_after_balanced(serialise_seq(front), seq![';'] + last);
        lemma_scan_plain_char(';');
        lemma_scan_after_balanced(seq![';'], last);
        assert(serialise_seq(front) + seq![';'] + last =~= serialise_seq(front) + (seq![';']
            + last));
    }
}

/// Serialising declarations and parsing the text gives the declarations
/// back, for every list shaped as parsing shapes one: all self-contained but
/// the last, which is well shaped.
pub proof fn lemma_serialised_declarations_read_back(ds: Seq<(Seq<char>, Seq<char>)>)
    requires
        is_parsed_shape(ds),
    ensures
        declarations_seq(serialise_seq(ds)) == ds,
    decreases ds.len(),
{
    if ds.len() == 0 {
        assert(serialise_seq(ds) =~= Seq::<char>::empty());
        assert(split_top_level_seq(Seq::<char>::empty(), ';') =~= seq![Seq::<char>::empty()]);
        assert(split_top_level_seq(Seq::<char>::empty(), ':') =~= seq![Seq::<char>::empty()]);
        assert(seq![Seq::<char>::empty()].drop_last() =~= Seq::<Seq<char>>::empty());
        assert(declaration_of(Seq::<char>::empty()) is None);
        assert(seq![Seq::<char>::empty()].last() == Seq::<char>::empty());
        assert(declarations_of(seq![Seq::<char>::empty()].drop_last()) =~= Seq::<
            (Seq<char>, Seq<char>),
        >::empty());
        assert(declarations_of(seq![Seq::<char>::empty()]) =~= Seq::<(Seq<char>, Seq<char>)>::empty());
        assert(ds =~= Seq::<(Seq<char>, Seq<char>)>::empty());
    } else if ds.len() == 1 {
        assert(is_well_shaped(ds[0]));
        assert(serialise_seq(ds) == declaration_text(ds[0]));
        lemma_split_single(declaration_text(ds[0]), ';');
        lemma_declaration_reads_back(ds[0], false);
        let chunks = seq![declaration_text(ds[0])];
        assert(chunks.drop_last() =~= Seq::<Seq<char>>::empty());
        assert(declarations_of(chunks.drop_last()) =~= Seq::<(Seq<char>, Seq<char>)>::empty());
        assert(chunks.last() == declaration_text(ds[0]));
        assert(declarations_of(chunks) =~= seq![ds[0]]);
        assert(ds =~= seq![ds[0]]);
    } else {
        let front = ds.drop_last();
        assert forall|k: int| 0 <= k < front.len() implies is_self_contained(#[trigger] front[k]) by {
            assert(front[k] == ds[k]);
        }
        assert(is_self_contained(front[front.len() - 1]));
        lemma_serialised_declarations_read_back(front);
        let d = ds.last();
        assert(front.push(d) =~= ds);
        lemma_split_after_front(front, d);
        lemma_declaration_reads_back(d, true);
        let last = seq![' '] + declaration_text(d);
        let chunks = split_top_level_seq(serialise_seq(ds), ';');
        let front_chunks = split_top_level_seq(serialise_seq(front), ';');
        assert(chunks.drop_last() =~= front_chunks);
        assert(chunks.last() == last);
        assert(declarations_of(chunks) == declarations_of(front_chunks).push(d));
    }
}

/// Splitting a serialised style at `;` after self-contained declarations
/// splits off the last declaration's text, with its leading space.
proof fn lemma_split_after_front(front: Seq<(Seq<char>, Seq<char>)>, d: (Seq<char>, Seq<char>))
    requires
        front.len() > 0,
        all_self_contained(front),
        is_well_shaped(d),
    ensures
        split_top_level_seq(serialise_seq(front.push(d)), ';') == split_top_level_seq(
            serialise_seq(front),
            ';',
        ) + seq![seq![' '] + declaration_text(d)],
{
    let ds = front.push(d);
    lemma_scan_of_join(front);
    let last = seq![' '] + declaration_text(d);
    let texts = declaration_texts(ds);
    assert(texts.drop_last() =~= declaration_texts(front));
    assert(texts.last() == declaration_text(d));
    assert(serialise_seq(ds) == join_seq(texts.drop_last(), seq![';', ' ']) + seq![';', ' ']
        + texts.last());
    assert(serialise_seq(ds) =~= serialise_seq(front) + seq![';'] + last);
    lemma_split_concat(serialise_seq(front), last, ';');
    lemma_no_top_level_after_space(declaration_text(d), ';');
    lemma_split_single(last, ';');
}

proof fn lemma_values_set(ds: Seq<(Seq<char>, Seq<char>)>, name: Seq<char>, value: Seq<char>, other: Seq<char>)
    ensures
        last_value_of(values_set(ds, name, value), name) == if declares(ds, name) {
            Some(value)
        } else {
            None::<Seq<char>>
        },
        other != name ==> last_value_of(values_set(ds, name, value), other) == last_value_of(ds, other),
    decreases ds.len(),
{
    if ds.len() == 0 {
        assert(!declares(ds, name));
    } else {
        let front = ds.drop_last();
        lemma_values_set(front, name, value, other);
        assert(values_set(ds, name, value).drop_last() =~= values_set(front, name, value));
        assert(values_set(ds, name, value).last() == value_set(ds.last(), name, value));
        if ds.last().0 == name {
            assert(ds[ds.len() - 1].0 == name);
        } else {
            if declares(ds, name) {
                let k = choose|k: int| 0 <= k < ds.len() && (#[trigger] ds[k]).0 == name;
                assert(k < ds.len() - 1);
                assert(front[k] == ds[k]);
            }
            if declares(front, name) {
                let k = choose|k: int| 0 <= k < front.len() && (#[trigger] front[k]).0 == name;
                assert(ds[k] == front[k]);
            }
        }
    }
}

/// Setting a property and parsing the result gives every declaration as
/// before with the property's value set in place, or the new declaration
/// appended, and the property then reads as the value set while every other
/// property reads as before. This holds for every style when the property
/// was declared, and, when it was not, for every style whose declarations
/// are self-contained (a last value that leaves a bracket or quote open
/// would take in the appended declaration).
pub proof fn lemma_property_reads_back_what_was_set(
    text: Seq<char>,
    name: Seq<char>,
    value: Seq<char>,
    other: Seq<char>,
)
    requires
        is_self_contained((name, value)),
        declares(declarations_seq(text), name) || all_self_contained(declarations_seq(text)),
    ensures
        declarations_seq(serialise_seq(with_value(declarations_seq(text), name, value)))
            == with_value(declarations_seq(text), name, value),
        last_value_of(
            declarations_seq(serialise_seq(with_value(declarations_seq(text), name, value))),
            name,
        ) == Some(value),
        other != name ==> last_value_of(
            declarations_seq(serialise_seq(with_value(declarations_seq(text), name, value))),
            other,
        ) == last_value_of(declarations_seq(text), other),
{
    let ds = declarations_seq(text);
    lemma_declarations_shape(text);
    let written = with_value(ds, name, value);
    if declares(ds, name) {
        assert forall|k: int| 0 <= k < written.len() - 1 implies is_self_contained(#[trigger] written[k]) by {
            assert(written[k] == value_set(ds[k], name, value));
            assert(is_self_contained(ds[k]));
        }
        assert(written.last() == value_set(ds.last(), name, value));
        lemma_serialised_declarations_read_back(written);
        lemma_values_set(ds, name, value, other);
    } else {
        assert forall|k: int| 0 <= k < written.len() implies is_self_contained(#[trigger] written[k]) by {
            if k < ds.len() {
                assert(written[k] == ds[k]);
            }
        }
        lemma_serialised_declarations_read_back(written);
        assert(written.drop_last() =~= ds);
    }
}

/// Setting a property on a style that leaves no bracket or quote open reads
/// back as the value set, whether the style declared the property never,
/// once or several times.
pub proof fn lemma_balanced_style_reads_back_what_was_set(
    text: Seq<char>,
    name: Seq<char>,
    value: Seq<char>,
)
    requires
        scan(text) == (0nat, None::<char>),
        is_self_contained((name, value)),
    ensures
        last_value_of(
            declarations_seq(serialise_seq(with_value(declarations_seq(text), name, value))),
            name,
        ) == Some(value),
{
    lemma_declarations_shape(text);
    lemma_property_reads_back_what_was_set(text, name, value, name);
}

/// Parsing a style, rendering its declarations and parsing again gives the
/// same declarations, in the same order, for every style.
pub proof fn lemma_declarations_round_trip(text: Seq<char>)
    ensures
        declarations_seq(serialise_seq(declarations_seq(text))) == declarations_seq(text),
{
    lemma_declarations_shape(text);
    lemma_serialised_declarations_read_back(declarations_seq(text));
}

/// Removing a property from any style leaves exactly the other
/// declarations, in order: the property then reads as unset, and every
/// other property reads as before.
pub proof fn lemma_removed_property_reads_as_unset(text: Seq<char>, name: Seq<char>, other: Seq<char>)
    ensures
        declarations_seq(serialise_seq(without_name(declarations_seq(text), name)))
            == without_name(declarations_seq(text), name),
        last_value_of(declarations_seq(serialise_seq(without_name(declarations_seq(text), name))), name)
            is None,
        other != name ==> last_value_of(
            declarations_seq(serialise_seq(without_name(declarations_seq(text), name))),
            other,
        ) == last_value_of(declarations_seq(text), other),
{
    let ds = declarations_seq(text);
    lemma_declarations_shape(text);
    lemma_without_name_shape(ds, name);
    lemma_without_name(ds, name, other);
    lemma_serialised_declarations_read_back(without_name(ds, name));
}

/// Removing a property twice from any style gives what removing it once
/// gives.
pub proof fn lemma_removing_twice_is_removing_once(text: Seq<char>, name: Seq<char>)
    ensures
        serialise_seq(
            without_name(
                declarations_seq(serialise_seq(without_name(declarations_seq(text), name))),
                name,
            ),
        ) == serialise_seq(without_name(declarations_seq(text), name)),
{
    let ds = declarations_seq(text);
    lemma_removed_property_reads_as_unset(text, name, name);
    lemma_without_name_twice(ds, name);
}

proof fn lemma_without_name_twice(ds: Seq<(Seq<char>, Seq<char>)>, name: Seq<char>)
    ensures
        without_name(without_name(ds, name), name) == without_name(ds, name),
    decreases ds.len(),
{
    if ds.len() > 0 {
        let front = ds.drop_last();
        lemma_without_name_twice(front, name);
        if ds.last().0 != name {
            let kept = without_name(front, name).push(ds.last());
            assert(kept.drop_last() =~= without_name(front, name));
        }
    }
}

proof fn lemma_without_name(ds: Seq<(Seq<char>, Seq<char>)>, name: Seq<char>, other: Seq<char>)
    ensures
        last_value_of(without_name(ds, name), name) is None,
        other != name ==> last_value_of(without_name(ds, name), other) == last_value_of(ds, other),
    decreases ds.len(),
{
    if ds.len() > 0 {
        let front = ds.drop_last();
        lemma_without_name(front, name, other);
        if ds.last().0 != name {
            let kept = without_name(front, name).push(ds.last());
            assert(kept.drop_last() =~= without_name(front, name));
        }
    }
}

proof fn lemma_without_name_contained(ds: Seq<(Seq<char>, Seq<char>)>, name: Seq<char>)
    requires
        all_self_contained(ds),
    ensures
        all_self_contained(without_name(ds, name)),
    decreases ds.len(),
{
    if ds.len() > 0 {
        let front = ds.drop_last();
        assert forall|k: int| 0 <= k < front.len() implies is_self_contained(#[trigger] front[k]) by {
            assert(front[k] == ds[k]);
        }
        lemma_without_name_contained(front, name);
        assert(is_self_contained(ds.last())) by {
            assert(is_self_contained(ds[ds.len() - 1]));
        }
        if ds.last().0 != name {
            let kept = without_name(front, name).push(ds.last());
            assert(kept.drop_last() =~= without_name(front, name));
            assert forall|k: int| 0 <= k < kept.len() implies is_self_contained(#[trigger] kept[k]) by {
                if k < kept.len() - 1 {
                    assert(kept[k] == without_name(front, name)[k]);
                }
            }
        }
    }
}

/// Removing declarations keeps a parsed style's shape.
proof fn lemma_without_name_shape(ds: Seq<(Seq<char>, Seq<char>)>, name: Seq<char>)
    requires
        is_parsed_shape(ds),
    ensures
        is_parsed_shape(without_name(ds, name)),
{
    if ds.len() > 0 {
        let front = ds.drop_last();
        assert forall|k: int| 0 <= k < front.len() implies is_self_contained(#[trigger] front[k]) by {
            assert(front[k] == ds[k]);
        }
        lemma_without_name_contained(front, name);
        let rest = without_name(front, name);
        if ds.last().0 != name {
            let kept = rest.push(ds.last());
            assert forall|k: int| 0 <= k < kept.len() - 1 implies is_self_contained(#[trigger] kept[k]) by {
                assert(kept[k] == rest[k]);
            }
        } else if rest.len() > 0 {
            assert(is_self_contained(rest[rest.len() - 1]));
        }
    }
}

/// A character that is neither a bracket nor a quote leaves the scanner
/// state as it was, unless a quote is open and it closes it.
proof fn lemma_scan_step_plain(state: (nat, Option<char>), c: char)
    requires
        !is_grouping(c),
        state.1 matches Some(q) ==> q == '"' || q == '\'',
    ensures
        scan_step(state, c) == state,
{
}

/// An open quote is always a quote character.
proof fn lemma_scan_quote(s: Seq<char>)
    ensures
        scan(s).1 matches Some(q) ==> q == '"' || q == '\'',
    decreases s.len(),
{
    if s.len() > 0 {
        lemma_scan_quote(s.drop_last());
    }
}

proof fn lemma_white_space_is_plain(c: char)
    requires
        is_white_space(c),
    ensures
        !is_grouping(c),
{
}

/// Leading and trailing white space does not change the scanner state.
proof fn lemma_scan_trim(x: Seq<char>)
    ensures
        scan(trim_seq(x)) == scan(x),
{
    lemma_scan_trim_start(x);
    lemma_scan_trim_end(trim_start_seq(x));
}

proof fn lemma_scan_trim_start(x: Seq<char>)
    ensures
        scan(trim_start_seq(x)) == scan(x),
    decreases x.len(),
{
    if x.len() > 0 && is_white_space(x[0]) {
        lemma_scan_trim_start(x.drop_first());
        lemma_white_space_is_plain(x[0]);
        lemma_scan_plain_char(x[0]);
        lemma_scan_after_balanced(seq![x[0]], x.drop_first());
        assert(seq![x[0]] + x.drop_first() =~= x);
    }
}

proof fn lemma_scan_trim_end(x: Seq<char>)
    ensures
        scan(trim_end_seq(x)) == scan(x),
    decreases x.len(),
{
    if x.len() > 0 && is_white_space(x.last()) {
        lemma_scan_trim_end(x.drop_last());
        lemma_white_space_is_plain(x.last());
        lemma_scan_quote(x.drop_last());
        lemma_scan_step_plain(scan(x.drop_last()), x.last());
    }
}

/// Separators at the top level of `x.drop_last()` are those of `x` but for
/// its last position.
proof fn lemma_separates_prefix(x: Seq<char>, y: Seq<char>, i: int, separator: char)
    requires
        0 <= i < x.len(),
        x.len() <= y.len(),
        x == y.take(x.len() as int),
    ensures
        separates(x, i, separator) == separates(y, i, separator),
{
    assert(x.take(i) =~= y.take(i));
    assert(x[i] == y[i]);
}

proof fn lemma_no_top_level_trim(x: Seq<char>, separator: char)
    requires
        no_top_level(x, separator),
    ensures
        no_top_level(trim_seq(x), separator),
{
    lemma_no_top_level_trim_start(x, separator);
    lemma_no_top_level_trim_end(trim_start_seq(x), separator);
}

proof fn lemma_no_top_level_trim_start(x: Seq<char>, separator: char)
    requires
        no_top_level(x, separator),
    ensures
        no_top_level(trim_start_seq(x), separator),
    decreases x.len(),
{
    if x.len() > 0 && is_white_space(x[0]) {
        let rest = x.drop_first();
        lemma_white_space_is_plain(x[0]);
        lemma_scan_plain_char(x[0]);
        assert(seq![x[0]] + rest =~= x);
        assert forall|i: int| 0 <= i < rest.len() implies !#[trigger] separates(rest, i, separator) by {
            lemma_separates_after_balanced(seq![x[0]], rest, i, separator);
            assert(!separates(x, i + 1, separator));
        }
        lemma_no_top_level_trim_start(rest, separator);
    }
}

proof fn lemma_no_top_level_trim_end(x: Seq<char>, separator: char)
    requires
        no_top_level(x, separator),
    ensures
        no_top_level(trim_end_seq(x), separator),
    decreases x.len(),
{
    if x.len() > 0 && is_white_space(x.last()) {
        let front = x.drop_last();
        assert forall|i: int| 0 <= i < front.len() implies !#[trigger] separates(front, i, separator) by {
            lemma_separates_prefix(front, x, i, separator);
            assert(!separates(x, i, separator));
        }
        lemma_no_top_level_trim_end(front, separator);
    }
}

/// Lower-casing does not change the scanner state.
proof fn lemma_scan_lower(x: Seq<char>)
    ensures
        scan(lower_seq(x)) == scan(x),
    decreases x.len(),
{
    if x.len() > 0 {
        lemma_scan_lower(x.drop_last());
        assert(lower_seq(x).drop_last() =~= lower_seq(x.drop_last()));
        assert(lower_seq(x).last() == lower_char(x.last()));
        lemma_scan_quote(x.drop_last());
        let c = x.last();
        if !is_grouping(c) {
            lemma_scan_step_plain(scan(x.drop_last()), c);
            lemma_scan_step_plain(scan(x.drop_last()), lower_char(c));
        }
    }
}

proof fn lemma_no_top_level_lower(x: Seq<char>, separator: char)
    requires
        no_top_level(x, separator),
        !('a' <= separator && separator <= 'z'),
    ensures
        no_top_level(lower_seq(x), separator),
{
    let l = lower_seq(x);
    assert forall|i: int| 0 <= i < l.len() implies !#[trigger] separates(l, i, separator) by {
        assert(l.take(i) =~= lower_seq(x.take(i)));
        lemma_scan_lower(x.take(i));
        assert(!separates(x, i, separator));
        assert(l[i] == lower_char(x[i]));
        if l[i] == separator {
            assert(x[i] == separator);
        }
    }
}

/// A trimmed text is empty or starts and ends with something other than
/// white space.
proof fn lemma_trim_ends(x: Seq<char>)
    ensures
        trim_seq(x).len() == 0 || (!is_white_space(trim_seq(x)[0]) && !is_white_space(trim_seq(x).last())),
{
    lemma_trim_start_ends(x);
    lemma_trim_end_ends(trim_start_seq(x));
}

proof fn lemma_trim_start_ends(x: Seq<char>)
    ensures
        trim_start_seq(x).len() == 0 || !is_white_space(trim_start_seq(x)[0]),
    decreases x.len(),
{
    if x.len() > 0 && is_white_space(x[0]) {
        lemma_trim_start_ends(x.drop_first());
    }
}

proof fn lemma_trim_end_ends(x: Seq<char>)
    ensures
        trim_end_seq(x).len() == 0 || (!is_white_space(trim_end_seq(x).last()) && trim_end_seq(x)[0]
            == x[0]),
    decreases x.len(),
{
    if x.len() > 0 && is_white_space(x.last()) {
        lemma_trim_end_ends(x.drop_last());
    }
}

/// A text that is empty or starts and ends with something other than white
/// space is its own trim.
proof fn lemma_trim_fixed(x: Seq<char>)
    requires
        x.len() == 0 || (!is_white_space(x[0]) && !is_white_space(x.last())),
    ensures
        trim_seq(x) == x,
{
}

/// The name a chunk reads as is its own trim and lower-casing.
proof fn lemma_name_normal(x: Seq<char>)
    ensures
        trim_seq(lower_seq(trim_seq(x))) == lower_seq(trim_seq(x)),
        lower_seq(lower_seq(trim_seq(x))) == lower_seq(trim_seq(x)),
{
    let t = trim_seq(x);
    lemma_trim_ends(x);
    let l = lower_seq(t);
    if t.len() > 0 {
        assert(l[0] == lower_char(t[0]));
        assert(l.last() == lower_char(t.last()));
    }
    lemma_trim_fixed(l);
    assert(lower_seq(l) =~= l);
}

/// The pieces of a split: each but the last is balanced and holds no
/// top-level separator; the last holds none either and ends in the state the
/// whole text ends in.
proof fn lemma_split_pieces(s: Seq<char>, separator: char)
    requires
        !is_grouping(separator),
    ensures
        forall|k: int|
            0 <= k < split_top_level_seq(s, separator).len() - 1 ==> scan(
                #[trigger] split_top_level_seq(s, separator)[k],
            ) == (0nat, None::<char>),
        forall|k: int|
            0 <= k < split_top_level_seq(s, separator).len() ==> no_top_level(
                #[trigger] split_top_level_seq(s, separator)[k],
                separator,
            ),
        scan(split_top_level_seq(s, separator).last()) == scan(s),
    decreases s.len(),
{
    lemma_split_nonempty(s, separator);
    if s.len() == 0 {
        let parts = split_top_level_seq(s, separator);
        assert(parts =~= seq![Seq::<char>::empty()]);
        assert(no_top_level(Seq::<char>::empty(), separator));
    } else {
        let front = s.drop_last();
        lemma_split_pieces(front, separator);
        lemma_split_nonempty(front, separator);
        let prev = split_top_level_seq(front, separator);
        let parts = split_top_level_seq(s, separator);
        let c = s.last();
        assert(s.take(s.len() - 1) =~= front);
        lemma_scan_quote(front);
        if separates(s, s.len() - 1, separator) {
            assert(parts == prev.push(Seq::empty()));
            assert(scan(prev.last()) == (0nat, None::<char>));
            lemma_scan_step_plain(scan(front), c);
            assert forall|k: int| 0 <= k < parts.len() - 1 implies scan(#[trigger] parts[k]) == (
                0nat,
                None::<char>,
            ) by {
                assert(parts[k] == prev[k]);
            }
            assert forall|k: int| 0 <= k < parts.len() implies no_top_level(#[trigger] parts[k], separator) by {
                if k < prev.len() {
                    assert(parts[k] == prev[k]);
                } else {
                    assert(parts[k] =~= Seq::<char>::empty());
                }
            }
            assert(parts.last() =~= Seq::<char>::empty());
        } else {
            let last = prev.last();
            let new_last = last.push(c);
            assert(parts == prev.update(prev.len() - 1, new_last));
            assert(new_last.drop_last() =~= last);
            assert(scan(new_last) == scan_step(scan(last), c));
            assert forall|k: int| 0 <= k < parts.len() - 1 implies scan(#[trigger] parts[k]) == (
                0nat,
                None::<char>,
            ) by {
                assert(parts[k] == prev[k]);
            }
            assert(no_top_level(last, separator)) by {
                assert(last == prev[prev.len() - 1]);
            }
            assert forall|i: int| 0 <= i < new_last.len() implies !#[trigger] separates(
                new_last,
                i,
                separator,
            ) by {
                if i < last.len() {
                    lemma_separates_prefix(last, new_last, i, separator);
                    assert(!separates(last, i, separator));
                } else {
                    assert(new_last.take(i) =~= last);
                    assert(new_last[i] == c);
                }
            }
            assert forall|k: int| 0 <= k < parts.len() implies no_top_level(#[trigger] parts[k], separator) by {
                if k < parts.len() - 1 {
                    assert(parts[k] == prev[k]);
                } else {
                    assert(parts[k] == new_last);
                }
            }
        }
    }
}

/// A declaration that reads back as itself from its own text when it comes
/// last in a style: like a self-contained one, but its value may leave a
/// bracket or quote open.
pub open spec fn is_well_shaped(d: (Seq<char>, Seq<char>)) -> bool {
    &&& d.0.len() > 0
    &&& d.1.len() > 0
    &&& trim_seq(d.0) == d.0
    &&& lower_seq(d.0) == d.0
    &&& trim_seq(d.1) == d.1
    &&& scan(d.0) == (0nat, None::<char>)
    &&& no_top_level(d.0, ':')
    &&& no_top_level(declaration_text(d), ';')
}

/// The text `name: value` holds no top-level `;` when the name and the value
/// hold none and the name is balanced.
proof fn lemma_text_has_no_semicolon(d: (Seq<char>, Seq<char>))
    requires
        scan(d.0) == (0nat, None::<char>),
        no_top_level(d.0, ';'),
        no_top_level(d.1, ';'),
    ensures
        no_top_level(declaration_text(d), ';'),
        scan(declaration_text(d)) == scan(d.1),
{
    let head = d.0 + seq![':', ' '];
    let t = declaration_text(d);
    assert(t =~= head + d.1);
    lemma_scan_plain_char(':');
    lemma_scan_plain_char(' ');
    lemma_scan_after_balanced(d.0, seq![':']);
    lemma_scan_after_balanced(d.0 + seq![':'], seq![' ']);
    assert(d.0 + seq![':'] + seq![' '] =~= head);
    assert(scan(head) == (0nat, None::<char>));
    lemma_scan_after_balanced(head, d.1);
    assert forall|i: int| 0 <= i < t.len() implies !#[trigger] separates(t, i, ';') by {
        if i < d.0.len() {
            assert(t.take(d.0.len() as int) =~= d.0);
            lemma_separates_prefix(d.0, t, i, ';');
            assert(!separates(d.0, i, ';'));
        } else if i < head.len() {
            assert(t[i] == head[i]);
        } else {
            lemma_separates_after_balanced(head, d.1, i - head.len(), ';');
            assert(!separates(d.1, i - head.len(), ';'));
        }
    }
}

/// The declaration a chunk without a top-level `;` holds is well shaped, and
/// self-contained when the chunk is balanced.
proof fn lemma_chunk_declaration(chunk: Seq<char>)
    requires
        no_top_level(chunk, ';'),
        declaration_of(chunk) is Some,
    ensures
        is_well_shaped(declaration_of(chunk)->0),
        scan(chunk) == (0nat, None::<char>) ==> is_self_contained(declaration_of(chunk)->0),
{
    let parts = split_top_level_seq(chunk, ':');
    let raw_name = parts[0];
    let raw_value = join_seq(parts.skip(1), seq![':']);
    lemma_split_once_rejoins(chunk, ':');
    assert(raw_name + seq![':'] + raw_value == chunk);
    lemma_split_pieces(chunk, ':');
    assert(scan(raw_name) == (0nat, None::<char>));
    assert(no_top_level(raw_name, ':'));
    let head = raw_name + seq![':'];
    lemma_scan_plain_char(':');
    lemma_scan_after_balanced(raw_name, seq![':']);
    assert(chunk =~= head + raw_value);
    lemma_scan_after_balanced(head, raw_value);
    assert forall|i: int| 0 <= i < raw_name.len() implies !#[trigger] separates(raw_name, i, ';') by {
        assert(chunk.take(raw_name.len() as int) =~= raw_name);
        lemma_separates_prefix(raw_name, chunk, i, ';');
        assert(!separates(chunk, i, ';'));
    }
    assert forall|i: int| 0 <= i < raw_value.len() implies !#[trigger] separates(raw_value, i, ';') by {
        lemma_separates_after_balanced(head, raw_value, i, ';');
        assert(!separates(chunk, head.len() + i, ';'));
    }
    let name = lower_seq(trim_seq(raw_name));
    let value = trim_seq(raw_value);
    lemma_scan_trim(raw_name);
    lemma_scan_lower(trim_seq(raw_name));
    lemma_no_top_level_trim(raw_name, ':');
    lemma_no_top_level_lower(trim_seq(raw_name), ':');
    lemma_no_top_level_trim(raw_name, ';');
    lemma_no_top_level_lower(trim_seq(raw_name), ';');
    lemma_name_normal(raw_name);
    lemma_trim_ends(raw_value);
    lemma_trim_fixed(value);
    lemma_no_top_level_trim(raw_value, ';');
    lemma_scan_trim(raw_value);
    let d = (name, value);
    assert(declaration_of(chunk) == Some(d));
    lemma_text_has_no_semicolon(d);
}

/// What a style's declarations are like: every one but the last is
/// self-contained, and the last is well shaped.
pub open spec fn is_parsed_shape(ds: Seq<(Seq<char>, Seq<char>)>) -> bool {
    &&& forall|k: int| 0 <= k < ds.len() - 1 ==> is_self_contained(#[trigger] ds[k])
    &&& ds.len() > 0 ==> is_well_shaped(ds.last())
}

proof fn lemma_declarations_of_shape(chunks: Seq<Seq<char>>)
    requires
        forall|k: int| 0 <= k < chunks.len() ==> no_top_level(#[trigger] chunks[k], ';'),
    ensures
        forall|k: int| 0 <= k < declarations_of(chunks).len() ==> is_well_shaped(#[trigger] declarations_of(chunks)[k]),
        (forall|k: int| 0 <= k < chunks.len() ==> scan(#[trigger] chunks[k]) == (0nat, None::<char>))
            ==> all_self_contained(declarations_of(chunks)),
    decreases chunks.len(),
{
    if chunks.len() > 0 {
        let front = chunks.drop_last();
        assert forall|k: int| 0 <= k < front.len() implies no_top_level(#[trigger] front[k], ';') by {
            assert(front[k] == chunks[k]);
        }
        lemma_declarations_of_shape(front);
        let earlier = declarations_of(front);
        assert(no_top_level(chunks.last(), ';')) by {
            assert(chunks.last() == chunks[chunks.len() - 1]);
        }
        if (forall|k: int| 0 <= k < chunks.len() ==> scan(#[trigger] chunks[k]) == (0nat, None::<char>)) {
            assert forall|k: int| 0 <= k < front.len() implies scan(#[trigger] front[k]) == (0nat, None::<char>) by {
                assert(front[k] == chunks[k]);
            }
            assert(scan(chunks.last()) == (0nat, None::<char>)) by {
                assert(chunks.last() == chunks[chunks.len() - 1]);
            }
        }
        match declaration_of(chunks.last()) {
            Some(d) => {
                lemma_chunk_declaration(chunks.last());
                let now = earlier.push(d);
                assert forall|k: int| 0 <= k < now.len() implies is_well_shaped(#[trigger] now[k]) by {
                    if k < earlier.len() {
                        assert(now[k] == earlier[k]);
                    }
                }
                if (forall|k: int| 0 <= k < chunks.len() ==> scan(#[trigger] chunks[k]) == (0nat, None::<char>)) {
                    assert forall|k: int| 0 <= k < now.len() implies is_self_contained(#[trigger] now[k]) by {
                        if k < earlier.len() {
                            assert(now[k] == earlier[k]);
                        }
                    }
                }
            },
            None => {},
        }
    }
}

/// The declarations of every style are shaped as [`is_parsed_shape`] says,
/// and all self-contained when the style leaves no bracket or quote open.
pub proof fn lemma_declarations_shape(text: Seq<char>)
    ensures
        is_parsed_shape(declarations_seq(text)),
        scan(text) == (0nat, None::<char>) ==> all_self_contained(declarations_seq(text)),
{
    let chunks = split_top_level_seq(text, ';');
    lemma_split_pieces(text, ';');
    lemma_split_nonempty(text, ';');
    let front = chunks.drop_last();
    assert forall|k: int| 0 <= k < front.len() implies no_top_level(#[trigger] front[k], ';') && scan(front[k])
        == (0nat, None::<char>) by {
        assert(front[k] == chunks[k]);
    }
    lemma_declarations_of_shape(front);
    lemma_declarations_of_shape(chunks);
    let earlier = declarations_of(front);
    let ds = declarations_seq(text);
    assert(chunks.last() == chunks[chunks.len() - 1]);
    if scan(text) == (0nat, None::<char>) {
        assert forall|k: int| 0 <= k < chunks.len() implies scan(#[trigger] chunks[k]) == (0nat, None::<char>) by {
            if k == chunks.len() - 1 {
                assert(chunks[k] == chunks.last());
            }
        }
    }
    match declaration_of(chunks.last()) {
        Some(d) => {
            assert(ds == earlier.push(d));
            assert forall|k: int| 0 <= k < ds.len() - 1 implies is_self_contained(#[trigger] ds[k]) by {
                assert(ds[k] == earlier[k]);
            }
            assert(is_well_shaped(ds[ds.len() - 1]));
        },
        None => {
            assert(ds == earlier);
            if ds.len() > 0 {
                assert(is_well_shaped(ds[ds.len() - 1]));
            }
        },
    }
}

} // verus!
