//! `element.classList`: the class attribute as a list of tokens, and the
//! operations scripts perform on it.
//!
//! The attribute is read into tokens, changed, and written back joined by
//! single spaces.
use vstd::prelude::*;

use crate::chars::{push_char, str_equal};
use crate::inline_style::{join_from, join_seq, views};

verus! {

/// The characters `split_ascii_whitespace` splits on.
pub open spec fn is_ascii_white_space(c: char) -> bool {
    c == ' ' || c == '\t' || c == '\n' || c == '\u{c}' || c == '\r'
}

/// The tokens found so far in `s`, and the token being read at its end.
pub open spec fn token_scan(s: Seq<char>) -> (Seq<Seq<char>>, Seq<char>)
    decreases s.len(),
{
    if s.len() == 0 {
        (Seq::empty(), Seq::empty())
    } else {
        let (tokens, current) = token_scan(s.subrange(0, s.len() - 1));
        let c = s[s.len() - 1];
        if is_ascii_white_space(c) {
            if current.len() > 0 {
                (tokens.push(current), Seq::empty())
            } else {
                (tokens, Seq::empty())
            }
        } else {
            (tokens, current.push(c))
        }
    }
}

/// The maximal runs of characters other than ASCII white space in `s`.
pub open spec fn tokens_of(s: Seq<char>) -> Seq<Seq<char>> {
    let (tokens, current) = token_scan(s);
    if current.len() > 0 {
        tokens.push(current)
    } else {
        tokens
    }
}

fn is_ascii_white_space_char(c: char) -> (r: bool)
    ensures
        r == is_ascii_white_space(c),
{
    c == ' ' || c == '\t' || c == '\n' || c == '\u{c}' || c == '\r'
}

/// The class names in a `class` attribute.
pub fn class_tokens(value: &str) -> (r: Vec<String>)
    ensures
        views(r@) == tokens_of(value@),
{
    let n = value.unicode_len();
    let mut out: Vec<String> = Vec::new();
    let mut current = String::new();
    let mut i: usize = 0;
    while i < n
        invariant
            n == value@.len(),
            i <= n,
            (views(out@), current@) == token_scan(value@.subrange(0, i as int)),
        decreases n - i,
    {
        let c = value.get_char(i);
        proof {
            assert(value@.subrange(0, i + 1).subrange(0, i as int) =~= value@.subrange(0, i as int));
        }
        if is_ascii_white_space_char(c) {
            if current.unicode_len() > 0 {
                let ghost before = out@;
                out.push(current);
                assert(views(out@) =~= views(before).push(current@));
                current = String::new();
            }
        } else {
            push_char(&mut current, c);
        }
        i = i + 1;
    }
    assert(value@.subrange(0, n as int) =~= value@);
    if current.unicode_len() > 0 {
        let ghost before = out@;
        out.push(current);
        assert(views(out@) =~= views(before).push(current@));
    }
    out
}

/// The `class` attribute for `classes`: the names joined by single spaces.
pub fn class_value(classes: &Vec<String>) -> (r: String)
    ensures
        r@ == join_seq(views(classes@), seq![' ']),
{
    let r = join_from(classes, 0, ' ');
    assert(views(classes@).skip(0) =~= views(classes@));
    r
}

/// Is `name` one of `classes`?
pub fn class_list_contains(classes: &Vec<String>, name: &str) -> (r: bool)
    ensures
        r == views(classes@).contains(name@),
{
    let mut i: usize = 0;
    while i < classes.len()
        invariant
            i <= classes@.len(),
            forall|k: int| 0 <= k < i ==> classes@[k]@ != name@,
        decreases classes@.len() - i,
    {
        if str_equal(classes[i].as_str(), name) {
            assert(views(classes@)[i as int] == name@);
            return true;
        }
        i = i + 1;
    }
    assert forall|k: int| 0 <= k < views(classes@).len() implies views(classes@)[k] != name@ by {
        assert(views(classes@)[k] == classes@[k]@);
    }
    false
}

/// `classes` after `add(names...)`: each name that is not empty and not yet
/// present is appended, in order.
pub open spec fn added(classes: Seq<Seq<char>>, names: Seq<Seq<char>>) -> Seq<Seq<char>>
    decreases names.len(),
{
    if names.len() == 0 {
        classes
    } else {
        let prev = added(classes, names.subrange(0, names.len() - 1));
        let name = names[names.len() - 1];
        if name.len() > 0 && !prev.contains(name) {
            prev.push(name)
        } else {
            prev
        }
    }
}

/// `classList.add(names...)`.
pub fn class_list_add(classes: &mut Vec<String>, names: &Vec<String>)
    ensures
        views(final(classes)@) == added(views(old(classes)@), views(names@)),
{
    let ghost start = views(classes@);
    let mut i: usize = 0;
    while i < names.len()
        invariant
            i <= names@.len(),
            views(classes@) == added(start, views(names@).subrange(0, i as int)),
        decreases names@.len() - i,
    {
        proof {
            let done = views(names@).subrange(0, i + 1);
            assert(done.subrange(0, i as int) =~= views(names@).subrange(0, i as int));
            assert(done[i as int] == names@[i as int]@);
        }
        let name = &names[i];
        if name.unicode_len() > 0 && !class_list_contains(classes, name.as_str()) {
            let ghost before = classes@;
            classes.push(name.clone());
            assert(views(classes@) =~= views(before).push(name@));
        }
        i = i + 1;
    }
    assert(views(names@).subrange(0, i as int) =~= views(names@));
}

/// `classes` without any of `names`.
pub open spec fn kept(classes: Seq<Seq<char>>, names: Seq<Seq<char>>) -> Seq<Seq<char>>
    decreases classes.len(),
{
    if classes.len() == 0 {
        classes
    } else {
        let prev = kept(classes.subrange(0, classes.len() - 1), names);
        let class = classes[classes.len() - 1];
        if names.contains(class) {
            prev
        } else {
            prev.push(class)
        }
    }
}

/// `classList.remove(names...)`: every class equal to one of `names` goes,
/// the others keep their order.
pub fn class_list_remove(classes: &mut Vec<String>, names: &Vec<String>)
    ensures
        views(final(classes)@) == kept(views(old(classes)@), views(names@)),
{
    let ghost start = views(classes@);
    let mut out: Vec<String> = Vec::new();
    let mut i: usize = 0;
    while i < classes.len()
        invariant
            i <= classes@.len(),
            start == views(classes@),
            views(out@) == kept(start.subrange(0, i as int), views(names@)),
        decreases classes@.len() - i,
    {
        proof {
            let done = start.subrange(0, i + 1);
            assert(done.subrange(0, i as int) =~= start.subrange(0, i as int));
            assert(done[i as int] == classes@[i as int]@);
        }
        if !class_list_contains(names, classes[i].as_str()) {
            let ghost before = out@;
            out.push(classes[i].clone());
            assert(views(out@) =~= views(before).push(classes@[i as int]@));
        }
        i = i + 1;
    }
    assert(start.subrange(0, i as int) =~= start);
    *classes = out;
}

/// `classList.toggle(name, force)`: adds `name` when it is wanted and
/// absent, removes every copy when it is present and not wanted, and says
/// whether it is wanted: `force` when given, else whether it was absent. An
/// empty name changes nothing and gives false.
pub fn class_list_toggle(classes: &mut Vec<String>, name: &str, force: Option<bool>) -> (r: bool)
    ensures
        name@.len() == 0 ==> !r && final(classes)@ == old(classes)@,
        name@.len() > 0 ==> r == match force {
            Some(f) => f,
            None => !views(old(classes)@).contains(name@),
        },
        name@.len() > 0 ==> views(final(classes)@) == if r && !views(old(classes)@).contains(name@) {
            views(old(classes)@).push(name@)
        } else if !r && views(old(classes)@).contains(name@) {
            kept(views(old(classes)@), seq![name@])
        } else {
            views(old(classes)@)
        },
        name@.len() > 0 ==> views(final(classes)@).contains(name@) == r,
{
    if name.unicode_len() == 0 {
        return false;
    }
    let present = class_list_contains(classes, name);
    let wanted = match force {
        Some(f) => f,
        None => !present,
    };
    if wanted && !present {
        let ghost before = classes@;
        classes.push(name.to_owned());
        assert(views(classes@) =~= views(before).push(name@));
    } else if !wanted && present {
        let mut names: Vec<String> = Vec::new();
        names.push(name.to_owned());
        assert(views(names@) =~= seq![name@]);
        class_list_remove(classes, &names);
        proof {
            lemma_removed_names_are_absent(views(old(classes)@), seq![name@]);
            assert(seq![name@].contains(name@)) by {
                assert(seq![name@][0] == name@);
            }
        }
    } else {
        proof {
            let v = views(classes@);
            if wanted {
                assert(v.contains(name@));
            }
        }
    }
    proof {
        if wanted && !present {
            assert(views(classes@)[views(classes@).len() - 1] == name@);
        }
    }
    wanted
}

/// `classes` with every `stale` replaced by `fresh`.
pub open spec fn replaced(classes: Seq<Seq<char>>, stale: Seq<char>, fresh: Seq<char>) -> Seq<Seq<char>> {
    classes.map_values(|c: Seq<char>| if c == stale { fresh } else { c })
}

/// `classList.replace(stale, fresh)`: replaces every `stale` by `fresh` and
/// says whether there was one.
pub fn class_list_replace(classes: &mut Vec<String>, stale: &str, fresh: &str) -> (r: bool)
    ensures
        r == views(old(classes)@).contains(stale@),
        views(final(classes)@) == replaced(views(old(classes)@), stale@, fresh@),
{
    let ghost start = views(classes@);
    let mut out: Vec<String> = Vec::new();
    let mut found = false;
    let mut i: usize = 0;
    while i < classes.len()
        invariant
            i <= classes@.len(),
            start == views(classes@),
            views(out@) == replaced(start.subrange(0, i as int), stale@, fresh@),
            found == (exists|k: int| 0 <= k < i && #[trigger] start[k] == stale@),
        decreases classes@.len() - i,
    {
        let ghost before = out@;
        proof {
            assert(start[i as int] == classes@[i as int]@);
        }
        if str_equal(classes[i].as_str(), stale) {
            out.push(fresh.to_owned());
            found = true;
        } else {
            out.push(classes[i].clone());
        }
        assert(views(out@) =~= views(before).push(out@[i as int]@));
        assert(replaced(start.subrange(0, i + 1), stale@, fresh@) =~= replaced(
            start.subrange(0, i as int),
            stale@,
            fresh@,
        ).push(if start[i as int] == stale@ { fresh@ } else { start[i as int] }));
        i = i + 1;
    }
    assert(start.subrange(0, i as int) =~= start);
    proof {
        if found {
            let k = choose|k: int| 0 <= k < i && #[trigger] start[k] == stale@;
            assert(start[k] == stale@);
        }
    }
    *classes = out;
    found
}

/// A class name as the attribute can hold it: not empty, and without ASCII
/// white space.
pub open spec fn is_class_name(name: Seq<char>) -> bool {
    name.len() > 0 && forall|i: int| 0 <= i < name.len() ==> !is_ascii_white_space(#[trigger] name[i])
}

proof fn lemma_scan_word(x: Seq<char>, y: Seq<char>)
    requires
        forall|i: int| 0 <= i < y.len() ==> !is_ascii_white_space(#[trigger] y[i]),
    ensures
        token_scan(x + y) == (token_scan(x).0, token_scan(x).1 + y),
    decreases y.len(),
{
    if y.len() == 0 {
        assert(x + y =~= x);
        assert(token_scan(x).1 + y =~= token_scan(x).1);
    } else {
        let y0 = y.subrange(0, y.len() - 1);
        lemma_scan_word(x, y0);
        assert((x + y).subrange(0, (x + y).len() - 1) =~= x + y0);
        assert((x + y)[(x + y).len() - 1] == y[y.len() - 1]);
        assert((token_scan(x).1 + y0).push(y[y.len() - 1]) =~= token_scan(x).1 + y);
    }
}

/// The tokens of the `class` attribute written for a list of class names
/// are those names: writing the list and reading it back gives it again.
pub proof fn lemma_class_value_reads_back(names: Seq<Seq<char>>)
    requires
        forall|k: int| 0 <= k < names.len() ==> is_class_name(#[trigger] names[k]),
    ensures
        tokens_of(join_seq(names, seq![' '])) == names,
    decreases names.len(),
{
    if names.len() == 1 {
        lemma_scan_word(Seq::empty(), names[0]);
        assert(Seq::<char>::empty() + names[0] =~= names[0]);
        assert(Seq::<char>::empty() + names[0] =~= names[0]);
        assert(seq![names[0]] =~= names);
        assert(token_scan(Seq::<char>::empty()).1 + names[0] =~= names[0]);
    } else if names.len() > 1 {
        let prev = names.drop_last();
        assert forall|k: int| 0 <= k < prev.len() implies is_class_name(#[trigger] prev[k]) by {
            assert(prev[k] == names[k]);
        }
        lemma_class_value_reads_back(prev);
        let head = join_seq(prev, seq![' ']);
        let spaced = head + seq![' '];
        assert(spaced.subrange(0, spaced.len() - 1) =~= head);
        assert(is_class_name(names.last()));
        lemma_scan_word(spaced, names.last());
        assert(token_scan(spaced).1 + names.last() =~= names.last());
        assert(prev.push(names.last()) =~= names);
    } else {
        assert(join_seq(names, seq![' ']) =~= Seq::<char>::empty());
    }
}

/// After `add(names...)` every class that was there is still there, in its
/// place, and every name that is not empty is present.
pub proof fn lemma_added_names_are_present(classes: Seq<Seq<char>>, names: Seq<Seq<char>>)
    ensures
        added(classes, names).len() >= classes.len(),
        added(classes, names).subrange(0, classes.len() as int) == classes,
        forall|k: int| 0 <= k < names.len() && names[k].len() > 0 ==> added(classes, names).contains(#[trigger] names[k]),
    decreases names.len(),
{
    if names.len() > 0 {
        let prev_names = names.subrange(0, names.len() - 1);
        lemma_added_names_are_present(classes, prev_names);
        let prev = added(classes, prev_names);
        let now = added(classes, names);
        assert(now.subrange(0, classes.len() as int) =~= prev.subrange(0, classes.len() as int));
        assert forall|k: int| 0 <= k < names.len() && names[k].len() > 0 implies now.contains(#[trigger] names[k]) by {
            if k < names.len() - 1 {
                assert(prev_names[k] == names[k]);
                assert(prev.contains(names[k]));
                let j = choose|j: int| 0 <= j < prev.len() && prev[j] == names[k];
                assert(now[j] == prev[j]);
            } else if !prev.contains(names[k]) {
                assert(now[now.len() - 1] == names[k]);
            }
        }
    }
}

/// After `remove(names...)` none of the names is present, and every other
/// class that was there still is.
pub proof fn lemma_removed_names_are_absent(classes: Seq<Seq<char>>, names: Seq<Seq<char>>)
    ensures
        forall|n: Seq<char>| names.contains(n) ==> !(#[trigger] kept(classes, names).contains(n)),
        forall|c: Seq<char>| classes.contains(c) && !names.contains(c) ==> #[trigger] kept(classes, names).contains(c),
    decreases classes.len(),
{
    if classes.len() > 0 {
        let prev_classes = classes.subrange(0, classes.len() - 1);
        lemma_removed_names_are_absent(prev_classes, names);
        let prev = kept(prev_classes, names);
        let now = kept(classes, names);
        let last = classes[classes.len() - 1];
        assert forall|n: Seq<char>| names.contains(n) implies !(#[trigger] now.contains(n)) by {
            if now.contains(n) {
                let j = choose|j: int| 0 <= j < now.len() && now[j] == n;
                if j < prev.len() {
                    assert(now[j] == prev[j]);
                    assert(prev.contains(n));
                }
            }
        }
        assert forall|c: Seq<char>| classes.contains(c) && !names.contains(c) implies #[trigger] now.contains(c) by {
            let j = choose|j: int| 0 <= j < classes.len() && classes[j] == c;
            if j < classes.len() - 1 {
                assert(prev_classes[j] == c);
                assert(prev.contains(c));
                let m = choose|m: int| 0 <= m < prev.len() && prev[m] == c;
                if !names.contains(last) {
                    assert(now[m] == prev[m]);
                }
            } else {
                assert(now[now.len() - 1] == c);
            }
        }
    }
}

/// Toggling a class that is absent, then toggling it again, leaves the list
/// as it was: the first adds it at the end, the second removes it.
pub proof fn lemma_toggle_twice_restores(classes: Seq<Seq<char>>, name: Seq<char>)
    requires
        !classes.contains(name),
    ensures
        kept(classes.push(name), seq![name]) == classes,
{
    lemma_kept_without_names(classes, seq![name]);
    assert(classes.push(name).subrange(0, classes.len() as int) =~= classes);
    assert(seq![name].contains(name)) by {
        assert(seq![name][0] == name);
    }
}

proof fn lemma_kept_without_names(classes: Seq<Seq<char>>, names: Seq<Seq<char>>)
    requires
        forall|k: int| 0 <= k < classes.len() ==> !names.contains(#[trigger] classes[k]),
    ensures
        kept(classes, names) == classes,
    decreases classes.len(),
{
    if classes.len() > 0 {
        let prev = classes.subrange(0, classes.len() - 1);
        assert forall|k: int| 0 <= k < prev.len() implies !names.contains(#[trigger] prev[k]) by {
            assert(prev[k] == classes[k]);
        }
        lemma_kept_without_names(prev, names);
        assert(prev.push(classes[classes.len() - 1]) =~= classes);
    }
}

} // verus!
