//! The scopes a display list opens and closes: each `PushClip` until its
//! `PopClip`, each `PushOpacity` until its `PopOpacity`.
use vstd::prelude::*;

verus! {

/// What a display item does to the clip and opacity scopes.
#[derive(Clone, Copy, Debug, PartialEq, Eq, Structural)]
pub enum ScopeEffect {
    PushClip,
    PopClip,
    PushOpacity,
    PopOpacity,
    /// A drawing item, which opens and closes nothing.
    Draw,
}

/// How many clip scopes are open after `items`.
pub open spec fn clip_depth(items: Seq<ScopeEffect>) -> int
    decreases items.len(),
{
    if items.len() == 0 {
        0
    } else {
        clip_depth(items.drop_last()) + match items.last() {
            ScopeEffect::PushClip => 1int,
            ScopeEffect::PopClip => -1int,
            _ => 0int,
        }
    }
}

/// How many opacity scopes are open after `items`.
pub open spec fn opacity_depth(items: Seq<ScopeEffect>) -> int
    decreases items.len(),
{
    if items.len() == 0 {
        0
    } else {
        opacity_depth(items.drop_last()) + match items.last() {
            ScopeEffect::PushOpacity => 1int,
            ScopeEffect::PopOpacity => -1int,
            _ => 0int,
        }
    }
}

/// No scope is closed before it is opened, and every scope opened is
/// closed.
pub open spec fn scopes_balanced(items: Seq<ScopeEffect>) -> bool {
    &&& forall|n: int| 0 <= n <= items.len() ==> #[trigger] clip_depth(items.take(n)) >= 0
    &&& forall|n: int| 0 <= n <= items.len() ==> #[trigger] opacity_depth(items.take(n)) >= 0
    &&& clip_depth(items) == 0
    &&& opacity_depth(items) == 0
}

/// Are the clip and opacity scopes of a display list balanced?
pub fn is_balanced(items: &Vec<ScopeEffect>) -> (r: bool)
    ensures
        r == scopes_balanced(items@),
{
    let mut clips: usize = 0;
    let mut opacities: usize = 0;
    let mut i: usize = 0;
    assert(items@.take(0) =~= Seq::<ScopeEffect>::empty());
    while i < items.len()
        invariant
            i <= items@.len(),
            clips == clip_depth(items@.take(i as int)),
            opacities == opacity_depth(items@.take(i as int)),
            clips <= i,
            opacities <= i,
            forall|n: int| 0 <= n <= i ==> #[trigger] clip_depth(items@.take(n)) >= 0,
            forall|n: int| 0 <= n <= i ==> #[trigger] opacity_depth(items@.take(n)) >= 0,
        decreases items@.len() - i,
    {
        let ghost next = items@.take(i + 1);
        assert(next.drop_last() =~= items@.take(i as int));
        assert(next.last() == items@[i as int]);
        match items[i] {
            ScopeEffect::PushClip => {
                clips = clips + 1;
            },
            ScopeEffect::PopClip => {
                if clips == 0 {
                    assert(clip_depth(next) < 0);
                    return false;
                }
                clips = clips - 1;
            },
            ScopeEffect::PushOpacity => {
                opacities = opacities + 1;
            },
            ScopeEffect::PopOpacity => {
                if opacities == 0 {
                    assert(opacity_depth(next) < 0);
                    return false;
                }
                opacities = opacities - 1;
            },
            ScopeEffect::Draw => {},
        }
        i = i + 1;
    }
    assert(items@.take(i as int) =~= items@);
    clips == 0 && opacities == 0
}

/// Depths add up over concatenation.
proof fn lemma_depth_concat(a: Seq<ScopeEffect>, b: Seq<ScopeEffect>)
    ensures
        clip_depth(a + b) == clip_depth(a) + clip_depth(b),
        opacity_depth(a + b) == opacity_depth(a) + opacity_depth(b),
    decreases b.len(),
{
    if b.len() == 0 {
        assert(a + b =~= a);
    } else {
        lemma_depth_concat(a, b.drop_last());
        assert((a + b).drop_last() =~= a + b.drop_last());
        assert((a + b).last() == b.last());
    }
}

/// Depths of a single item.
proof fn lemma_depth_one(e: ScopeEffect)
    ensures
        clip_depth(seq![e]) == match e {
            ScopeEffect::PushClip => 1int,
            ScopeEffect::PopClip => -1int,
            _ => 0int,
        },
        opacity_depth(seq![e]) == match e {
            ScopeEffect::PushOpacity => 1int,
            ScopeEffect::PopOpacity => -1int,
            _ => 0int,
        },
{
    assert(seq![e].drop_last() =~= Seq::<ScopeEffect>::empty());
    assert(seq![e].last() == e);
    assert(clip_depth(Seq::<ScopeEffect>::empty()) == 0);
    assert(opacity_depth(Seq::<ScopeEffect>::empty()) == 0);
}

/// A list of drawing items alone opens and closes nothing, so it is
/// balanced.
pub proof fn lemma_draws_are_balanced(items: Seq<ScopeEffect>)
    requires
        forall|k: int| 0 <= k < items.len() ==> items[k] == ScopeEffect::Draw,
    ensures
        scopes_balanced(items),
    decreases items.len(),
{
    assert forall|n: int| 0 <= n <= items.len() implies #[trigger] clip_depth(items.take(n)) == 0 by {
        lemma_draws_have_no_depth(items.take(n));
    }
    assert forall|n: int| 0 <= n <= items.len() implies #[trigger] opacity_depth(items.take(n)) == 0 by {
        lemma_draws_have_no_depth(items.take(n));
    }
    lemma_draws_have_no_depth(items);
    assert(items.take(items.len() as int) =~= items);
}

proof fn lemma_draws_have_no_depth(items: Seq<ScopeEffect>)
    requires
        forall|k: int| 0 <= k < items.len() ==> items[k] == ScopeEffect::Draw,
    ensures
        clip_depth(items) == 0,
        opacity_depth(items) == 0,
    decreases items.len(),
{
    if items.len() > 0 {
        lemma_draws_have_no_depth(items.drop_last());
        assert(items.last() == items[items.len() - 1]);
    }
}

/// A list that closes a scope before opening one is not balanced, nor is a
/// balanced list with one more scope opened in front of it.
pub proof fn lemma_unmatched_scopes_are_unbalanced(rest: Seq<ScopeEffect>)
    ensures
        !scopes_balanced(seq![ScopeEffect::PopClip] + rest),
        !scopes_balanced(seq![ScopeEffect::PopOpacity] + rest),
        scopes_balanced(rest) ==> !scopes_balanced(seq![ScopeEffect::PushClip] + rest),
        scopes_balanced(rest) ==> !scopes_balanced(seq![ScopeEffect::PushOpacity] + rest),
{
    let a = seq![ScopeEffect::PopClip] + rest;
    let b = seq![ScopeEffect::PopOpacity] + rest;
    assert(a.take(1) =~= seq![ScopeEffect::PopClip]);
    assert(b.take(1) =~= seq![ScopeEffect::PopOpacity]);
    lemma_depth_one(ScopeEffect::PopClip);
    lemma_depth_one(ScopeEffect::PopOpacity);
    lemma_depth_one(ScopeEffect::PushClip);
    lemma_depth_one(ScopeEffect::PushOpacity);
    lemma_depth_concat(seq![ScopeEffect::PushClip], rest);
    lemma_depth_concat(seq![ScopeEffect::PushOpacity], rest);
}

/// Wrapping a balanced list in a clip scope, or in an opacity scope, keeps
/// it balanced; so does putting two balanced lists one after the other.
pub proof fn lemma_balanced_lists_compose(body: Seq<ScopeEffect>, other: Seq<ScopeEffect>)
    requires
        scopes_balanced(body),
    ensures
        scopes_balanced(seq![ScopeEffect::PushClip] + body + seq![ScopeEffect::PopClip]),
        scopes_balanced(seq![ScopeEffect::PushOpacity] + body + seq![ScopeEffect::PopOpacity]),
        scopes_balanced(other) ==> scopes_balanced(body + other),
{
    lemma_wrapped_is_balanced(body, ScopeEffect::PushClip, ScopeEffect::PopClip);
    lemma_wrapped_is_balanced(body, ScopeEffect::PushOpacity, ScopeEffect::PopOpacity);
    if scopes_balanced(other) {
        let w = body + other;
        assert forall|n: int| 0 <= n <= w.len() implies #[trigger] clip_depth(w.take(n)) >= 0 by {
            if n <= body.len() {
                assert(w.take(n) =~= body.take(n));
            } else {
                assert(w.take(n) =~= body + other.take(n - body.len()));
                lemma_depth_concat(body, other.take(n - body.len()));
                assert(body.take(body.len() as int) =~= body);
            }
        }
        assert forall|n: int| 0 <= n <= w.len() implies #[trigger] opacity_depth(w.take(n)) >= 0 by {
            if n <= body.len() {
                assert(w.take(n) =~= body.take(n));
            } else {
                assert(w.take(n) =~= body + other.take(n - body.len()));
                lemma_depth_concat(body, other.take(n - body.len()));
                assert(body.take(body.len() as int) =~= body);
            }
        }
        lemma_depth_concat(body, other);
    }
}

proof fn lemma_wrapped_is_balanced(body: Seq<ScopeEffect>, open: ScopeEffect, close: ScopeEffect)
    requires
        scopes_balanced(body),
        (open == ScopeEffect::PushClip && close == ScopeEffect::PopClip) || (open
            == ScopeEffect::PushOpacity && close == ScopeEffect::PopOpacity),
    ensures
        scopes_balanced(seq![open] + body + seq![close]),
{
    let w = seq![open] + body + seq![close];
    lemma_depth_one(open);
    lemma_depth_one(close);
    assert forall|n: int| 0 <= n <= w.len() implies #[trigger] clip_depth(w.take(n)) >= 0 by {
        if n == 0 {
            assert(w.take(n) =~= Seq::<ScopeEffect>::empty());
        } else if n <= body.len() + 1 {
            assert(w.take(n) =~= seq![open] + body.take(n - 1));
            lemma_depth_concat(seq![open], body.take(n - 1));
        } else {
            assert(w.take(n) =~= seq![open] + body + seq![close]);
            lemma_depth_concat(seq![open] + body, seq![close]);
            lemma_depth_concat(seq![open], body);
            assert(body.take(body.len() as int) =~= body);
        }
    }
    assert forall|n: int| 0 <= n <= w.len() implies #[trigger] opacity_depth(w.take(n)) >= 0 by {
        if n == 0 {
            assert(w.take(n) =~= Seq::<ScopeEffect>::empty());
        } else if n <= body.len() + 1 {
            assert(w.take(n) =~= seq![open] + body.take(n - 1));
            lemma_depth_concat(seq![open], body.take(n - 1));
        } else {
            assert(w.take(n) =~= seq![open] + body + seq![close]);
            lemma_depth_concat(seq![open] + body, seq![close]);
            lemma_depth_concat(seq![open], body);
            assert(body.take(body.len() as int) =~= body);
        }
    }
    lemma_depth_concat(seq![open] + body, seq![close]);
    lemma_depth_concat(seq![open], body);
    assert(body.take(body.len() as int) =~= body);
}

} // verus!
