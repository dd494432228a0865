//! The order the cascade applies matching declarations in.
//!
//! Every declaration that matches an element is given a key: its precedence
//! bucket (origin and importance), whether it came from the `style`
//! attribute, the specificity of the selector that matched, and its position
//! in source order. Declarations are applied from the lowest key to the
//! highest, so for each property the highest key wins.
use vstd::prelude::*;

verus! {

/// Where a stylesheet came from.
#[derive(Clone, Copy, Debug, PartialEq, Eq, Structural)]
pub enum Origin {
    UserAgent,
    User,
    Author,
}

/// Cascade precedence buckets, lowest first.
#[derive(Clone, Copy, Debug, PartialEq, Eq, Structural)]
pub enum Bucket {
    UaNormal,
    UserNormal,
    AuthorNormal,
    AuthorImportant,
    UserImportant,
    UaImportant,
}

/// A bucket's place in the precedence order, lowest first.
pub open spec fn bucket_rank(bucket: Bucket) -> nat {
    match bucket {
        Bucket::UaNormal => 0,
        Bucket::UserNormal => 1,
        Bucket::AuthorNormal => 2,
        Bucket::AuthorImportant => 3,
        Bucket::UserImportant => 4,
        Bucket::UaImportant => 5,
    }
}

pub open spec fn bucket_of(origin: Origin, important: bool) -> Bucket {
    match (origin, important) {
        (Origin::UserAgent, false) => Bucket::UaNormal,
        (Origin::User, false) => Bucket::UserNormal,
        (Origin::Author, false) => Bucket::AuthorNormal,
        (Origin::Author, true) => Bucket::AuthorImportant,
        (Origin::User, true) => Bucket::UserImportant,
        (Origin::UserAgent, true) => Bucket::UaImportant,
    }
}

/// The bucket a declaration of `origin` lands in.
pub fn bucket_for(origin: Origin, important: bool) -> (b: Bucket)
    ensures
        b == bucket_of(origin, important),
{
    match (origin, important) {
        (Origin::UserAgent, false) => Bucket::UaNormal,
        (Origin::User, false) => Bucket::UserNormal,
        (Origin::Author, false) => Bucket::AuthorNormal,
        (Origin::Author, true) => Bucket::AuthorImportant,
        (Origin::User, true) => Bucket::UserImportant,
        (Origin::UserAgent, true) => Bucket::UaImportant,
    }
}

impl Bucket {
    pub fn rank(self) -> (r: u8)
        ensures
            r == bucket_rank(self),
    {
        match self {
            Bucket::UaNormal => 0,
            Bucket::UserNormal => 1,
            Bucket::AuthorNormal => 2,
            Bucket::AuthorImportant => 3,
            Bucket::UserImportant => 4,
            Bucket::UaImportant => 5,
        }
    }
}

/// How specific a selector is: the counts of id, class-like and type-like
/// parts, compared in that order.
#[derive(Clone, Copy, Debug, PartialEq, Eq, Structural)]
pub struct Specificity {
    pub ids: u32,
    pub classes: u32,
    pub types: u32,
}

/// What orders one matching declaration against the others.
#[derive(Clone, Copy, Debug, PartialEq, Eq, Structural)]
pub struct CascadeKey {
    pub bucket: Bucket,
    /// Inline styles beat any selector in the same bucket.
    pub inline: bool,
    /// The specificity of the most specific matching selector.
    pub specificity: Specificity,
    /// Position in source order.
    pub order: usize,
}

pub open spec fn specificity_less(a: Specificity, b: Specificity) -> bool {
    a.ids < b.ids || (a.ids == b.ids && (a.classes < b.classes || (a.classes == b.classes
        && a.types < b.types)))
}

/// Is `a` applied before `b`, so that `b` wins over it?
pub open spec fn key_less(a: CascadeKey, b: CascadeKey) -> bool {
    ||| bucket_rank(a.bucket) < bucket_rank(b.bucket)
    ||| bucket_rank(a.bucket) == bucket_rank(b.bucket) && !a.inline && b.inline
    ||| bucket_rank(a.bucket) == bucket_rank(b.bucket) && a.inline == b.inline
        && specificity_less(a.specificity, b.specificity)
    ||| bucket_rank(a.bucket) == bucket_rank(b.bucket) && a.inline == b.inline && a.specificity
        == b.specificity && a.order < b.order
}

/// Neither key is before the other.
pub open spec fn key_tied(a: CascadeKey, b: CascadeKey) -> bool {
    !key_less(a, b) && !key_less(b, a)
}

/// `order` lists positions of `keys`, each once, from the lowest key to the
/// highest, keeping positions of tied keys in the order they came in.
pub open spec fn is_cascade_order(keys: Seq<CascadeKey>, order: Seq<usize>) -> bool {
    &&& order.len() == keys.len()
    &&& forall|p: int| 0 <= p < order.len() ==> #[trigger] order[p] < keys.len()
    &&& forall|p: int, q: int| 0 <= p < q < order.len() ==> #[trigger] order[p] != #[trigger] order[q]
    &&& forall|p: int, q: int|
        0 <= p < q < order.len() ==> !key_less(keys[#[trigger] order[q] as int], keys[#[trigger] order[p] as int])
    &&& forall|p: int, q: int|
        0 <= p < q < order.len() && key_tied(keys[#[trigger] order[p] as int], keys[#[trigger] order[q] as int])
            ==> order[p] < order[q]
}

fn specificity_less_exec(a: Specificity, b: Specificity) -> (r: bool)
    ensures
        r == specificity_less(a, b),
{
    a.ids < b.ids || (a.ids == b.ids && (a.classes < b.classes || (a.classes == b.classes
        && a.types < b.types)))
}

/// Is `a` applied before `b`?
pub fn applies_before(a: &CascadeKey, b: &CascadeKey) -> (r: bool)
    ensures
        r == key_less(*a, *b),
{
    let ra = a.bucket.rank();
    let rb = b.bucket.rank();
    if ra != rb {
        return ra < rb;
    }
    if a.inline != b.inline {
        return b.inline;
    }
    if a.specificity != b.specificity {
        return specificity_less_exec(a.specificity, b.specificity);
    }
    a.order < b.order
}

proof fn lemma_key_order(a: CascadeKey, b: CascadeKey, c: CascadeKey)
    ensures
        !key_less(a, a),
        key_less(a, b) ==> !key_less(b, a),
        !key_less(b, a) && !key_less(c, b) ==> !key_less(c, a),
        !key_less(b, a) && key_less(b, c) ==> key_less(a, c),
{
}

/// The positions of `keys` in the order the cascade applies them: lowest
/// key first, ties in the order they came in (a stable sort).
pub fn cascade_order(keys: &Vec<CascadeKey>) -> (order: Vec<usize>)
    ensures
        is_cascade_order(keys@, order@),
{
    let n = keys.len();
    let mut out: Vec<usize> = Vec::new();
    let mut i: usize = 0;
    while i < n
        invariant
            n == keys@.len(),
            i <= n,
            out@.len() == i,
            forall|p: int| 0 <= p < out@.len() ==> #[trigger] out@[p] < i,
            forall|p: int, q: int| 0 <= p < q < out@.len() ==> #[trigger] out@[p] != #[trigger] out@[q],
            forall|p: int, q: int|
                0 <= p < q < out@.len() ==> !key_less(keys@[#[trigger] out@[q] as int], keys@[#[trigger] out@[p] as int]),
            forall|p: int, q: int|
                0 <= p < q < out@.len() && key_tied(keys@[#[trigger] out@[p] as int], keys@[#[trigger] out@[q] as int])
                    ==> out@[p] < out@[q],
        decreases n - i,
    {
        let mut at = out.len();
        while at > 0 && applies_before(&keys[i], &keys[out[at - 1]])
            invariant
                n == keys@.len(),
                i < n,
                at <= out@.len(),
                forall|p: int| 0 <= p < out@.len() ==> #[trigger] out@[p] < i,
                forall|p: int| at <= p < out@.len() ==> key_less(keys@[i as int], keys@[#[trigger] out@[p] as int]),
            decreases at,
        {
            at = at - 1;
        }
        let ghost before = out@;
        proof {
            if at > 0 {
                assert(!key_less(keys@[i as int], keys@[before[at - 1] as int]));
                assert forall|p: int| 0 <= p < at implies !key_less(
                    keys@[i as int],
                    keys@[#[trigger] before[p] as int],
                ) by {
                    if p < at - 1 {
                        lemma_key_order(keys@[before[p] as int], keys@[before[at - 1] as int], keys@[i as int]);
                    }
                }
            }
        }
        out.insert(at, i);
        proof {
            let after = out@;
            assert(after == before.insert(at as int, i));
            assert forall|p: int| 0 <= p < after.len() implies #[trigger] after[p] < i + 1 by {
                if p < at {
                    assert(after[p] == before[p]);
                } else if p > at {
                    assert(after[p] == before[p - 1]);
                }
            }
            assert forall|p: int, q: int| 0 <= p < q < after.len() implies #[trigger] after[p]
                != #[trigger] after[q] by {
                if p == at {
                    assert(after[q] == before[q - 1]);
                } else if q == at {
                    assert(after[p] == before[p]);
                } else {
                    let bp = if p < at { p } else { p - 1 };
                    let bq = if q < at { q } else { q - 1 };
                    assert(after[p] == before[bp]);
                    assert(after[q] == before[bq]);
                }
            }
            assert forall|p: int, q: int| 0 <= p < q < after.len() implies !key_less(
                keys@[#[trigger] after[q] as int],
                keys@[#[trigger] after[p] as int],
            ) && (key_tied(keys@[after[p] as int], keys@[after[q] as int]) ==> after[p] < after[q]) by {
                let bp = if p < at { p } else { p - 1 };
                let bq = if q < at { q } else { q - 1 };
                if p == at {
                    assert(after[q] == before[bq]);
                    lemma_key_order(keys@[i as int], keys@[before[bq] as int], keys@[i as int]);
                } else if q == at {
                    assert(after[p] == before[bp]);
                    lemma_key_order(keys@[before[bp] as int], keys@[i as int], keys@[i as int]);
                } else {
                    assert(after[p] == before[bp]);
                    assert(after[q] == before[bq]);
                }
            }
        }
        i = i + 1;
    }
    out
}

/// A declaration marked `!important` is applied after, and so beats, every
/// normal declaration, whatever the origins.
pub proof fn lemma_important_beats_normal(a: CascadeKey, b: CascadeKey, oa: Origin, ob: Origin)
    requires
        a.bucket == bucket_of(oa, false),
        b.bucket == bucket_of(ob, true),
    ensures
        key_less(a, b),
{
}

/// Among normal declarations author beats user beats user agent; among
/// important ones the order is reversed.
pub proof fn lemma_origin_precedence()
    ensures
        bucket_rank(bucket_of(Origin::UserAgent, false)) < bucket_rank(bucket_of(Origin::User, false)),
        bucket_rank(bucket_of(Origin::User, false)) < bucket_rank(bucket_of(Origin::Author, false)),
        bucket_rank(bucket_of(Origin::Author, true)) < bucket_rank(bucket_of(Origin::User, true)),
        bucket_rank(bucket_of(Origin::User, true)) < bucket_rank(bucket_of(Origin::UserAgent, true)),
{
}

/// Within one bucket an inline declaration beats any selector, a more
/// specific selector beats a less specific one, and between equals the later
/// declaration wins.
pub proof fn lemma_inline_specificity_then_source_order(a: CascadeKey, b: CascadeKey)
    requires
        a.bucket == b.bucket,
    ensures
        !a.inline && b.inline ==> key_less(a, b),
        a.inline == b.inline && specificity_less(a.specificity, b.specificity) ==> key_less(a, b),
        a.inline == b.inline && a.specificity == b.specificity && a.order < b.order ==> key_less(a, b),
{
}

/// The declaration applied last has the highest key: no other is after it.
pub proof fn lemma_last_applied_wins(keys: Seq<CascadeKey>, order: Seq<usize>, k: int)
    requires
        is_cascade_order(keys, order),
        order.len() > 0,
        0 <= k < order.len() - 1,
    ensures
        !key_less(keys[order.last() as int], keys[order[k] as int]),
{
    assert(order.last() == order[order.len() - 1]);
}

/// Within one bucket and between keys both inline or both not, keys are
/// applied in the lexicographic order of (ids, classes, types, source
/// order): a selector with more id parts, or as many and more class parts,
/// or as many of both and more type parts, is applied later and wins,
/// wherever it stands in the source; only fully equal specificities fall
/// back to source order.
pub proof fn lemma_specificity_is_lexicographic(a: CascadeKey, b: CascadeKey)
    requires
        a.bucket == b.bucket,
        a.inline == b.inline,
    ensures
        key_less(a, b) == (a.specificity.ids < b.specificity.ids || (a.specificity.ids
            == b.specificity.ids && a.specificity.classes < b.specificity.classes) || (
        a.specificity.ids == b.specificity.ids && a.specificity.classes == b.specificity.classes
            && a.specificity.types < b.specificity.types) || (a.specificity.ids == b.specificity.ids
            && a.specificity.classes == b.specificity.classes && a.specificity.types
            == b.specificity.types && a.order < b.order)),
{
}

/// A more specific selector is applied after a less specific one in the
/// same bucket, even one that comes later in the source: a difference in
/// the type count alone decides when ids and classes are equal.
pub proof fn lemma_more_specific_applies_later(a: CascadeKey, b: CascadeKey)
    requires
        a.bucket == b.bucket,
        a.inline == b.inline,
        a.specificity.ids == b.specificity.ids,
        a.specificity.classes == b.specificity.classes,
        a.specificity.types > b.specificity.types,
    ensures
        key_less(b, a),
        !key_less(a, b),
{
}

/// In the order the cascade applies declarations, of two in one bucket
/// and alike in being inline, the one applied first is never the more
/// specific: its (ids, classes, types) is not greater.
pub proof fn lemma_cascade_order_respects_specificity(keys: Seq<CascadeKey>, order: Seq<usize>, p: int, q: int)
    requires
        is_cascade_order(keys, order),
        0 <= p < q < order.len(),
        keys[order[p] as int].bucket == keys[order[q] as int].bucket,
        keys[order[p] as int].inline == keys[order[q] as int].inline,
    ensures
        !({
            let x = keys[order[p] as int].specificity;
            let y = keys[order[q] as int].specificity;
            x.ids > y.ids || (x.ids == y.ids && x.classes > y.classes) || (x.ids == y.ids
                && x.classes == y.classes && x.types > y.types)
        }),
{
    assert(!key_less(keys[order[q] as int], keys[order[p] as int]));
    lemma_specificity_is_lexicographic(keys[order[q] as int], keys[order[p] as int]);
}

} // verus!
