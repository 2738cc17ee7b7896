//! Searching and filtering sequences.
use vstd::prelude::*;

verus! {

/// The first element that satisfies a predicate.
pub open spec fn first<T>(s: Seq<T>, p: spec_fn(T) -> bool) -> Option<T>
    decreases s.len(),
{
    if s.len() == 0 {
        None
    } else {
        match first(s.drop_last(), p) {
            Some(x) => Some(x),
            None => if p(s.last()) {
                Some(s.last())
            } else {
                None
            },
        }
    }
}

/// One value, or else another.
pub open spec fn or<T>(a: Option<T>, b: Option<T>) -> Option<T> {
    match a {
        Some(x) => Some(x),
        None => b,
    }
}

/// What is found in a prefix is what is found in the whole.
pub proof fn lemma_first_in_prefix<T>(s: Seq<T>, p: spec_fn(T) -> bool, k: int)
    requires
        0 <= k <= s.len(),
        first(s.take(k), p) is Some,
    ensures
        first(s, p) == first(s.take(k), p),
    decreases s.len() - k,
{
    if k == s.len() {
        assert(s.take(k) == s);
    } else {
        assert(s.take(k + 1).drop_last() == s.take(k));
        lemma_first_in_prefix(s, p, k + 1);
    }
}

/// The search goes on by one element.
pub proof fn lemma_first_step<T>(s: Seq<T>, p: spec_fn(T) -> bool, k: int)
    requires
        0 <= k < s.len(),
        first(s.take(k), p) is None,
    ensures
        p(s[k]) ==> first(s, p) == Some(s[k]),
        !p(s[k]) ==> first(s.take(k + 1), p) is None,
{
    assert(s.take(k + 1).drop_last() == s.take(k));
    assert(s.take(k + 1).last() == s[k]);
    if p(s[k]) {
        lemma_first_in_prefix(s, p, k + 1);
    }
}

/// A search over everything has no more to look at.
pub proof fn lemma_first_done<T>(s: Seq<T>, p: spec_fn(T) -> bool)
    ensures
        first(s.take(s.len() as int), p) == first(s, p),
        first(s.take(0), p) is None,
{
    assert(s.take(s.len() as int) == s);
    assert(s.take(0) == Seq::<T>::empty());
}

/// What the search finds satisfies the predicate and is in the sequence; where it finds nothing,
/// nothing satisfies the predicate.
pub proof fn lemma_first_sound<T>(s: Seq<T>, p: spec_fn(T) -> bool)
    ensures
        match first(s, p) {
            Some(x) => p(x) && s.contains(x),
            None => forall|i: int| 0 <= i < s.len() ==> !p(#[trigger] s[i]),
        },
    decreases s.len(),
{
    if s.len() > 0 {
        let rest = s.drop_last();
        lemma_first_sound(rest, p);
        match first(rest, p) {
            Some(x) => {
                let k = choose|k: int| 0 <= k < rest.len() && rest[k] == x;
                assert(s[k] == x);
            },
            None => {
                assert(s[s.len() - 1] == s.last());
                assert forall|i: int| 0 <= i < s.len() && first(s, p) is None implies !p(
                    #[trigger] s[i],
                ) by {
                    if i < s.len() - 1 {
                        assert(rest[i] == s[i]);
                    }
                }
            },
        }
    }
}

/// The elements that satisfy a predicate, in order.
pub open spec fn kept<T>(s: Seq<T>, p: spec_fn(T) -> bool) -> Seq<T>
    decreases s.len(),
{
    if s.len() == 0 {
        Seq::empty()
    } else if p(s.last()) {
        kept(s.drop_last(), p).push(s.last())
    } else {
        kept(s.drop_last(), p)
    }
}

/// The filtering goes on by one element.
pub proof fn lemma_kept_step<T>(s: Seq<T>, p: spec_fn(T) -> bool, k: int)
    requires
        0 <= k < s.len(),
    ensures
        kept(s.take(k + 1), p) == if p(s[k]) {
            kept(s.take(k), p).push(s[k])
        } else {
            kept(s.take(k), p)
        },
{
    assert(s.take(k + 1).drop_last() == s.take(k));
    assert(s.take(k + 1).last() == s[k]);
}

/// Filtering over everything has no more to look at.
pub proof fn lemma_kept_done<T>(s: Seq<T>, p: spec_fn(T) -> bool)
    ensures
        kept(s.take(s.len() as int), p) == kept(s, p),
        kept(s.take(0), p) == Seq::<T>::empty(),
{
    assert(s.take(s.len() as int) == s);
    assert(s.take(0) == Seq::<T>::empty());
}

/// What is kept is what satisfies the condition, nothing else, and in the same order.
pub proof fn lemma_kept_sound<T>(s: Seq<T>, p: spec_fn(T) -> bool)
    ensures
        forall|j: int| 0 <= j < kept(s, p).len() ==> p(#[trigger] kept(s, p)[j]),
        forall|j: int|
            0 <= j < kept(s, p).len() ==> exists|i: int|
                0 <= i < s.len() && #[trigger] s[i] == #[trigger] kept(s, p)[j],
        forall|i: int|
            0 <= i < s.len() && p(#[trigger] s[i]) ==> exists|j: int|
                0 <= j < kept(s, p).len() && #[trigger] kept(s, p)[j] == s[i],
        kept(s, p).len() <= s.len(),
    decreases s.len(),
{
    if s.len() > 0 {
        let rest = s.drop_last();
        let before = kept(rest, p);
        let all = kept(s, p);
        lemma_kept_sound(rest, p);
        assert forall|j: int| 0 <= j < all.len() implies exists|i: int|
            0 <= i < s.len() && #[trigger] s[i] == #[trigger] all[j] by {
            if j < before.len() {
                let i = choose|i: int| 0 <= i < rest.len() && #[trigger] rest[i] == before[j];
                assert(s[i] == all[j]);
            } else {
                assert(s[s.len() - 1] == all[j]);
            }
        }
        assert forall|i: int| 0 <= i < s.len() && p(#[trigger] s[i]) implies exists|j: int|
            0 <= j < all.len() && #[trigger] all[j] == s[i] by {
            if i < rest.len() {
                assert(rest[i] == s[i]);
                let j = choose|j: int| 0 <= j < before.len() && #[trigger] before[j] == rest[i];
                assert(all[j] == s[i]);
            } else {
                assert(all[all.len() - 1] == s[i]);
            }
        }
    }
}

/// Where a value satisfies the condition, the first one that does is found, there or before it.
pub proof fn lemma_first_exists<T>(s: Seq<T>, p: spec_fn(T) -> bool, i: int)
    requires
        0 <= i < s.len(),
        p(s[i]),
    ensures
        exists|k: int| 0 <= k <= i && first(s, p) == Some(#[trigger] s[k]) && p(s[k]),
    decreases i,
{
    let before = s.take(i);
    lemma_first_sound(before, p);
    if first(before, p) is Some {
        let found = first(before, p)->0;
        let k = before.index_of(found);
        assert(before[k] == found && s[k] == found);
        lemma_first_in_prefix(s, p, i);
    } else {
        lemma_first_step(s, p, i);
    }
}

/// A value with none before it that satisfies the condition is the one that is found.
pub proof fn lemma_first_at<T>(s: Seq<T>, p: spec_fn(T) -> bool, i: int)
    requires
        0 <= i < s.len(),
        p(s[i]),
        forall|j: int| 0 <= j < i ==> !p(#[trigger] s[j]),
    ensures
        first(s, p) == Some(s[i]),
{
    lemma_first_exists(s, p, i);
}

/// What is kept of two sequences is kept of each.
pub proof fn lemma_kept_adds_up<T>(a: Seq<T>, b: Seq<T>, p: spec_fn(T) -> bool)
    ensures
        kept(a + b, p) == kept(a, p) + kept(b, p),
    decreases b.len(),
{
    if b.len() == 0 {
        assert(a + b == a);
        assert(kept(a, p) + kept(b, p) == kept(a, p));
    } else {
        assert((a + b).drop_last() == a + b.drop_last());
        assert((a + b).last() == b.last());
        lemma_kept_adds_up(a, b.drop_last(), p);
        assert(kept(a + b, p) == kept(a, p) + kept(b, p));
    }
}

/// One value is kept exactly where it satisfies the condition.
pub proof fn lemma_kept_one<T>(x: T, p: spec_fn(T) -> bool)
    ensures
        p(x) ==> kept(seq![x], p) == seq![x],
        !p(x) ==> kept(seq![x], p).len() == 0,
{
    let one = seq![x];
    assert(one.drop_last() == Seq::<T>::empty());
    assert(kept(one.drop_last(), p) == Seq::<T>::empty());
    assert(p(x) ==> kept(one, p) =~= one);
}

} // verus!
