//! Ordering: text by its characters, and a stable sort by key.
#[allow(unused_imports)]
use vstd::multiset::*;
use crate::search;
use vstd::prelude::*;
#[allow(unused_imports)]
use vstd::relations::*;
#[allow(unused_imports)]
use vstd::seq_lib::*;

verus! {

/// Whether `a` comes before `b` in dictionary order by code point, or is equal to it.
pub open spec fn text_le(a: Seq<char>, b: Seq<char>) -> bool
    decreases a.len(),
{
    if a.len() == 0 {
        true
    } else if b.len() == 0 {
        false
    } else if a[0] != b[0] {
        a[0] < b[0]
    } else {
        text_le(a.skip(1), b.skip(1))
    }
}

proof fn lemma_text_le_reflexive(a: Seq<char>)
    ensures
        text_le(a, a),
    decreases a.len(),
{
    if a.len() > 0 {
        lemma_text_le_reflexive(a.skip(1));
    }
}

proof fn lemma_text_le_antisymmetric(a: Seq<char>, b: Seq<char>)
    requires
        text_le(a, b),
        text_le(b, a),
    ensures
        a == b,
    decreases a.len(),
{
    if a.len() > 0 && b.len() > 0 {
        lemma_text_le_antisymmetric(a.skip(1), b.skip(1));
        assert(a == seq![a[0]] + a.skip(1));
        assert(b == seq![b[0]] + b.skip(1));
    } else {
        assert(a == b);
    }
}

proof fn lemma_text_le_transitive(a: Seq<char>, b: Seq<char>, c: Seq<char>)
    requires
        text_le(a, b),
        text_le(b, c),
    ensures
        text_le(a, c),
    decreases a.len(),
{
    if a.len() > 0 && b.len() > 0 && c.len() > 0 && a[0] == b[0] && b[0] == c[0] {
        lemma_text_le_transitive(a.skip(1), b.skip(1), c.skip(1));
    }
}

proof fn lemma_text_le_total(a: Seq<char>, b: Seq<char>)
    ensures
        text_le(a, b) || text_le(b, a),
    decreases a.len(),
{
    if a.len() > 0 && b.len() > 0 && a[0] == b[0] {
        lemma_text_le_total(a.skip(1), b.skip(1));
    }
}

/// Dictionary order is a total order.
pub proof fn law_text_order_is_total()
    ensures
        total_ordering(|a: Seq<char>, b: Seq<char>| text_le(a, b)),
{
    let le = |a: Seq<char>, b: Seq<char>| text_le(a, b);
    assert forall|a: Seq<char>| #[trigger] le(a, a) by {
        lemma_text_le_reflexive(a);
    }
    assert forall|a: Seq<char>, b: Seq<char>| #[trigger] le(a, b) && #[trigger] le(b, a) implies a
        == b by {
        lemma_text_le_antisymmetric(a, b);
    }
    assert forall|a: Seq<char>, b: Seq<char>, c: Seq<char>| #[trigger] le(a, b) && #[trigger] le(
        b,
        c,
    ) implies le(a, c) by {
        lemma_text_le_transitive(a, b, c);
    }
    assert forall|a: Seq<char>, b: Seq<char>| #[trigger] le(a, b) || #[trigger] le(b, a) by {
        lemma_text_le_total(a, b);
    }
}

/// Compares two texts in dictionary order.
pub fn text_at_most(a: &[char], b: &[char]) -> (r: bool)
    ensures
        r == text_le(a@, b@),
{
    let mut i: usize = 0;
    assert(a@.skip(0) == a@ && b@.skip(0) == b@);
    while i < a.len() && i < b.len()
        invariant
            i <= a.len(),
            i <= b.len(),
            text_le(a@, b@) == text_le(a@.skip(i as int), b@.skip(i as int)),
        decreases a.len() - i,
    {
        if a[i] != b[i] {
            return a[i] < b[i];
        }
        assert(a@.skip(i as int).skip(1) == a@.skip(i + 1));
        assert(b@.skip(i as int).skip(1) == b@.skip(i + 1));
        i += 1;
    }
    i == a.len()
}

/// Something that is put in order by a key.
pub trait Ranked: Sized {
    type Key;

    /// What the value is ordered by.
    spec fn rank(self) -> Self::Key;

    /// Whether one key comes before another, or is equal to it.
    spec fn rank_le(a: Self::Key, b: Self::Key) -> bool;

    proof fn rank_order_is_total()
        ensures
            total_ordering(|a: Self::Key, b: Self::Key| Self::rank_le(a, b)),
    ;

    /// Whether this value comes strictly before the other.
    fn precedes(&self, other: &Self) -> (r: bool)
        ensures
            r == !Self::rank_le(other.rank(), self.rank()),
    ;
}

/// A sorted sequence with one more value, put before the first value that it does not follow.
pub open spec fn inserted<T: Ranked>(sorted: Seq<T>, x: T) -> Seq<T>
    decreases sorted.len(),
{
    if sorted.len() == 0 {
        seq![x]
    } else if !T::rank_le(x.rank(), sorted[0].rank()) {
        seq![sorted[0]] + inserted(sorted.skip(1), x)
    } else {
        seq![x] + sorted
    }
}

/// A sequence in the order of its keys; values with the same key keep their order.
pub open spec fn sorted<T: Ranked>(s: Seq<T>) -> Seq<T>
    decreases s.len(),
{
    if s.len() == 0 {
        s
    } else {
        inserted(sorted(s.skip(1)), s[0])
    }
}

/// The keys of a sequence.
pub open spec fn ranks<T: Ranked>(s: Seq<T>) -> Seq<T::Key> {
    Seq::new(s.len(), |i: int| s[i].rank())
}

/// Whether the keys of a sequence never descend.
pub open spec fn ascending<T: Ranked>(s: Seq<T>) -> bool {
    forall|i: int, j: int|
        0 <= i < j < s.len() ==> T::rank_le((#[trigger] s[i]).rank(), (#[trigger] s[j]).rank())
}

proof fn lemma_inserted<T: Ranked>(s: Seq<T>, x: T)
    requires
        ascending(s),
    ensures
        ascending(inserted(s, x)),
        inserted(s, x).to_multiset() == s.to_multiset().insert(x),
        ranks(inserted(s, x)).to_multiset() == ranks(s).to_multiset().insert(x.rank()),
    decreases s.len(),
{
    broadcast use group_to_multiset_ensures;

    T::rank_order_is_total();
    let le = |a: T::Key, b: T::Key| T::rank_le(a, b);
    if s.len() == 0 {
        assert(seq![x] == s.push(x));
        assert(ranks(seq![x]) == ranks(s).push(x.rank()));
    } else if !T::rank_le(x.rank(), s[0].rank()) {
        let rest = s.skip(1);
        assert(ascending(rest));
        lemma_inserted(rest, x);
        let tail = inserted(rest, x);
        let all = seq![s[0]] + tail;
        assert(le(s[0].rank(), x.rank()) || le(x.rank(), s[0].rank()));
        assert forall|j: int| 0 <= j < tail.len() implies T::rank_le(
            s[0].rank(),
            (#[trigger] tail[j]).rank(),
        ) by {
            assert(tail.to_multiset().count(tail[j]) > 0) by {
                assert(tail.contains(tail[j]));
            }
            if tail[j] != x {
                assert(rest.to_multiset().count(tail[j]) > 0);
                assert(rest.contains(tail[j]));
                let k = choose|k: int| 0 <= k < rest.len() && rest[k] == tail[j];
                assert(rest[k] == s[k + 1]);
            }
        }
        assert forall|i: int, j: int| 0 <= i < j < all.len() implies T::rank_le(
            (#[trigger] all[i]).rank(),
            (#[trigger] all[j]).rank(),
        ) by {
            assert(all[j] == tail[j - 1]);
            if i > 0 {
                assert(all[i] == tail[i - 1]);
            }
        }
        assert(s == seq![s[0]] + rest);
        assert(all.to_multiset() == seq![s[0]].to_multiset().add(tail.to_multiset())) by {
            lemma_multiset_commutative(seq![s[0]], tail);
        }
        assert(s.to_multiset() == seq![s[0]].to_multiset().add(rest.to_multiset())) by {
            lemma_multiset_commutative(seq![s[0]], rest);
        }
        assert(all.to_multiset() =~= s.to_multiset().insert(x));
        let key = seq![s[0].rank()];
        assert(ranks(all) == key + ranks(tail));
        assert(ranks(s) == key + ranks(rest));
        lemma_multiset_commutative(key, ranks(tail));
        lemma_multiset_commutative(key, ranks(rest));
        assert(ranks(all).to_multiset() =~= ranks(s).to_multiset().insert(x.rank()));
    } else {
        let all = seq![x] + s;
        assert forall|i: int, j: int| 0 <= i < j < all.len() implies T::rank_le(
            (#[trigger] all[i]).rank(),
            (#[trigger] all[j]).rank(),
        ) by {
            if i == 0 {
                if j > 1 {
                    assert(le(x.rank(), s[0].rank()) && le(s[0].rank(), s[j - 1].rank()));
                }
            } else {
                assert(all[i] == s[i - 1] && all[j] == s[j - 1]);
            }
        }
        lemma_multiset_commutative(seq![x], s);
        assert(seq![x] == Seq::<T>::empty().push(x));
        assert(all.to_multiset() =~= s.to_multiset().insert(x));
        let key = seq![x.rank()];
        assert(ranks(all) == key + ranks(s));
        assert(key == Seq::<T::Key>::empty().push(x.rank()));
        lemma_multiset_commutative(key, ranks(s));
        assert(ranks(all).to_multiset() =~= ranks(s).to_multiset().insert(x.rank()));
    }
}

/// Sorting puts the keys in order and neither adds nor drops a value.
pub proof fn law_sorting_orders_and_keeps_every_value<T: Ranked>(s: Seq<T>)
    ensures
        ascending(sorted(s)),
        sorted(s).to_multiset() == s.to_multiset(),
        ranks(sorted(s)).to_multiset() == ranks(s).to_multiset(),
    decreases s.len(),
{
    broadcast use group_to_multiset_ensures;

    if s.len() > 0 {
        let rest = s.skip(1);
        law_sorting_orders_and_keeps_every_value(rest);
        lemma_inserted(sorted(rest), s[0]);
        assert(s == seq![s[0]] + rest);
        assert(seq![s[0]] == Seq::<T>::empty().push(s[0]));
        lemma_multiset_commutative(seq![s[0]], rest);
        assert(s.to_multiset() =~= rest.to_multiset().insert(s[0]));
        let key = seq![s[0].rank()];
        assert(ranks(s) == key + ranks(rest));
        assert(key == Seq::<T::Key>::empty().push(s[0].rank()));
        lemma_multiset_commutative(key, ranks(rest));
        assert(ranks(s).to_multiset() =~= ranks(rest).to_multiset().insert(s[0].rank()));
    }
}

/// Each value of a sequence is one of any other with the same values.
pub proof fn lemma_same_values<T>(a: Seq<T>, b: Seq<T>, i: int)
    requires
        a.to_multiset() == b.to_multiset(),
        0 <= i < a.len(),
    ensures
        exists|j: int| 0 <= j < b.len() && #[trigger] b[j] == a[i],
{
    broadcast use group_to_multiset_ensures;

    assert(a.contains(a[i]));
    assert(a.to_multiset().count(a[i]) > 0);
    assert(b.to_multiset().count(a[i]) > 0);
    assert(b.contains(a[i]));
}

/// The keys of a sorted sequence do not depend on the order in which the values arrived.
pub proof fn law_sorting_ignores_arrival_order<T: Ranked>(a: Seq<T>, b: Seq<T>)
    requires
        ranks(a).to_multiset() == ranks(b).to_multiset(),
    ensures
        ranks(sorted(a)) == ranks(sorted(b)),
{
    law_sorting_orders_and_keeps_every_value(a);
    law_sorting_orders_and_keeps_every_value(b);
    T::rank_order_is_total();
    let le = |x: T::Key, y: T::Key| T::rank_le(x, y);
    let (x, y) = (ranks(sorted(a)), ranks(sorted(b)));
    assert forall|i: int, j: int| 0 <= i < j < x.len() implies #[trigger] le(x[i], x[j]) by {
        assert(x[i] == sorted(a)[i].rank() && x[j] == sorted(a)[j].rank());
    }
    assert forall|i: int, j: int| 0 <= i < j < y.len() implies #[trigger] le(y[i], y[j]) by {
        assert(y[i] == sorted(b)[i].rank() && y[j] == sorted(b)[j].rank());
    }
    lemma_sorted_unique(x, y, le);
}

proof fn lemma_inserted_at<T: Ranked>(s: Seq<T>, x: T, p: int)
    requires
        0 <= p <= s.len(),
        forall|i: int| 0 <= i < p ==> !T::rank_le(x.rank(), (#[trigger] s[i]).rank()),
        p < s.len() ==> T::rank_le(x.rank(), s[p].rank()),
    ensures
        inserted(s, x) == s.insert(p, x),
    decreases s.len(),
{
    if s.len() == 0 {
        assert(inserted(s, x) == s.insert(p, x));
    } else if p == 0 {
        assert(seq![x] + s == s.insert(0, x));
    } else {
        assert(!T::rank_le(x.rank(), s[0].rank()));
        let rest = s.skip(1);
        assert forall|i: int| 0 <= i < p - 1 implies !T::rank_le(
            x.rank(),
            (#[trigger] rest[i]).rank(),
        ) by {
            assert(rest[i] == s[i + 1]);
        }
        lemma_inserted_at(rest, x, p - 1);
        assert(seq![s[0]] + rest.insert(p - 1, x) == s.insert(p, x));
    }
}

/// Sorts by key; values with the same key keep their order.
pub fn stable_sort<T: Ranked>(items: Vec<T>) -> (r: Vec<T>)
    ensures
        r@ == sorted(items@),
{
    let mut items = items;
    let ghost all = items@;
    let mut out: Vec<T> = Vec::new();
    assert(all.skip(all.len() as int) == Seq::<T>::empty());
    while items.len() > 0
        invariant
            items@.len() <= all.len(),
            items@ == all.take(items@.len() as int),
            out@ == sorted(all.skip(items@.len() as int)),
        decreases items.len(),
    {
        let ghost n = items@.len() as int;
        let item = match items.pop() {
            Some(item) => item,
            None => {
                return out;
            },
        };
        let ghost tail = all.skip(n - 1);
        assert(tail.skip(1) == all.skip(n));
        assert(tail[0] == item);
        let mut p: usize = 0;
        while p < out.len() && out[p].precedes(&item)
            invariant
                p <= out.len(),
                forall|i: int|
                    0 <= i < p ==> !T::rank_le(item.rank(), (#[trigger] out@[i]).rank()),
            decreases out.len() - p,
        {
            p += 1;
        }
        proof {
            lemma_inserted_at(out@, item, p as int);
        }
        out.insert(p, item);
    }
    assert(all.skip(0) == all);
    out
}

/// Texts are ordered by their first different character, and a text comes before its extensions.
pub proof fn law_text_order_is_by_characters(a: Seq<char>, b: Seq<char>, k: int)
    requires
        0 <= k <= a.len(),
        k <= b.len(),
        a.take(k) == b.take(k),
    ensures
        k < a.len() && k < b.len() && a[k] < b[k] ==> text_le(a, b) && !text_le(b, a),
        k == a.len() ==> text_le(a, b),
        k == a.len() && k < b.len() ==> !text_le(b, a),
    decreases k,
{
    if k > 0 {
        assert(a.take(k)[0] == a[0]);
        assert(b.take(k)[0] == b[0]);
        let (ra, rb) = (a.skip(1), b.skip(1));
        assert(ra.take(k - 1) == rb.take(k - 1)) by {
            assert(a.take(k).skip(1) == ra.take(k - 1));
            assert(b.take(k).skip(1) == rb.take(k - 1));
        }
        law_text_order_is_by_characters(ra, rb, k - 1);
    }
}

/// Sorting keeps values with the same key in the order in which they came.
pub proof fn law_sorting_keeps_the_order_of_equals<T: Ranked>(s: Seq<T>, key: T::Key)
    ensures
        search::kept(sorted(s), |t: T| t.rank() == key) == search::kept(s, |t: T| t.rank() == key),
    decreases s.len(),
{
    let p = |t: T| t.rank() == key;
    if s.len() > 0 {
        let rest = s.skip(1);
        law_sorting_keeps_the_order_of_equals(rest, key);
        lemma_inserted_keeps_order(sorted(rest), s[0], key);
        assert(s == seq![s[0]] + rest);
        search::lemma_kept_adds_up(seq![s[0]], rest, p);
    }
}

proof fn lemma_inserted_keeps_order<T: Ranked>(s: Seq<T>, x: T, key: T::Key)
    ensures
        search::kept(inserted(s, x), |t: T| t.rank() == key) == search::kept(
            seq![x],
            |t: T| t.rank() == key,
        ) + search::kept(s, |t: T| t.rank() == key),
    decreases s.len(),
{
    let p = |t: T| t.rank() == key;
    let own = search::kept(seq![x], p);
    if s.len() == 0 {
        assert(own + search::kept(s, p) == own);
    } else if !T::rank_le(x.rank(), s[0].rank()) {
        let rest = s.skip(1);
        let first = search::kept(seq![s[0]], p);
        T::rank_order_is_total();
        let le = |a: T::Key, b: T::Key| T::rank_le(a, b);
        assert(le(x.rank(), x.rank()));
        assert(x.rank() != s[0].rank());
        lemma_inserted_keeps_order(rest, x, key);
        search::lemma_kept_adds_up(seq![s[0]], inserted(rest, x), p);
        search::lemma_kept_adds_up(seq![s[0]], rest, p);
        assert(s == seq![s[0]] + rest);
        search::lemma_kept_one(x, p);
        search::lemma_kept_one(s[0], p);
        let others = search::kept(rest, p);
        assert(first + (own + others) == own + (first + others));
    } else {
        search::lemma_kept_adds_up(seq![x], s, p);
    }
}

} // verus!
