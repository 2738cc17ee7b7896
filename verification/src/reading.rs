//! Reading descriptions back: what number, or what word, stands behind a key in a text.
use crate::lan;
use crate::text;
use vstd::prelude::*;

verus! {

/// The number that stands at a position of a text: all of the digits from there on.
pub open spec fn number_at(s: Seq<char>, at: int) -> Option<nat> {
    let rest = s.skip(at);
    let run = text::digit_run(rest);
    if run == 0 {
        None
    } else {
        text::parse_unsigned(rest.take(run as int), u64::MAX as nat)
    }
}

/// The integer that stands at a position of a text, with the sign that may stand before it.
pub open spec fn integer_at(s: Seq<char>, at: int) -> Option<int> {
    if at < s.len() && s[at] == '-' {
        match number_at(s, at + 1) {
            Some(n) => Some(-n),
            None => None,
        }
    } else {
        match number_at(s, at) {
            Some(n) => Some(n as int),
            None => None,
        }
    }
}

/// Whether a number stands behind a key.
pub open spec fn tells(s: Seq<char>, key: Seq<char>, n: nat) -> bool {
    exists|at: int| #[trigger]
        text::occurs_at(s, key, at) && number_at(s, at + key.len()) == Some(n)
}

/// Whether an integer stands behind a key.
pub open spec fn tells_integer(s: Seq<char>, key: Seq<char>, n: int) -> bool {
    exists|at: int| #[trigger]
        text::occurs_at(s, key, at) && integer_at(s, at + key.len()) == Some(n)
}

/// Whether nothing of a number goes on in a text.
pub open spec fn ends_numbers(s: Seq<char>) -> bool {
    s.len() == 0 || !text::is_digit(s[0])
}

pub proof fn lemma_number_at(before: Seq<char>, n: nat, after: Seq<char>)
    requires
        ends_numbers(after),
        n <= u64::MAX,
    ensures
        number_at(before + text::dec(n) + after, before.len() as int) == Some(n),
{
    let s = before + text::dec(n) + after;
    let rest = s.skip(before.len() as int);
    let length = text::dec(n).len() as int;
    text::lemma_dec_digits(n);
    assert(rest == text::dec(n) + after);
    assert(rest.take(length) == text::dec(n));
    text::lemma_digit_run(rest, length);
    text::law_decimal_round_trip(n, u64::MAX as nat);
    if length < rest.len() {
        assert(rest[length] == after[0]);
    }
}

/// A number that is written behind a key is read there.
pub proof fn lemma_tells(before: Seq<char>, key: Seq<char>, n: nat, after: Seq<char>)
    requires
        ends_numbers(after),
        n <= u64::MAX,
    ensures
        tells(before + key + text::dec(n) + after, key, n),
{
    let s = before + key + text::dec(n) + after;
    lemma_number_at(before + key, n, after);
    assert(s.subrange(before.len() as int, (before.len() + key.len()) as int) == key);
    assert(text::occurs_at(s, key, before.len() as int));
}

/// A number that is written behind a text that ends in a key is read there.
pub proof fn lemma_tells_behind(head: Seq<char>, key: Seq<char>, n: nat, after: Seq<char>)
    requires
        text::ends_with(head, key),
        ends_numbers(after),
        n <= u64::MAX,
    ensures
        tells(head + text::dec(n) + after, key, n),
{
    let before = head.take(head.len() - key.len());
    assert(head == before + key);
    lemma_tells(before, key, n, after);
}

/// An integer that is written behind a key is read there.
pub proof fn lemma_tells_integer(before: Seq<char>, key: Seq<char>, n: int, after: Seq<char>)
    requires
        ends_numbers(after),
        -u64::MAX <= n <= u64::MAX,
    ensures
        tells_integer(before + key + text::dec_int(n) + after, key, n),
{
    let s = before + key + text::dec_int(n) + after;
    let at = (before + key).len() as int;
    if n < 0 {
        let signed = before + key + seq!['-'];
        lemma_number_at(signed, (-n) as nat, after);
        assert(s == signed + text::dec((-n) as nat) + after);
        assert(s[at] == '-');
    } else {
        lemma_number_at(before + key, n as nat, after);
        text::lemma_dec_digits(n as nat);
        assert(s[at] == text::dec(n as nat)[0]);
        assert(text::is_digit(text::dec(n as nat)[0]));
    }
    assert(s.subrange(before.len() as int, (before.len() + key.len()) as int) == key);
    assert(text::occurs_at(s, key, before.len() as int));
}

/// What is read in a part of a text is read in the whole.
pub proof fn lemma_tells_within(
    before: Seq<char>,
    part: Seq<char>,
    after: Seq<char>,
    key: Seq<char>,
    n: nat,
)
    requires
        tells(part, key, n),
        ends_numbers(after),
    ensures
        tells(before + part + after, key, n),
{
    let s = before + part + after;
    let at = choose|at: int| #[trigger]
        text::occurs_at(part, key, at) && number_at(part, at + key.len()) == Some(n);
    let rest = part.skip(at + key.len());
    let all = s.skip(before.len() + at + key.len());
    assert(all == rest + after);
    lemma_digit_run_goes_on(rest, after);
    assert(all.take(text::digit_run(rest) as int) == rest.take(text::digit_run(rest) as int));
    assert(s.subrange(before.len() + at, before.len() + at + key.len()) == part.subrange(
        at,
        at + key.len(),
    ));
    assert(text::occurs_at(s, key, before.len() + at));
}

proof fn lemma_digit_run_goes_on(s: Seq<char>, after: Seq<char>)
    requires
        ends_numbers(after),
    ensures
        text::digit_run(s + after) == text::digit_run(s),
        text::digit_run(s) <= s.len(),
    decreases s.len(),
{
    if s.len() == 0 {
        assert(s + after == after);
    } else {
        assert((s + after)[0] == s[0]);
        assert((s + after).skip(1) == s.skip(1) + after);
        lemma_digit_run_goes_on(s.skip(1), after);
    }
}

/// What stands in a part of a text stands in the whole.
pub proof fn lemma_contains_within(
    before: Seq<char>,
    part: Seq<char>,
    after: Seq<char>,
    needle: Seq<char>,
)
    requires
        text::contains(part, needle),
    ensures
        text::contains(before + part + after, needle),
{
    let s = before + part + after;
    let at = choose|at: int| text::occurs_at(part, needle, at);
    assert(s.subrange(before.len() + at, before.len() + at + needle.len()) == part.subrange(
        at,
        at + needle.len(),
    ));
    assert(text::occurs_at(s, needle, before.len() + at));
}

/// A text that goes on starts as it did.
pub proof fn lemma_starts(head: Seq<char>, start: Seq<char>, after: Seq<char>)
    requires
        text::starts_with(head, start),
    ensures
        text::starts_with(head + after, start),
{
    assert((head + after).subrange(0, start.len() as int) == head.subrange(0, start.len() as int));
}

/// A part of a text stands in it.
pub proof fn lemma_contains(before: Seq<char>, part: Seq<char>, after: Seq<char>)
    ensures
        text::contains(before + part + after, part),
{
    let s = before + part + after;
    assert(s.subrange(before.len() as int, (before.len() + part.len()) as int) == part);
    assert(text::occurs_at(s, part, before.len() as int));
}

/// Parts of a text, one behind the other.
pub open spec fn cat(parts: Seq<Seq<char>>) -> Seq<char>
    decreases parts.len(),
{
    if parts.len() == 0 {
        Seq::empty()
    } else {
        cat(parts.drop_last()) + parts.last()
    }
}

pub proof fn lemma_cat_push()
    ensures
        cat(Seq::empty()) == Seq::<char>::empty(),
        forall|parts: Seq<Seq<char>>, part: Seq<char>| #[trigger]
            cat(parts.push(part)) == cat(parts) + part,
        forall|part: Seq<char>| #[trigger] (Seq::<char>::empty() + part) == part,
{
    assert forall|parts: Seq<Seq<char>>, part: Seq<char>| #[trigger]
        cat(parts.push(part)) == cat(parts) + part by {
        assert(parts.push(part).drop_last() == parts);
    }
    assert forall|part: Seq<char>| #[trigger] (Seq::<char>::empty() + part) == part by {
        assert(Seq::<char>::empty() + part =~= part);
    }
}

pub proof fn lemma_cat_at(parts: Seq<Seq<char>>, k: int)
    requires
        0 <= k < parts.len(),
    ensures
        cat(parts) == cat(parts.take(k)) + parts[k] + cat(parts.skip(k + 1)),
        k > 0 ==> cat(parts.take(k)) == cat(parts.take(k - 1)) + parts[k - 1],
    decreases parts.len(),
{
    let rest = parts.drop_last();
    if k > 0 {
        assert(parts.take(k).drop_last() == parts.take(k - 1));
    }
    if k + 1 == parts.len() {
        assert(rest == parts.take(k));
        assert(parts.skip(k + 1) == Seq::<Seq<char>>::empty());
    } else {
        lemma_cat_at(rest, k);
        assert(rest.take(k) == parts.take(k));
        assert(parts.skip(k + 1).drop_last() == rest.skip(k + 1));
        assert(parts.skip(k + 1).last() == parts.last());
    }
}

proof fn lemma_cat_first(parts: Seq<Seq<char>>)
    requires
        parts.len() > 0,
        parts[0].len() > 0,
    ensures
        cat(parts).len() > 0,
        cat(parts)[0] == parts[0][0],
{
    lemma_cat_at(parts, 0);
    assert(parts.take(0) == Seq::<Seq<char>>::empty());
}

/// Whether a part of a text is not followed by a digit.
pub open spec fn ends_at(parts: Seq<Seq<char>>, k: int) -> bool {
    k + 1 == parts.len() || (parts[k + 1].len() > 0 && !text::is_digit(parts[k + 1][0]))
}

proof fn lemma_ends_at(parts: Seq<Seq<char>>, k: int)
    requires
        0 <= k < parts.len(),
        ends_at(parts, k),
    ensures
        ends_numbers(cat(parts.skip(k + 1))),
{
    if k + 1 == parts.len() {
        assert(parts.skip(k + 1) == Seq::<Seq<char>>::empty());
    } else {
        assert(parts.skip(k + 1)[0] == parts[k + 1]);
        lemma_cat_first(parts.skip(k + 1));
    }
}

proof fn lemma_ends_behind(before: Seq<char>, tail: Seq<char>, end: Seq<char>)
    requires
        text::ends_with(tail, end),
    ensures
        text::ends_with(before + tail, end),
{
    let s = before + tail;
    assert(s.subrange(s.len() - end.len(), s.len() as int) == tail.subrange(
        tail.len() - end.len(),
        tail.len() as int,
    ));
}

/// A part that is a number is read where it begins.
pub proof fn lemma_part_number(parts: Seq<Seq<char>>, k: int, n: nat)
    requires
        0 <= k < parts.len(),
        parts[k] == text::dec(n),
        n <= u64::MAX,
        ends_at(parts, k),
    ensures
        number_at(cat(parts), cat(parts.take(k)).len() as int) == Some(n),
{
    lemma_cat_at(parts, k);
    lemma_ends_at(parts, k);
    lemma_number_at(cat(parts.take(k)), n, cat(parts.skip(k + 1)));
}

/// A part that is a number is read behind the key that the part before it ends in.
pub proof fn lemma_part_tells(parts: Seq<Seq<char>>, k: int, key: Seq<char>, n: nat)
    requires
        1 <= k < parts.len(),
        parts[k] == text::dec(n),
        n <= u64::MAX,
        text::ends_with(parts[k - 1], key),
        ends_at(parts, k),
    ensures
        tells(cat(parts), key, n),
{
    lemma_cat_at(parts, k);
    lemma_ends_at(parts, k);
    lemma_ends_behind(cat(parts.take(k - 1)), parts[k - 1], key);
    lemma_tells_behind(cat(parts.take(k)), key, n, cat(parts.skip(k + 1)));
}

/// A part that is an integer is read behind the key that the part before it ends in.
pub proof fn lemma_part_tells_integer(parts: Seq<Seq<char>>, k: int, key: Seq<char>, n: int)
    requires
        1 <= k < parts.len(),
        parts[k] == text::dec_int(n),
        -u64::MAX <= n <= u64::MAX,
        text::ends_with(parts[k - 1], key),
        ends_at(parts, k),
    ensures
        tells_integer(cat(parts), key, n),
{
    lemma_cat_at(parts, k);
    lemma_ends_at(parts, k);
    lemma_ends_behind(cat(parts.take(k - 1)), parts[k - 1], key);
    let head = cat(parts.take(k));
    let before = head.take(head.len() - key.len());
    assert(head == before + key);
    lemma_tells_integer(before, key, n, cat(parts.skip(k + 1)));
}

/// What is read in a part is read in the whole.
pub proof fn lemma_part_within(parts: Seq<Seq<char>>, k: int, key: Seq<char>, n: nat)
    requires
        0 <= k < parts.len(),
        tells(parts[k], key, n),
        ends_at(parts, k),
    ensures
        tells(cat(parts), key, n),
{
    lemma_cat_at(parts, k);
    lemma_ends_at(parts, k);
    lemma_tells_within(cat(parts.take(k)), parts[k], cat(parts.skip(k + 1)), key, n);
}

/// What stands in a part stands in the whole.
pub proof fn lemma_part_contains(parts: Seq<Seq<char>>, k: int, needle: Seq<char>)
    requires
        0 <= k < parts.len(),
        text::contains(parts[k], needle),
    ensures
        text::contains(cat(parts), needle),
{
    lemma_cat_at(parts, k);
    lemma_contains_within(cat(parts.take(k)), parts[k], cat(parts.skip(k + 1)), needle);
}

/// A part stands behind the key that the part before it ends in.
pub proof fn lemma_part_behind(parts: Seq<Seq<char>>, k: int, key: Seq<char>)
    requires
        1 <= k < parts.len(),
        text::ends_with(parts[k - 1], key),
    ensures
        text::contains(cat(parts), key + parts[k]),
{
    lemma_cat_at(parts, k);
    lemma_ends_behind(cat(parts.take(k - 1)), parts[k - 1], key);
    let head = cat(parts.take(k));
    let before = head.take(head.len() - key.len());
    let after = cat(parts.skip(k + 1));
    assert(head == before + key);
    assert(before + key + parts[k] + after == before + (key + parts[k]) + after);
    lemma_contains(before, key + parts[k], after);
}

/// A text starts with its first part and ends with its last one.
pub proof fn lemma_cat_ends(parts: Seq<Seq<char>>)
    requires
        parts.len() > 0,
    ensures
        text::starts_with(cat(parts), parts[0]),
        text::ends_with(cat(parts), parts.last()),
{
    lemma_cat_at(parts, 0);
    assert(parts.take(0) == Seq::<Seq<char>>::empty());
    let s = cat(parts);
    assert(s.subrange(0, parts[0].len() as int) == parts[0]);
    assert(s.subrange(s.len() - parts.last().len(), s.len() as int) == parts.last());
}

/// A text without a separator is its own only piece.
pub proof fn lemma_split_whole(s: Seq<char>, separator: char)
    requires
        lan::lacks(s, separator),
    ensures
        text::split(s, separator) == seq![s],
    decreases s.len(),
{
    if s.len() > 0 {
        let rest = s.drop_last();
        assert(lan::lacks(rest, separator)) by {
            assert forall|i: int| 0 <= i < rest.len() implies #[trigger] rest[i] != separator by {
                assert(rest[i] == s[i]);
            }
        }
        lemma_split_whole(rest, separator);
        assert(s[s.len() - 1] != separator);
        assert(rest.push(s.last()) == s);
        assert(seq![rest].drop_last().push(rest.push(s.last())) == seq![s]);
    }
}

/// A text is split into the pieces of its halves at a separator between them.
pub proof fn lemma_split_at(a: Seq<char>, separator: char, b: Seq<char>)
    ensures
        text::split(a + seq![separator] + b, separator) == text::split(a, separator) + text::split(
            b,
            separator,
        ),
        text::split(a, separator).len() > 0,
    decreases b.len(),
{
    let s = a + seq![separator] + b;
    lemma_split_some(a, separator);
    lemma_split_some(b, separator);
    if b.len() == 0 {
        assert(b == Seq::<char>::empty());
        assert(s.drop_last() == a);
        assert(s.last() == separator);
        assert(text::split(a, separator).push(Seq::empty()) == text::split(a, separator) + seq![b]);
    } else {
        let rest = b.drop_last();
        lemma_split_at(a, separator, rest);
        lemma_split_some(rest, separator);
        assert(s.drop_last() == a + seq![separator] + rest);
        assert(s.last() == b.last());
        let (left, right) = (text::split(a, separator), text::split(rest, separator));
        let before = left + right;
        assert(before.last() == right.last());
        assert(before.drop_last() == left + right.drop_last());
        if b.last() == separator {
            assert(before.push(Seq::empty()) == left + right.push(Seq::empty()));
        } else {
            let piece = right.last().push(b.last());
            assert(before.drop_last().push(piece) == left + right.drop_last().push(piece));
        }
    }
}

proof fn lemma_split_some(s: Seq<char>, separator: char)
    ensures
        text::split(s, separator).len() > 0,
    decreases s.len(),
{
    if s.len() > 0 {
        lemma_split_some(s.drop_last(), separator);
    }
}

/// No piece of a text holds the separator.
pub proof fn lemma_split_pieces(s: Seq<char>, separator: char)
    ensures
        forall|i: int|
            0 <= i < text::split(s, separator).len() ==> lan::lacks(
                #[trigger] text::split(s, separator)[i],
                separator,
            ),
    decreases s.len(),
{
    if s.len() > 0 {
        let before = text::split(s.drop_last(), separator);
        lemma_split_pieces(s.drop_last(), separator);
        lemma_split_some(s.drop_last(), separator);
        assert(lan::lacks(before[before.len() - 1], separator));
    }
}

/// Texts that are joined by a separator that none of them holds are its pieces.
pub proof fn lemma_split_joined(list: Seq<Seq<char>>, separator: char)
    requires
        list.len() > 0,
        forall|i: int| 0 <= i < list.len() ==> lan::lacks(#[trigger] list[i], separator),
    ensures
        text::split(text::join(list, seq![separator]), separator) == list,
    decreases list.len(),
{
    lemma_split_whole(list.last(), separator);
    if list.len() == 1 {
        assert(seq![list[0]] == list);
    } else {
        let rest = list.drop_last();
        assert forall|i: int| 0 <= i < rest.len() implies lan::lacks(
            #[trigger] rest[i],
            separator,
        ) by {
            assert(rest[i] == list[i]);
        }
        lemma_split_joined(rest, separator);
        lemma_split_at(text::join(rest, seq![separator]), separator, list.last());
        assert(rest + seq![list.last()] == list);
    }
}

/// Which texts are put together first makes no difference.
pub proof fn lemma_grouping(a: Seq<char>, b: Seq<char>, c: Seq<char>)
    ensures
        a + b + c == a + (b + c),
        a + Seq::<char>::empty() == a,
{
    assert(a + b + c =~= a + (b + c));
    assert(a + Seq::<char>::empty() =~= a);
}

/// Three parts in a row stand in the whole as one.
pub proof fn lemma_parts_in_a_row(parts: Seq<Seq<char>>, k: int)
    requires
        0 <= k,
        k + 2 < parts.len(),
    ensures
        text::contains(cat(parts), parts[k] + parts[k + 1] + parts[k + 2]),
{
    lemma_cat_at(parts, k + 2);
    let upto = parts.take(k + 2);
    lemma_cat_at(upto, k + 1);
    assert(upto.take(k + 1).drop_last() == parts.take(k));
    assert(upto.take(k + 1) == parts.take(k + 1));
    assert(parts.take(k + 1).drop_last() == parts.take(k));
    assert(parts.take(k + 1).last() == parts[k]);
    let before = cat(parts.take(k));
    let (a, b, c) = (parts[k], parts[k + 1], parts[k + 2]);
    let after = cat(parts.skip(k + 3));
    assert(cat(parts.take(k + 1)) == before + a);
    assert(cat(parts) == before + a + b + c + after);
    lemma_grouping(before + a, b, c);
    lemma_grouping(before, a, b + c);
    lemma_grouping(a, b, c);
    lemma_contains(before, a + b + c, after);
}

} // verus!
