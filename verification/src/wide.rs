//! UTF-16 text as the Windows API takes it and hands it out.
use crate::text;
use vstd::prelude::*;

verus! {

/// Whether a number is a Unicode scalar value.
pub open spec fn is_scalar(n: u32) -> bool {
    n < 0xD800 || 0xE000 <= n <= 0x10_FFFF
}

/// `char::from_u32`: the character with a code point, for every number that is the code point of
/// a character.
pub assume_specification[ char::from_u32 ](n: u32) -> (r: Option<char>)
    ensures
        match r {
            Some(c) => is_scalar(n) && c as u32 == n,
            None => !is_scalar(n),
        },
;

/// Every character is a scalar value, and is the character of its code point.
proof fn lemma_char_is_scalar(c: char)
    ensures
        is_scalar(c as u32),
        (c as u32) as char == c,
{
}

/// The code units of one character.
pub open spec fn units_of(c: char) -> Seq<u16> {
    let n = c as u32;
    if n < 0x1_0000 {
        seq![n as u16]
    } else {
        seq![(0xD800 + (n - 0x1_0000) / 0x400) as u16, (0xDC00 + (n - 0x1_0000) % 0x400) as u16]
    }
}

/// The code units of a text.
pub open spec fn utf16(s: Seq<char>) -> Seq<u16>
    decreases s.len(),
{
    if s.len() == 0 {
        Seq::empty()
    } else {
        utf16(s.drop_last()) + units_of(s.last())
    }
}

/// The text as UTF-16 with a terminating NUL.
pub fn to_wide(value: &str) -> (r: Vec<u16>)
    ensures
        r@ == utf16(value@).push(0),
{
    let chars = text::chars_of(value);
    let mut out: Vec<u16> = Vec::new();
    let mut i: usize = 0;
    while i < chars.len()
        invariant
            i <= chars.len(),
            out@ == utf16(chars@.take(i as int)),
        decreases chars.len() - i,
    {
        assert(chars@.take(i + 1).drop_last() == chars@.take(i as int));
        let ghost before = out@;
        let n: u32 = chars[i] as u32;
        proof {
            lemma_char_is_scalar(chars@[i as int]);
        }
        if n < 0x1_0000 {
            out.push(n as u16);
            assert(out@ == before + units_of(chars@[i as int]));
        } else {
            let rest: u32 = n - 0x1_0000;
            out.push((0xD800 + rest / 0x400) as u16);
            out.push((0xDC00 + rest % 0x400) as u16);
            assert(out@ == before + units_of(chars@[i as int]));
        }
        i += 1;
    }
    assert(chars@.take(chars@.len() as int) == chars@);
    out.push(0);
    out
}

pub open spec fn is_high(unit: u16) -> bool {
    0xD800 <= unit < 0xDC00
}

pub open spec fn is_low(unit: u16) -> bool {
    0xDC00 <= unit < 0xE000
}

/// The character that a pair of surrogates stands for.
pub open spec fn paired(high: u16, low: u16) -> char {
    ((0x1_0000 + (high - 0xD800) * 0x400 + (low - 0xDC00)) as u32) as char
}

/// The text that code units stand for; each unit that belongs to no character becomes U+FFFD.
pub open spec fn decoded(units: Seq<u16>) -> Seq<char>
    decreases units.len(),
{
    if units.len() == 0 {
        Seq::empty()
    } else if !is_high(units[0]) && !is_low(units[0]) {
        seq![(units[0] as u32) as char] + decoded(units.skip(1))
    } else if is_high(units[0]) && units.len() > 1 && is_low(units[1]) {
        seq![paired(units[0], units[1])] + decoded(units.skip(2))
    } else {
        seq!['\u{FFFD}'] + decoded(units.skip(1))
    }
}

/// Decodes UTF-16, with replacement characters in place of lone surrogates.
pub fn from_wide(units: &[u16]) -> (r: String)
    ensures
        r@ == decoded(units@),
{
    let mut out = String::new();
    let mut i: usize = 0;
    assert(units@.skip(0) == units@);
    while i < units.len()
        invariant
            i <= units.len(),
            out@ + decoded(units@.skip(i as int)) == decoded(units@),
        decreases units.len() - i,
    {
        let unit: u32 = units[i] as u32;
        let ghost rest = units@.skip(i as int);
        let ghost before = out@;
        assert(rest.skip(1) == units@.skip(i + 1));
        if i + 1 < units.len() {
            assert(rest[1] == units@[i + 1]);
            assert(rest.skip(2) == units@.skip(i + 2));
        }
        if unit < 0xD800 || 0xE000 <= unit {
            match char::from_u32(unit) {
                Some(c) => {
                    proof {
                        lemma_char_is_scalar(c);
                    }
                    out.push(c);
                },
                None => {
                    assert(false);
                },
            }
            assert(out@ + decoded(units@.skip(i + 1)) == before + decoded(rest));
            i += 1;
        } else if unit < 0xDC00 && i + 1 < units.len() && 0xDC00 <= units[i + 1] && units[i + 1]
            < 0xE000 {
            let low: u32 = units[i + 1] as u32;
            match char::from_u32(0x1_0000 + (unit - 0xD800) * 0x400 + (low - 0xDC00)) {
                Some(c) => {
                    proof {
                        lemma_char_is_scalar(c);
                    }
                    out.push(c);
                },
                None => {
                    assert(false);
                },
            }
            assert(out@ + decoded(units@.skip(i + 2)) == before + decoded(rest));
            i += 2;
        } else {
            out.push('\u{FFFD}');
            assert(out@ + decoded(units@.skip(i + 1)) == before + decoded(rest));
            i += 1;
        }
    }
    assert(units@.skip(units@.len() as int) == Seq::<u16>::empty());
    assert(out@ + Seq::<char>::empty() == out@);
    out
}

/// The units before the first NUL, or all of them.
pub open spec fn until_nul(units: Seq<u16>) -> Seq<u16>
    decreases units.len(),
{
    if units.len() == 0 || units[0] == 0 {
        Seq::empty()
    } else {
        seq![units[0]] + until_nul(units.skip(1))
    }
}

/// Reads a fixed buffer that holds a text and a terminating NUL.
pub fn wide_array_to_string(buffer: &[u16]) -> (r: String)
    ensures
        r@ == decoded(until_nul(buffer@)),
{
    let mut units: Vec<u16> = Vec::new();
    let mut i: usize = 0;
    assert(buffer@.skip(0) == buffer@);
    while i < buffer.len() && buffer[i] != 0
        invariant
            i <= buffer.len(),
            units@ + until_nul(buffer@.skip(i as int)) == until_nul(buffer@),
        decreases buffer.len() - i,
    {
        let ghost before = units@;
        let ghost rest = buffer@.skip(i as int);
        assert(rest.skip(1) == buffer@.skip(i + 1));
        units.push(buffer[i]);
        assert(units@ + until_nul(rest.skip(1)) == before + until_nul(rest));
        i += 1;
    }
    assert(until_nul(buffer@.skip(i as int)) == Seq::<u16>::empty());
    assert(units@ + Seq::<u16>::empty() == units@);
    from_wide(&units)
}

proof fn lemma_decoded_prefix(s: Seq<char>, rest: Seq<u16>)
    ensures
        decoded(utf16(s) + rest) == s + decoded(rest),
    decreases s.len(),
{
    if s.len() == 0 {
        assert(utf16(s) + rest == rest);
        assert(s + decoded(rest) == decoded(rest));
    } else {
        let c = s.last();
        let tail = units_of(c) + rest;
        lemma_decoded_prefix(s.drop_last(), tail);
        assert(utf16(s) + rest == utf16(s.drop_last()) + tail);
        assert(decoded(tail) == seq![c] + decoded(rest)) by {
            lemma_char_is_scalar(c);
            if (c as u32) < 0x1_0000 {
                assert(tail.skip(1) == rest);
            } else {
                assert(tail.skip(2) == rest);
                assert(is_high(tail[0]) && is_low(tail[1]));
                assert(paired(tail[0], tail[1]) == c);
            }
        }
        assert(s.drop_last() + (seq![c] + decoded(rest)) == s + decoded(rest));
    }
}

proof fn lemma_until_nul_of_text(s: Seq<char>, rest: Seq<u16>)
    requires
        !s.contains('\0'),
    ensures
        until_nul(utf16(s) + rest) == utf16(s) + until_nul(rest),
    decreases s.len(),
{
    if s.len() == 0 {
        assert(utf16(s) + rest == rest);
        assert(utf16(s) + until_nul(rest) == until_nul(rest));
    } else {
        let c = s.last();
        let before = s.drop_last();
        assert(c != '\0') by {
            assert(s.contains(c));
        }
        assert(!before.contains('\0')) by {
            if before.contains('\0') {
                let k = choose|k: int| 0 <= k < before.len() && before[k] == '\0';
                assert(s[k] == '\0');
            }
        }
        let units = units_of(c);
        let tail = units + rest;
        lemma_until_nul_of_text(before, tail);
        assert(utf16(s) + rest == utf16(before) + tail);
        assert(until_nul(tail) == units + until_nul(rest)) by {
            reveal_with_fuel(until_nul, 3);
            lemma_char_is_scalar(c);
            if (c as u32) < 0x1_0000 {
                assert(tail.skip(1) == rest);
                assert(seq![tail[0]] + until_nul(rest) == units + until_nul(rest));
            } else {
                let second = tail.skip(1);
                assert(second.skip(1) == rest);
                assert(second[0] == tail[1]);
                assert(seq![tail[0]] + (seq![tail[1]] + until_nul(rest)) == units + until_nul(
                    rest,
                ));
            }
        }
        assert(utf16(before) + (units + until_nul(rest)) == utf16(s) + until_nul(rest));
    }
}

/// A text without a NUL comes back from a NUL-terminated UTF-16 buffer as it was, whatever follows
/// the NUL.
pub proof fn law_wide_text_round_trip(s: Seq<char>, rest: Seq<u16>)
    requires
        !s.contains('\0'),
    ensures
        decoded(until_nul(utf16(s).push(0) + rest)) == s,
{
    let tail = seq![0u16] + rest;
    assert(utf16(s).push(0) + rest == utf16(s) + tail);
    lemma_until_nul_of_text(s, tail);
    assert(until_nul(tail) == Seq::<u16>::empty());
    lemma_decoded_prefix(s, Seq::empty());
    assert(s + decoded(Seq::empty()) == s);
}

/// A character below U+10000 is one unit, its own number. Any other is a high and a low surrogate,
/// with ten bits in each of what it has beyond that.
pub proof fn law_code_units_of_a_character(c: char)
    ensures
        (c as u32) < 0x1_0000 ==> units_of(c).len() == 1 && units_of(c)[0] == c as u32,
        (c as u32) >= 0x1_0000 ==> {
            let units = units_of(c);
            &&& units.len() == 2
            &&& 0xD800 <= units[0] <= 0xDBFF
            &&& 0xDC00 <= units[1] <= 0xDFFF
            &&& c as u32 == 0x1_0000 + (units[0] - 0xD800) * 0x400 + (units[1] - 0xDC00)
        },
{
}

/// A surrogate that belongs to no pair becomes one replacement character, and what follows it is
/// read on its own.
pub proof fn law_lone_surrogates_are_replaced(unit: u16, rest: Seq<u16>)
    requires
        0xD800 <= unit <= 0xDFFF,
        unit >= 0xDC00 || rest.len() == 0 || !(0xDC00 <= rest[0] <= 0xDFFF),
    ensures
        decoded(seq![unit] + rest) == seq!['\u{FFFD}'] + decoded(rest),
{
    let units = seq![unit] + rest;
    assert(units.skip(1) == rest);
    assert(rest.len() > 0 ==> units[1] == rest[0]);
}

/// No character but NUL has a unit that is zero.
pub proof fn lemma_units_are_not_zero(id: Seq<char>)
    requires
        !id.contains('\0'),
    ensures
        forall|k: int| 0 <= k < utf16(id).len() ==> #[trigger] utf16(id)[k] != 0,
        id.len() > 0 ==> utf16(id).len() > 0,
    decreases id.len(),
{
    if id.len() > 0 {
        let rest = id.drop_last();
        let c = id.last();
        assert(!rest.contains('\0')) by {
            if rest.contains('\0') {
                let k = choose|k: int| 0 <= k < rest.len() && rest[k] == '\0';
                assert(id[k] == '\0');
            }
        }
        assert(id[id.len() - 1] == c);
        assert(id.contains(c));
        lemma_char_is_scalar(c);
        lemma_units_are_not_zero(rest);
        law_code_units_of_a_character(c);
        let before = utf16(rest);
        let all = utf16(id);
        assert forall|k: int| 0 <= k < all.len() implies #[trigger] all[k] != 0 by {
            if k < before.len() {
                assert(all[k] == before[k]);
            } else {
                assert(all[k] == units_of(c)[k - before.len()]);
            }
        }
    }
}

} // verus!
