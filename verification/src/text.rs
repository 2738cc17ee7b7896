//! Text primitives shared by the whole crate, stated over sequences of characters.

use vstd::prelude::*;

verus! {

/// `String::push` appends the given character to the end of the string.
pub assume_specification[ String::push ](s: &mut String, c: char)
    ensures
        final(s)@ == old(s)@.push(c),
;

/// `String::push_str` appends the given string slice onto the end of the string.
pub assume_specification[ String::push_str ](s: &mut String, other: &str)
    ensures
        final(s)@ == old(s)@ + other@,
;

/// The characters of a string slice, in order.
pub fn chars_of(s: &str) -> (r: Vec<char>)
    ensures
        r@ == s@,
{
    let mut out: Vec<char> = Vec::new();
    for c in it: s.chars()
        invariant
            it.seq() == s@,
            out@ == s@.take(it.index()),
    {
        out.push(c);
        assert(s@.take(it.index() + 1) == s@.take(it.index()).push(c));
    }
    assert(s@.take(s@.len() as int) == s@);
    out
}

/// The string made of the given characters.
pub fn string_of(chars: &[char]) -> (r: String)
    ensures
        r@ == chars@,
{
    let mut out = String::new();
    let mut i: usize = 0;
    while i < chars.len()
        invariant
            i <= chars.len(),
            out@ == chars@.take(i as int),
        decreases chars.len() - i,
    {
        out.push(chars[i]);
        assert(chars@.take(i + 1) == chars@.take(i as int).push(chars@[i as int]));
        i += 1;
    }
    assert(chars@.take(chars@.len() as int) == chars@);
    out
}

/// Whether a character is white space in the Unicode sense (`White_Space`).
pub open spec fn is_space(c: char) -> bool {
    let n = c as u32;
    ||| 0x9 <= n <= 0xD
    ||| n == 0x20
    ||| n == 0x85
    ||| n == 0xA0
    ||| n == 0x1680
    ||| 0x2000 <= n <= 0x200A
    ||| n == 0x2028
    ||| n == 0x2029
    ||| n == 0x202F
    ||| n == 0x205F
    ||| n == 0x3000
}

/// Tests a character for Unicode white space.
pub fn is_space_char(c: char) -> (r: bool)
    ensures
        r == is_space(c),
{
    let n: u32 = c as u32;
    (0x9 <= n && n <= 0xD) || n == 0x20 || n == 0x85 || n == 0xA0 || n == 0x1680 || (0x2000 <= n
        && n <= 0x200A) || n == 0x2028 || n == 0x2029 || n == 0x202F || n == 0x205F || n == 0x3000
}

/// The text without its leading white space.
pub open spec fn trim_start(s: Seq<char>) -> Seq<char>
    decreases s.len(),
{
    if s.len() > 0 && is_space(s[0]) {
        trim_start(s.skip(1))
    } else {
        s
    }
}

/// The text without its trailing white space.
pub open spec fn trim_end(s: Seq<char>) -> Seq<char>
    decreases s.len(),
{
    if s.len() > 0 && is_space(s.last()) {
        trim_end(s.drop_last())
    } else {
        s
    }
}

/// The text without white space at either end.
pub open spec fn trim(s: Seq<char>) -> Seq<char> {
    trim_end(trim_start(s))
}

/// Removes white space from both ends of a slice of characters.
pub fn trim_chars(chars: &[char]) -> (r: Vec<char>)
    ensures
        r@ == trim(chars@),
{
    let mut start: usize = 0;
    assert(chars@.skip(0) == chars@);
    while start < chars.len() && is_space_char(chars[start])
        invariant
            start <= chars.len(),
            trim_start(chars@.skip(start as int)) == trim_start(chars@),
        decreases chars.len() - start,
    {
        assert(chars@.skip(start as int).skip(1) == chars@.skip(start + 1));
        start += 1;
    }
    let ghost body = chars@.skip(start as int);
    assert(trim_start(body) == body);
    let mut end: usize = chars.len();
    assert(chars@.subrange(start as int, end as int) == body);
    while end > start && is_space_char(chars[end - 1])
        invariant
            start <= end <= chars.len(),
            body == chars@.skip(start as int),
            trim_end(chars@.subrange(start as int, end as int)) == trim_end(body),
        decreases end,
    {
        assert(chars@.subrange(start as int, end as int).drop_last() == chars@.subrange(
            start as int,
            end - 1,
        ));
        end -= 1;
    }
    let ghost kept = chars@.subrange(start as int, end as int);
    assert(trim_end(kept) == kept);
    copy_range(chars, start, end)
}

/// Trims a string slice and hands back its characters.
pub fn trimmed(s: &str) -> (r: Vec<char>)
    ensures
        r@ == trim(s@),
{
    let chars = chars_of(s);
    trim_chars(&chars)
}

/// Copies the characters from index `from` up to index `to`.
pub fn copy_range(chars: &[char], from: usize, to: usize) -> (r: Vec<char>)
    requires
        from <= to <= chars@.len(),
    ensures
        r@ == chars@.subrange(from as int, to as int),
{
    let mut out: Vec<char> = Vec::new();
    let mut i: usize = from;
    while i < to
        invariant
            from <= i <= to <= chars@.len(),
            out@ == chars@.subrange(from as int, i as int),
        decreases to - i,
    {
        out.push(chars[i]);
        assert(chars@.subrange(from as int, i + 1) == chars@.subrange(from as int, i as int).push(
            chars@[i as int],
        ));
        i += 1;
    }
    out
}

/// The ASCII lower case form of a character; every other character stays as it is.
pub open spec fn lower_char(c: char) -> char {
    if 'A' <= c <= 'Z' {
        ((c as u8) + 32) as char
    } else {
        c
    }
}

/// The text with its ASCII letters in lower case.
pub open spec fn lower(s: Seq<char>) -> Seq<char> {
    Seq::new(s.len(), |i: int| lower_char(s[i]))
}

/// Maps one character to ASCII lower case.
pub fn to_lower_char(c: char) -> (r: char)
    ensures
        r == lower_char(c),
{
    if 'A' <= c && c <= 'Z' {
        ((c as u8) + 32) as char
    } else {
        c
    }
}

/// Maps every ASCII letter to lower case.
pub fn lowered(chars: &[char]) -> (r: Vec<char>)
    ensures
        r@ == lower(chars@),
{
    let mut out: Vec<char> = Vec::new();
    let mut i: usize = 0;
    while i < chars.len()
        invariant
            i <= chars.len(),
            out@.len() == i,
            forall|k: int| 0 <= k < i ==> out@[k] == lower_char(chars@[k]),
        decreases chars.len() - i,
    {
        out.push(to_lower_char(chars[i]));
        i += 1;
    }
    assert(out@ == lower(chars@));
    out
}

/// Whether two texts are equal once ASCII case is ignored.
pub open spec fn same_ignoring_case(a: Seq<char>, b: Seq<char>) -> bool {
    lower(a) == lower(b)
}

/// Compares two slices of characters for equality.
pub fn chars_equal(a: &[char], b: &[char]) -> (r: bool)
    ensures
        r == (a@ == b@),
{
    if a.len() != b.len() {
        return false;
    }
    let mut i: usize = 0;
    while i < a.len()
        invariant
            i <= a.len(),
            a.len() == b.len(),
            forall|k: int| 0 <= k < i ==> a@[k] == b@[k],
        decreases a.len() - i,
    {
        if a[i] != b[i] {
            return false;
        }
        i += 1;
    }
    assert(a@ == b@);
    true
}

/// Compares two string slices for equality.
pub fn str_equal(a: &str, b: &str) -> (r: bool)
    ensures
        r == (a@ == b@),
{
    let left = chars_of(a);
    let right = chars_of(b);
    chars_equal(&left, &right)
}

/// Compares two string slices, ignoring ASCII case.
pub fn equal_ignoring_case(a: &str, b: &str) -> (r: bool)
    ensures
        r == same_ignoring_case(a@, b@),
{
    let left = chars_of(a);
    let right = chars_of(b);
    let left = lowered(&left);
    let right = lowered(&right);
    chars_equal(&left, &right)
}

/// Whether `needle` stands in `hay` at position `at`.
pub open spec fn occurs_at(hay: Seq<char>, needle: Seq<char>, at: int) -> bool {
    &&& 0 <= at
    &&& at + needle.len() <= hay.len()
    &&& hay.subrange(at, at + needle.len()) == needle
}

/// Whether `needle` stands anywhere in `hay`.
pub open spec fn contains(hay: Seq<char>, needle: Seq<char>) -> bool {
    exists|at: int| occurs_at(hay, needle, at)
}

/// Whether `at` is the first position, from `from` on, at which `needle` stands in `hay`.
pub open spec fn first_at(hay: Seq<char>, needle: Seq<char>, from: int, at: int) -> bool {
    &&& from <= at
    &&& occurs_at(hay, needle, at)
    &&& forall|k: int| from <= k < at ==> !occurs_at(hay, needle, k)
}

/// The first position, from `from` on, at which `needle` stands in `hay`.
pub open spec fn position(hay: Seq<char>, needle: Seq<char>, from: int) -> Option<int>
    decreases hay.len() - needle.len() - from + 1,
{
    if from + needle.len() > hay.len() {
        None
    } else if occurs_at(hay, needle, from) {
        Some(from)
    } else {
        position(hay, needle, from + 1)
    }
}

/// The first occurrence is where nothing stands before it.
pub proof fn lemma_position(hay: Seq<char>, needle: Seq<char>, from: int)
    requires
        0 <= from,
    ensures
        match position(hay, needle, from) {
            Some(at) => first_at(hay, needle, from, at),
            None => forall|k: int| from <= k ==> !occurs_at(hay, needle, k),
        },
    decreases hay.len() - needle.len() - from + 1,
{
    if from + needle.len() <= hay.len() && !occurs_at(hay, needle, from) {
        lemma_position(hay, needle, from + 1);
    }
}

/// A first occurrence is the one that is found.
pub proof fn lemma_first_is_position(hay: Seq<char>, needle: Seq<char>, from: int, at: int)
    requires
        0 <= from,
        first_at(hay, needle, from, at),
    ensures
        position(hay, needle, from) == Some(at),
{
    lemma_position(hay, needle, from);
    match position(hay, needle, from) {
        Some(found) => {
            if found < at {
                assert(!occurs_at(hay, needle, found));
            } else if at < found {
                assert(!occurs_at(hay, needle, at));
            }
        },
        None => {},
    }
}

/// Tests whether `needle` stands in `hay` at one position.
pub fn matches_at(hay: &[char], needle: &[char], at: usize) -> (r: bool)
    ensures
        r == occurs_at(hay@, needle@, at as int),
{
    if hay.len() < needle.len() || at > hay.len() - needle.len() {
        return false;
    }
    let mut i: usize = 0;
    while i < needle.len()
        invariant
            i <= needle.len(),
            at + needle.len() <= hay.len(),
            forall|k: int| 0 <= k < i ==> hay@[at + k] == needle@[k],
        decreases needle.len() - i,
    {
        if hay[at + i] != needle[i] {
            assert(hay@.subrange(at as int, at + needle@.len())[i as int] == hay@[at + i]);
            return false;
        }
        i += 1;
    }
    assert(hay@.subrange(at as int, at + needle@.len()) == needle@);
    true
}

/// Finds the first position, from `from` on, at which `needle` stands in `hay`.
pub fn find_from(hay: &[char], needle: &[char], from: usize) -> (r: Option<usize>)
    ensures
        match r {
            Some(at) => first_at(hay@, needle@, from as int, at as int),
            None => forall|k: int| from <= k ==> !occurs_at(hay@, needle@, k),
        },
        match r {
            Some(at) => position(hay@, needle@, from as int) == Some(at as int),
            None => position(hay@, needle@, from as int) is None,
        },
{
    proof {
        lemma_position(hay@, needle@, from as int);
    }
    if hay.len() < needle.len() || from > hay.len() - needle.len() {
        return None;
    }
    let last: usize = hay.len() - needle.len();
    let mut i: usize = from;
    while i < last
        invariant
            from <= i <= last,
            last == hay.len() - needle.len(),
            forall|k: int| from <= k < i ==> !occurs_at(hay@, needle@, k),
        decreases last - i,
    {
        if matches_at(hay, needle, i) {
            proof {
                lemma_first_is_position(hay@, needle@, from as int, i as int);
            }
            return Some(i);
        }
        i += 1;
    }
    if matches_at(hay, needle, last) {
        proof {
            lemma_first_is_position(hay@, needle@, from as int, last as int);
        }
        Some(last)
    } else {
        None
    }
}

/// Tests whether `needle` stands anywhere in `hay`.
pub fn has_text(hay: &[char], needle: &str) -> (r: bool)
    ensures
        r == contains(hay@, needle@),
{
    let needle = chars_of(needle);
    match find_from(hay, &needle, 0) {
        Some(_) => true,
        None => false,
    }
}

/// Whether `s` begins with `prefix`.
pub open spec fn starts_with(s: Seq<char>, prefix: Seq<char>) -> bool {
    occurs_at(s, prefix, 0)
}

/// Whether `s` ends with `suffix`.
pub open spec fn ends_with(s: Seq<char>, suffix: Seq<char>) -> bool {
    occurs_at(s, suffix, s.len() - suffix.len())
}

/// Tests for a prefix.
pub fn has_prefix(s: &[char], prefix: &str) -> (r: bool)
    ensures
        r == starts_with(s@, prefix@),
{
    let prefix = chars_of(prefix);
    matches_at(s, &prefix, 0)
}

/// Tests for a suffix.
pub fn has_suffix(s: &[char], suffix: &str) -> (r: bool)
    ensures
        r == ends_with(s@, suffix@),
{
    let suffix = chars_of(suffix);
    if s.len() < suffix.len() {
        return false;
    }
    matches_at(s, &suffix, s.len() - suffix.len())
}

/// The pieces of `s` between the separators, empty pieces included.
pub open spec fn split(s: Seq<char>, separator: char) -> Seq<Seq<char>>
    decreases s.len(),
{
    if s.len() == 0 {
        seq![s]
    } else {
        let before = split(s.drop_last(), separator);
        if s.last() == separator {
            before.push(Seq::empty())
        } else {
            before.drop_last().push(before.last().push(s.last()))
        }
    }
}

/// The character sequences of a vector of character vectors.
pub open spec fn rows(parts: Seq<Vec<char>>) -> Seq<Seq<char>> {
    Seq::new(parts.len(), |i: int| parts[i]@)
}

/// Splits at a separator.
pub fn split_chars(s: &[char], separator: char) -> (r: Vec<Vec<char>>)
    ensures
        rows(r@) == split(s@, separator),
        r@.len() >= 1,
{
    let mut done: Vec<Vec<char>> = Vec::new();
    let mut current: Vec<char> = Vec::new();
    let mut i: usize = 0;
    assert(s@.take(0) == Seq::<char>::empty());
    assert(rows(done@).push(current@) == split(s@.take(0), separator));
    while i < s.len()
        invariant
            i <= s.len(),
            rows(done@).push(current@) == split(s@.take(i as int), separator),
        decreases s.len() - i,
    {
        let c = s[i];
        let ghost before = rows(done@).push(current@);
        assert(s@.take(i + 1).drop_last() == s@.take(i as int));
        assert(before.drop_last() == rows(done@));
        if c == separator {
            done.push(current);
            current = Vec::new();
            assert(rows(done@) == before);
            assert(rows(done@).push(current@) == before.push(Seq::empty()));
        } else {
            current.push(c);
        }
        i += 1;
    }
    assert(s@.take(s@.len() as int) == s@);
    let ghost before = rows(done@).push(current@);
    done.push(current);
    assert(rows(done@) == before);
    done
}

/// The parts written one after the other with a separator between them.
pub open spec fn join(parts: Seq<Seq<char>>, separator: Seq<char>) -> Seq<char>
    decreases parts.len(),
{
    if parts.len() == 0 {
        Seq::empty()
    } else if parts.len() == 1 {
        parts[0]
    } else {
        join(parts.drop_last(), separator) + separator + parts.last()
    }
}

/// The character sequences of a vector of strings.
pub open spec fn texts(parts: Seq<String>) -> Seq<Seq<char>> {
    Seq::new(parts.len(), |i: int| parts[i]@)
}

/// Joins strings with a separator.
pub fn join_strings(parts: &Vec<String>, separator: &str) -> (r: String)
    ensures
        r@ == join(texts(parts@), separator@),
{
    let mut out = String::new();
    let mut i: usize = 0;
    let ghost all = texts(parts@);
    while i < parts.len()
        invariant
            i <= parts.len(),
            all == texts(parts@),
            out@ == join(all.take(i as int), separator@),
        decreases parts.len() - i,
    {
        assert(all.take(i + 1).drop_last() == all.take(i as int));
        if i > 0 {
            out.push_str(separator);
        }
        out.push_str(&parts[i]);
        assert(i == 0 ==> out@ == parts@[0]@);
        i += 1;
    }
    assert(all.take(all.len() as int) == all);
    out
}

/// Whether a character is an ASCII digit.
pub open spec fn is_digit(c: char) -> bool {
    '0' <= c <= '9'
}

/// Whether a text is made of ASCII digits only.
pub open spec fn all_digits(s: Seq<char>) -> bool {
    forall|i: int| 0 <= i < s.len() ==> is_digit(#[trigger] s[i])
}

/// Tests a character for an ASCII digit.
pub fn is_digit_char(c: char) -> (r: bool)
    ensures
        r == is_digit(c),
{
    '0' <= c && c <= '9'
}

/// Tests whether a slice holds ASCII digits only.
pub fn only_digits(chars: &[char]) -> (r: bool)
    ensures
        r == all_digits(chars@),
{
    let mut i: usize = 0;
    while i < chars.len()
        invariant
            i <= chars.len(),
            forall|k: int| 0 <= k < i ==> is_digit(#[trigger] chars@[k]),
        decreases chars.len() - i,
    {
        if !is_digit_char(chars[i]) {
            return false;
        }
        i += 1;
    }
    true
}

/// The digit character of a value below ten.
pub open spec fn digit(n: nat) -> char {
    (48 + n % 10) as u8 as char
}

/// The decimal notation of a natural number.
pub open spec fn dec(n: nat) -> Seq<char>
    decreases n,
{
    if n < 10 {
        seq![digit(n)]
    } else {
        dec(n / 10).push(digit(n % 10))
    }
}

/// The decimal notation of an integer.
pub open spec fn dec_int(n: int) -> Seq<char> {
    if n < 0 {
        seq!['-'] + dec((-n) as nat)
    } else {
        dec(n as nat)
    }
}

/// Appends a natural number in decimal notation.
pub fn push_dec(out: &mut String, n: u64)
    ensures
        final(out)@ == old(out)@ + dec(n as nat),
    decreases n,
{
    let c = (48u8 + (n % 10) as u8) as char;
    assert(c == digit(n as nat));
    if n >= 10 {
        push_dec(out, n / 10);
        assert(digit((n % 10) as nat) == digit(n as nat));
    }
    let ghost before = out@;
    out.push(c);
    assert(out@ == old(out)@ + dec(n as nat));
}

/// Appends a signed number in decimal notation.
pub fn push_dec_i64(out: &mut String, n: i64)
    ensures
        final(out)@ == old(out)@ + dec_int(n as int),
{
    if n < 0 {
        out.push('-');
        let magnitude: u64 = (-(n as i128)) as u64;
        push_dec(out, magnitude);
        assert(out@ == old(out)@ + dec_int(n as int));
    } else {
        push_dec(out, n as u64);
    }
}

/// A number in decimal notation.
pub fn dec_string(n: u64) -> (r: String)
    ensures
        r@ == dec(n as nat),
{
    let mut out = String::new();
    push_dec(&mut out, n);
    assert(out@ == dec(n as nat));
    out
}

/// The value of a digit character.
pub open spec fn digit_value(c: char) -> nat {
    (c as u32 - 48) as nat
}

/// The number that a run of digits stands for.
pub open spec fn digits_value(s: Seq<char>) -> nat
    decreases s.len(),
{
    if s.len() == 0 {
        0
    } else {
        digits_value(s.drop_last()) * 10 + digit_value(s.last())
    }
}

/// The digits of an unsigned number: an optional plus sign may stand before them.
pub open spec fn unsigned_digits(s: Seq<char>) -> Seq<char> {
    if s.len() > 0 && s[0] == '+' {
        s.skip(1)
    } else {
        s
    }
}

/// The number written in a text, if it is one and does not exceed `max`.
pub open spec fn parse_unsigned(s: Seq<char>, max: nat) -> Option<nat> {
    let digits = unsigned_digits(s);
    if digits.len() > 0 && all_digits(digits) && digits_value(digits) <= max {
        Some(digits_value(digits))
    } else {
        None
    }
}

/// More digits never make a smaller number.
pub proof fn lemma_digits_value_monotonic(s: Seq<char>, k: int)
    requires
        0 <= k <= s.len(),
    ensures
        digits_value(s.take(k)) <= digits_value(s),
    decreases s.len() - k,
{
    if k < s.len() {
        lemma_digits_value_monotonic(s, k + 1);
        assert(s.take(k + 1).drop_last() == s.take(k));
    } else {
        assert(s.take(k) == s);
    }
}

/// Why a text is no number.
#[derive(Clone, Copy, Debug, PartialEq, Eq, Structural)]
pub enum NumberError {
    Empty,
    InvalidDigit,
    TooLarge,
}

impl NumberError {
    pub open spec fn text(self) -> Seq<char> {
        match self {
            NumberError::Empty => "cannot parse integer from empty string"@,
            NumberError::InvalidDigit => "invalid digit found in string"@,
            NumberError::TooLarge => "number too large to fit in target type"@,
        }
    }

    pub fn message(self) -> (r: &'static str)
        ensures
            r@ == self.text(),
    {
        match self {
            NumberError::Empty => "cannot parse integer from empty string",
            NumberError::InvalidDigit => "invalid digit found in string",
            NumberError::TooLarge => "number too large to fit in target type",
        }
    }
}

/// How many digits a text starts with.
pub open spec fn digit_run(s: Seq<char>) -> nat
    decreases s.len(),
{
    if s.len() > 0 && is_digit(s[0]) {
        1 + digit_run(s.skip(1))
    } else {
        0
    }
}

pub proof fn lemma_digit_run(s: Seq<char>, k: int)
    requires
        0 <= k <= s.len(),
        all_digits(s.take(k)),
    ensures
        k <= digit_run(s) <= s.len(),
        k == s.len() || !is_digit(s[k]) ==> digit_run(s) == k,
    decreases s.len(),
{
    if s.len() > 0 && is_digit(s[0]) {
        let rest = s.skip(1);
        let j = if k == 0 {
            0
        } else {
            k - 1
        };
        assert(all_digits(rest.take(j))) by {
            assert forall|i: int| 0 <= i < j implies is_digit(#[trigger] rest.take(j)[i]) by {
                assert(rest.take(j)[i] == s.take(k)[i + 1]);
            }
        }
        lemma_digit_run(rest, j);
        if k > 0 && k < s.len() {
            assert(rest[j] == s[k]);
        }
    } else if k > 0 {
        assert(is_digit(s.take(k)[0]));
    }
}

/// What is wrong with a text that is no number of at most `max`: whatever comes first, a character
/// that is no digit or the digit that makes the number too large.
pub open spec fn number_problem(s: Seq<char>, max: nat) -> NumberError {
    let digits = unsigned_digits(s);
    if s.len() == 0 {
        NumberError::Empty
    } else if digits_value(digits.take(digit_run(digits) as int)) > max {
        NumberError::TooLarge
    } else {
        NumberError::InvalidDigit
    }
}

/// Reads an unsigned number of at most `max`.
pub fn parse_number(s: &[char], max: u64) -> (r: Option<u64>)
    ensures
        match r {
            Some(n) => parse_unsigned(s@, max as nat) == Some(n as nat),
            None => parse_unsigned(s@, max as nat) is None,
        },
{
    match read_number(s, max) {
        Ok(n) => Some(n),
        Err(_) => None,
    }
}

/// Reads an unsigned number of at most `max`, or tells why there is none.
pub fn read_number(s: &[char], max: u64) -> (r: Result<u64, NumberError>)
    ensures
        match r {
            Ok(n) => parse_unsigned(s@, max as nat) == Some(n as nat),
            Err(error) => parse_unsigned(s@, max as nat) is None && error == number_problem(
                s@,
                max as nat,
            ),
        },
{
    if s.len() == 0 {
        return Err(NumberError::Empty);
    }
    let start: usize = if s[0] == '+' {
        1
    } else {
        0
    };
    let ghost digits = unsigned_digits(s@);
    assert(digits == s@.skip(start as int));
    let mut value: u64 = 0;
    let mut i: usize = start;
    assert(digits.take(0) == Seq::<char>::empty());
    if start == s.len() {
        return Err(NumberError::InvalidDigit);
    }
    while i < s.len()
        invariant
            start < s.len(),
            start <= i <= s.len(),
            digits == unsigned_digits(s@),
            digits == s@.skip(start as int),
            value <= max,
            value == digits_value(digits.take(i - start)),
            all_digits(digits.take(i - start)),
        decreases s.len() - i,
    {
        let c = s[i];
        assert(digits[i - start] == c);
        if !is_digit_char(c) {
            proof {
                lemma_digit_run(digits, i - start);
            }
            return Err(NumberError::InvalidDigit);
        }
        let d: u64 = (c as u32 - 48) as u64;
        assert(digits.take(i - start + 1).drop_last() == digits.take(i - start));
        assert(digits_value(digits.take(i - start + 1)) == value * 10 + d);
        assert(all_digits(digits.take(i - start + 1))) by {
            assert forall|k: int| 0 <= k < i - start + 1 implies is_digit(
                #[trigger] digits.take(i - start + 1)[k],
            ) by {
                if k < i - start {
                    assert(is_digit(digits.take(i - start)[k]));
                }
            }
        }
        let next: u128 = value as u128 * 10 + d as u128;
        if next > max as u128 {
            proof {
                lemma_digits_value_monotonic(digits, i - start + 1);
                lemma_digit_run(digits, i - start + 1);
                let run = digits.take(digit_run(digits) as int);
                assert(run.take(i - start + 1) == digits.take(i - start + 1));
                lemma_digits_value_monotonic(run, i - start + 1);
            }
            return Err(NumberError::TooLarge);
        }
        value = next as u64;
        i += 1;
    }
    assert(digits.take(digits.len() as int) == digits);
    Ok(value)
}

/// Decimal notation is made of digits and stands for its number.
pub proof fn lemma_dec_digits(n: nat)
    ensures
        all_digits(dec(n)),
        dec(n).len() >= 1,
        digits_value(dec(n)) == n,
    decreases n,
{
    let c = digit(n);
    assert(is_digit(c));
    assert(digit_value(c) == n % 10);
    if n < 10 {
        assert(dec(n).drop_last() == Seq::<char>::empty());
        assert(digits_value(Seq::<char>::empty()) == 0);
    } else {
        lemma_dec_digits(n / 10);
        assert(digit(n % 10) == c);
        assert(dec(n).drop_last() == dec(n / 10));
    }
}

/// Decimal notation is positional: a digit behind a number makes it ten times as large and adds its
/// own value, and each of the ten digits stands for its distance from zero.
pub proof fn law_decimal_places(s: Seq<char>, c: char, max: nat)
    requires
        all_digits(s),
        '0' <= c <= '9',
        digits_value(s) * 10 + 9 <= max,
    ensures
        parse_unsigned(seq![c], max) == Some((c as int - '0' as int) as nat),
        s.len() > 0 ==> parse_unsigned(s, max) is Some && parse_unsigned(s.push(c), max) == Some(
            (parse_unsigned(s, max)->0 * 10 + (c as int - '0' as int)) as nat,
        ),
        dec((c as int - '0' as int) as nat) == seq![c],
{
    assert(seq![c].drop_last() == Seq::<char>::empty());
    assert(digits_value(Seq::<char>::empty()) == 0);
    assert(unsigned_digits(seq![c]) == seq![c]);
    assert(s.push(c).drop_last() == s);
    if s.len() > 0 {
        assert(is_digit(s[0]));
        assert(unsigned_digits(s) == s);
        assert(s.push(c)[0] == s[0]);
        assert(unsigned_digits(s.push(c)) == s.push(c));
        assert forall|i: int| 0 <= i < s.push(c).len() implies is_digit(#[trigger] s.push(c)[i]) by {
            if i < s.len() {
                assert(s.push(c)[i] == s[i]);
            }
        }
    }
}

/// Reading back the decimal notation of a number gives the number.
pub proof fn law_decimal_round_trip(n: nat, max: nat)
    requires
        n <= max,
    ensures
        parse_unsigned(dec(n), max) == Some(n),
{
    lemma_dec_digits(n);
    assert(is_digit(dec(n)[0]));
    assert(unsigned_digits(dec(n)) == dec(n));
}

/// One character, a number of times.
pub open spec fn repeated(c: char, count: nat) -> Seq<char> {
    Seq::new(count, |i: int| c)
}

fn push_repeated(out: &mut String, c: char, count: usize)
    ensures
        final(out)@ == old(out)@ + repeated(c, count as nat),
{
    let mut i: usize = 0;
    while i < count
        invariant
            i <= count,
            out@ == old(out)@ + repeated(c, i as nat),
        decreases count - i,
    {
        out.push(c);
        assert(repeated(c, i as nat).push(c) == repeated(c, (i + 1) as nat));
        i += 1;
    }
}

/// How many characters are missing to a width.
pub open spec fn missing(length: nat, width: nat) -> nat {
    if length < width {
        (width - length) as nat
    } else {
        0
    }
}

/// A number in decimal notation, filled up with zeros on the left to a width.
pub open spec fn zero_padded(n: nat, width: nat) -> Seq<char> {
    repeated('0', missing(dec(n).len(), width)) + dec(n)
}

/// Appends a number in decimal notation, filled up with zeros on the left.
pub fn push_zero_padded(out: &mut String, n: u64, width: usize)
    ensures
        final(out)@ == old(out)@ + zero_padded(n as nat, width as nat),
{
    let digits = dec_string(n);
    let length: usize = chars_of(&digits).len();
    if length < width {
        push_repeated(out, '0', width - length);
    } else {
        assert(repeated('0', 0) == Seq::<char>::empty());
    }
    out.push_str(&digits);
    assert(out@ == old(out)@ + zero_padded(n as nat, width as nat));
}

/// A text, filled up with spaces on the right to a width.
pub open spec fn space_padded(s: Seq<char>, width: nat) -> Seq<char> {
    s + repeated(' ', missing(s.len(), width))
}

/// Appends a text, filled up with spaces on the right.
pub fn push_space_padded(out: &mut String, s: &str, width: usize)
    ensures
        final(out)@ == old(out)@ + space_padded(s@, width as nat),
{
    let length: usize = chars_of(s).len();
    out.push_str(s);
    if length < width {
        push_repeated(out, ' ', width - length);
    }
    assert(out@ == old(out)@ + space_padded(s@, width as nat));
}

/// The upper case hexadecimal digit of a value below sixteen.
pub open spec fn upper_hex_digit(n: nat) -> char {
    if n % 16 < 10 {
        (48 + n % 16) as u8 as char
    } else {
        (55 + n % 16) as u8 as char
    }
}

/// The upper case hexadecimal notation of a natural number.
pub open spec fn upper_hex(n: nat) -> Seq<char>
    decreases n,
{
    if n < 16 {
        seq![upper_hex_digit(n)]
    } else {
        upper_hex(n / 16).push(upper_hex_digit(n))
    }
}

fn push_upper_hex(out: &mut String, n: u32)
    ensures
        final(out)@ == old(out)@ + upper_hex(n as nat),
    decreases n,
{
    let d: u8 = (n % 16) as u8;
    let c = if d < 10 {
        (48u8 + d) as char
    } else {
        (55u8 + d) as char
    };
    assert(c == upper_hex_digit(n as nat));
    if n >= 16 {
        push_upper_hex(out, n / 16);
    }
    out.push(c);
    assert(out@ == old(out)@ + upper_hex(n as nat));
}

/// Four or more upper case hexadecimal digits.
pub open spec fn upper_hex4(n: nat) -> Seq<char> {
    repeated('0', missing(upper_hex(n).len(), 4)) + upper_hex(n)
}

/// Appends four or more upper case hexadecimal digits.
pub fn push_upper_hex4(out: &mut String, n: u32)
    ensures
        final(out)@ == old(out)@ + upper_hex4(n as nat),
{
    let mut digits = String::new();
    push_upper_hex(&mut digits, n);
    assert(digits@ == upper_hex(n as nat));
    let length: usize = chars_of(&digits).len();
    if length < 4 {
        push_repeated(out, '0', 4 - length);
    } else {
        assert(repeated('0', 0) == Seq::<char>::empty());
    }
    out.push_str(&digits);
    assert(out@ == old(out)@ + upper_hex4(n as nat));
}

/// How many bytes a character takes in UTF-8.
pub open spec fn utf8_width(c: char) -> nat {
    let n = c as u32;
    if n < 0x80 {
        1
    } else if n < 0x800 {
        2
    } else if n < 0x1_0000 {
        3
    } else {
        4
    }
}

/// How many bytes a text takes in UTF-8.
pub open spec fn utf8_length(s: Seq<char>) -> nat
    decreases s.len(),
{
    if s.len() == 0 {
        0
    } else {
        utf8_length(s.drop_last()) + utf8_width(s.last())
    }
}

/// Counts the bytes that a text takes in UTF-8.
pub fn byte_length(chars: &[char]) -> (r: u128)
    ensures
        r == utf8_length(chars@),
{
    let mut total: u128 = 0;
    let mut i: usize = 0;
    while i < chars.len()
        invariant
            i <= chars.len(),
            total == utf8_length(chars@.take(i as int)),
            total <= 4 * i,
        decreases chars.len() - i,
    {
        let n: u32 = chars[i] as u32;
        let width: u128 = if n < 0x80 {
            1
        } else if n < 0x800 {
            2
        } else if n < 0x1_0000 {
            3
        } else {
            4
        };
        assert(chars@.take(i + 1).drop_last() == chars@.take(i as int));
        assert(width == utf8_width(chars@[i as int]));
        total = total + width;
        i += 1;
    }
    assert(chars@.take(chars@.len() as int) == chars@);
    total
}

/// The text of a truth value.
pub open spec fn truth(value: bool) -> Seq<char> {
    if value {
        "true"@
    } else {
        "false"@
    }
}

/// Names a truth value.
pub fn truth_text(value: bool) -> (r: &'static str)
    ensures
        r@ == truth(value),
{
    if value {
        "true"
    } else {
        "false"
    }
}

/// Copies the characters of an optional text; an absent one is empty.
pub open spec fn or_empty(s: Option<String>) -> Seq<char> {
    match s {
        Some(text) => text@,
        None => Seq::empty(),
    }
}

/// Appends an optional text; an absent one adds nothing.
pub fn push_optional(out: &mut String, s: &Option<String>)
    ensures
        final(out)@ == old(out)@ + or_empty(*s),
{
    match s {
        Some(text) => {
            out.push_str(text);
        },
        None => {
            assert(out@ + Seq::<char>::empty() == out@);
        },
    }
}

/// Trimming takes the white space off both ends of a text and leaves what stands between it.
pub proof fn law_trimming_leaves_what_is_inside(before: Seq<char>, s: Seq<char>, after: Seq<char>)
    requires
        forall|i: int| 0 <= i < before.len() ==> is_space(#[trigger] before[i]),
        forall|i: int| 0 <= i < after.len() ==> is_space(#[trigger] after[i]),
        s.len() > 0,
        !is_space(s[0]),
        !is_space(s.last()),
    ensures
        trim(before + s + after) == s,
{
    let whole = before + s + after;
    lemma_trim_start(before, s + after);
    assert(before + (s + after) == whole);
    lemma_trim_end(s, after);
}

proof fn lemma_trim_start(before: Seq<char>, rest: Seq<char>)
    requires
        forall|i: int| 0 <= i < before.len() ==> is_space(#[trigger] before[i]),
        rest.len() > 0,
        !is_space(rest[0]),
    ensures
        trim_start(before + rest) == rest,
    decreases before.len(),
{
    let whole = before + rest;
    if before.len() == 0 {
        assert(whole == rest);
    } else {
        assert(whole[0] == before[0]);
        assert(whole.skip(1) == before.skip(1) + rest);
        lemma_trim_start(before.skip(1), rest);
    }
}

proof fn lemma_trim_end(rest: Seq<char>, after: Seq<char>)
    requires
        forall|i: int| 0 <= i < after.len() ==> is_space(#[trigger] after[i]),
        rest.len() > 0,
        !is_space(rest.last()),
    ensures
        trim_end(rest + after) == rest,
    decreases after.len(),
{
    let whole = rest + after;
    if after.len() == 0 {
        assert(whole == rest);
    } else {
        assert(whole.last() == after[after.len() - 1]);
        assert(whole.drop_last() == rest + after.drop_last());
        lemma_trim_end(rest, after.drop_last());
    }
}

/// A text of nothing but white space is trimmed to nothing, and no trimmed text has white space at
/// an end.
pub proof fn law_trimmed_texts_have_no_space_at_their_ends(s: Seq<char>)
    ensures
        trim(s).len() > 0 ==> !is_space(trim(s)[0]) && !is_space(trim(s).last()),
        (forall|i: int| 0 <= i < s.len() ==> is_space(#[trigger] s[i])) ==> trim(s).len() == 0,
{
    lemma_started(s);
    lemma_ended(trim_start(s));
}

proof fn lemma_started(s: Seq<char>)
    ensures
        trim_start(s).len() > 0 ==> !is_space(trim_start(s)[0]),
        (forall|i: int| 0 <= i < s.len() ==> is_space(#[trigger] s[i])) ==> trim_start(s).len() == 0,
    decreases s.len(),
{
    if s.len() > 0 && is_space(s[0]) {
        let rest = s.skip(1);
        lemma_started(rest);
        if forall|i: int| 0 <= i < s.len() ==> is_space(#[trigger] s[i]) {
            assert forall|i: int| 0 <= i < rest.len() implies is_space(#[trigger] rest[i]) by {
                assert(rest[i] == s[i + 1]);
            }
        }
    }
}

proof fn lemma_ended(s: Seq<char>)
    ensures
        trim_end(s).len() > 0 ==> !is_space(trim_end(s).last()) && trim_end(s)[0] == s[0],
        trim_end(s).len() <= s.len(),
    decreases s.len(),
{
    if s.len() > 0 && is_space(s.last()) {
        lemma_ended(s.drop_last());
    }
}

/// Only the letters from A to Z change in lower case, each to the one thirty-two places on, and a
/// text in lower case stays as it is.
pub proof fn law_lower_case_changes_capitals_alone(c: char, s: Seq<char>)
    ensures
        'A' <= c <= 'Z' ==> lower_char(c) as int == c as int + 32 && 'a' <= lower_char(c) <= 'z',
        !('A' <= c <= 'Z') ==> lower_char(c) == c,
        lower(lower(s)) == lower(s),
        lower(s).len() == s.len(),
{
    assert forall|i: int| 0 <= i < s.len() implies lower(lower(s))[i] == #[trigger] lower(s)[i] by {
        let d = s[i];
        assert('A' <= d <= 'Z' ==> 'a' <= lower_char(d) <= 'z');
    }
}

/// A text stands at a place where each of its characters does.
pub proof fn law_texts_are_found_by_their_characters(hay: Seq<char>, needle: Seq<char>, at: int)
    ensures
        occurs_at(hay, needle, at) <==> 0 <= at && at + needle.len() <= hay.len() && forall|i: int|
            0 <= i < needle.len() ==> hay[at + i] == #[trigger] needle[i],
        starts_with(hay, needle) <==> occurs_at(hay, needle, 0),
        ends_with(hay, needle) <==> occurs_at(hay, needle, hay.len() - needle.len()),
{
    if 0 <= at && at + needle.len() <= hay.len() {
        let part = hay.subrange(at, at + needle.len());
        if part == needle {
            assert forall|i: int| 0 <= i < needle.len() implies hay[at + i]
                == #[trigger] needle[i] by {
                assert(part[i] == hay[at + i]);
            }
        }
        if forall|i: int| 0 <= i < needle.len() ==> hay[at + i] == #[trigger] needle[i] {
            assert(part =~= needle);
        }
    }
}

/// A text is its pieces with the separator between them.
pub proof fn law_pieces_join_to_the_text(s: Seq<char>, separator: char)
    ensures
        split(s, separator).len() > 0,
        join(split(s, separator), seq![separator]) == s,
    decreases s.len(),
{
    let all = split(s, separator);
    if s.len() > 0 {
        let rest = s.drop_last();
        let before = split(rest, separator);
        law_pieces_join_to_the_text(rest, separator);
        if s.last() == separator {
            assert(all.drop_last() == before);
            assert(join(all, seq![separator]) == rest + seq![separator] + Seq::<char>::empty());
            assert(rest + seq![separator] + Seq::<char>::empty() == s);
        } else {
            lemma_join_grows(before, seq![separator], s.last());
            assert(rest.push(s.last()) == s);
        }
    }
}

proof fn lemma_join_grows(parts: Seq<Seq<char>>, separator: Seq<char>, c: char)
    requires
        parts.len() > 0,
    ensures
        join(parts.drop_last().push(parts.last().push(c)), separator) == join(
            parts,
            separator,
        ).push(c),
{
    let grown = parts.drop_last().push(parts.last().push(c));
    if parts.len() > 1 {
        assert(grown.drop_last() == parts.drop_last());
        assert(grown.last() == parts.last().push(c));
        let head = join(parts.drop_last(), separator) + separator;
        assert(head + parts.last().push(c) == (head + parts.last()).push(c));
    } else {
        assert(grown[0] == parts[0].push(c));
    }
}

/// A number that is larger than it may be is refused as too large, an empty text as empty; a plus
/// sign before the digits plays no part.
pub proof fn law_numbers_that_are_refused(n: nat, max: nat)
    ensures
        n > max ==> parse_unsigned(dec(n), max) is None && number_problem(dec(n), max)
            == NumberError::TooLarge,
        parse_unsigned(Seq::empty(), max) is None,
        number_problem(Seq::empty(), max) == NumberError::Empty,
        parse_unsigned(seq!['+'] + dec(n), max) == parse_unsigned(dec(n), max),
{
    let s = dec(n);
    lemma_dec_digits(n);
    law_decimal_round_trip(n, n);
    assert(is_digit(s[0]));
    assert(unsigned_digits(s) == s);
    assert((seq!['+'] + s).skip(1) == s);
    assert(s.take(s.len() as int) == s);
    lemma_digit_run(s, s.len() as int);
}

/// A number that is filled up with zeros has at least its width, and none where it is wide enough
/// as it is; it stands for the same number.
pub proof fn law_leading_zeros_change_nothing(n: nat, width: nat, max: nat)
    requires
        n <= max,
    ensures
        zero_padded(n, width).len() >= width,
        dec(n).len() >= width ==> zero_padded(n, width) == dec(n),
        dec(n).len() <= width ==> zero_padded(n, width).len() == width,
        parse_unsigned(zero_padded(n, width), max) == Some(n),
{
    let zeros = repeated('0', missing(dec(n).len(), width));
    let padded = zero_padded(n, width);
    lemma_dec_digits(n);
    law_decimal_round_trip(n, max);
    assert(dec(n).len() >= width ==> padded =~= dec(n));
    assert(is_digit(dec(n)[0]));
    lemma_zeros_before(zeros.len(), dec(n));
    assert(all_digits(padded)) by {
        assert forall|i: int| 0 <= i < padded.len() implies is_digit(#[trigger] padded[i]) by {
            if i >= zeros.len() {
                assert(padded[i] == dec(n)[i - zeros.len()]);
                assert(is_digit(dec(n)[i - zeros.len()]));
            }
        }
    }
    assert(is_digit(padded[0]));
}

proof fn lemma_zeros_before(count: nat, s: Seq<char>)
    ensures
        digits_value(repeated('0', count) + s) == digits_value(s),
    decreases s.len(), count,
{
    let whole = repeated('0', count) + s;
    if s.len() > 0 {
        assert(whole.drop_last() == repeated('0', count) + s.drop_last());
        lemma_zeros_before(count, s.drop_last());
    } else if count > 0 {
        let fewer = (count - 1) as nat;
        assert(whole.drop_last() == repeated('0', fewer) + s);
        assert(whole.last() == '0');
        lemma_zeros_before(fewer, s);
    } else {
        assert(whole == s);
    }
}

/// The value of an upper case hexadecimal digit.
pub open spec fn upper_hex_value(c: char) -> nat {
    if '0' <= c <= '9' {
        (c as int - '0' as int) as nat
    } else {
        (c as int - 'A' as int + 10) as nat
    }
}

/// The number that upper case hexadecimal digits stand for.
pub open spec fn upper_hex_number(s: Seq<char>) -> nat
    decreases s.len(),
{
    if s.len() == 0 {
        0
    } else {
        upper_hex_number(s.drop_last()) * 16 + upper_hex_value(s.last())
    }
}

/// Hexadecimal notation is read back as the number, and has at least four digits.
pub proof fn law_upper_hexadecimal_is_read_back(n: nat)
    ensures
        upper_hex_number(upper_hex(n)) == n,
        upper_hex4(n).len() >= 4,
        upper_hex_number(upper_hex4(n)) == n,
{
    lemma_upper_hex(n);
    lemma_hex_zeros_before(missing(upper_hex(n).len(), 4), upper_hex(n));
}

proof fn lemma_upper_hex(n: nat)
    ensures
        upper_hex_number(upper_hex(n)) == n,
    decreases n,
{
    let s = upper_hex(n);
    if n >= 16 {
        lemma_upper_hex(n / 16);
        assert(s.drop_last() == upper_hex(n / 16));
    } else {
        reveal_with_fuel(upper_hex_number, 2);
        assert(s.drop_last().len() == 0);
    }
}

proof fn lemma_hex_zeros_before(count: nat, s: Seq<char>)
    ensures
        upper_hex_number(repeated('0', count) + s) == upper_hex_number(s),
    decreases s.len(), count,
{
    let whole = repeated('0', count) + s;
    if s.len() > 0 {
        assert(whole.drop_last() == repeated('0', count) + s.drop_last());
        lemma_hex_zeros_before(count, s.drop_last());
    } else if count > 0 {
        let fewer = (count - 1) as nat;
        assert(whole.drop_last() == repeated('0', fewer) + s);
        assert(whole.last() == '0');
        lemma_hex_zeros_before(fewer, s);
    } else {
        assert(whole == s);
    }
}

} // verus!
