//! The lines of the log, and the clock they are stamped with.
use crate::clock;
use crate::order;
use crate::text;
#[allow(unused_imports)]
use vstd::arithmetic::div_mod::*;
use vstd::prelude::*;

verus! {

/// One line, built whole before it is written.
///
/// The sender, the receiver, and the update checker all append to the log from different threads
/// and processes. A single write of a single buffer is what makes an append atomic, so the line is
/// assembled first.
pub fn log_line(timestamp: &str, message: &str) -> (r: String)
    ensures
        r@ == timestamp@ + " "@ + message@ + "\n"@,
{
    let mut out = timestamp.to_owned();
    out.push_str(" ");
    out.push_str(message);
    out.push_str("\n");
    out
}

/// A line ends in a newline, and holds no other one than its message and its timestamp have.
pub proof fn law_line_ends_in_one_newline(timestamp: Seq<char>, message: Seq<char>)
    requires
        !timestamp.contains('\n'),
        !message.contains('\n'),
    ensures
        ({
            let line = timestamp + " "@ + message + "\n"@;
            &&& line.last() == '\n'
            &&& !line.drop_last().contains('\n')
        }),
{
    reveal_strlit(" ");
    reveal_strlit("\n");
    let line = timestamp + " "@ + message + "\n"@;
    let body = line.drop_last();
    assert(body == timestamp + " "@ + message);
    assert forall|i: int| 0 <= i < body.len() implies body[i] != '\n' by {
        if i < timestamp.len() {
            assert(timestamp.contains(timestamp[i]));
        } else if i > timestamp.len() {
            assert(message.contains(message[i - timestamp.len() - 1]));
        }
    }
}

/// A moment as a clock on the wall shows it.
#[derive(Clone, Copy, Debug, PartialEq, Eq, Structural)]
pub struct WallClock {
    pub year: u16,
    pub month: u16,
    pub day: u16,
    pub hour: u16,
    pub minute: u16,
    pub second: u16,
    pub millisecond: u16,
}

impl WallClock {
    pub open spec fn text(self) -> Seq<char> {
        text::zero_padded(self.year as nat, 4) + "-"@ + text::zero_padded(self.month as nat, 2)
            + "-"@ + text::zero_padded(self.day as nat, 2) + " "@ + text::zero_padded(
            self.hour as nat,
            2,
        ) + ":"@ + text::zero_padded(self.minute as nat, 2) + ":"@ + text::zero_padded(
            self.second as nat,
            2,
        ) + "."@ + text::zero_padded(self.millisecond as nat, 3)
    }

    /// Whether a moment is another one, or lies before it.
    pub open spec fn no_later_than(self, other: WallClock) -> bool {
        if self.year != other.year {
            self.year < other.year
        } else if self.month != other.month {
            self.month < other.month
        } else if self.day != other.day {
            self.day < other.day
        } else if self.hour != other.hour {
            self.hour < other.hour
        } else if self.minute != other.minute {
            self.minute < other.minute
        } else if self.second != other.second {
            self.second < other.second
        } else {
            self.millisecond <= other.millisecond
        }
    }

    /// Whether every part has at most as many digits as it is given.
    pub open spec fn plausible(self) -> bool {
        &&& self.year < 10_000
        &&& self.month < 100
        &&& self.day < 100
        &&& self.hour < 100
        &&& self.minute < 100
        &&& self.second < 100
        &&& self.millisecond < 1000
    }
}

/// Writes a moment down, with milliseconds: the events being correlated - a packet gap, a decoder
/// renegotiating, a pipeline restart - happen inside a second.
pub fn format_timestamp(clock: &WallClock) -> (r: String)
    ensures
        r@ == clock.text(),
{
    let mut out = String::new();
    text::push_zero_padded(&mut out, clock.year as u64, 4);
    out.push_str("-");
    text::push_zero_padded(&mut out, clock.month as u64, 2);
    out.push_str("-");
    text::push_zero_padded(&mut out, clock.day as u64, 2);
    out.push_str(" ");
    text::push_zero_padded(&mut out, clock.hour as u64, 2);
    out.push_str(":");
    text::push_zero_padded(&mut out, clock.minute as u64, 2);
    out.push_str(":");
    text::push_zero_padded(&mut out, clock.second as u64, 2);
    out.push_str(".");
    text::push_zero_padded(&mut out, clock.millisecond as u64, 3);
    assert(out@ == clock.text());
    out
}

proof fn lemma_padded_width(n: nat, width: nat)
    requires
        width == 2 && n < 100 || width == 3 && n < 1000 || width == 4 && n < 10_000,
    ensures
        text::zero_padded(n, width).len() == width,
{
    reveal_with_fuel(text::dec, 5);
}

/// Every timestamp has the same width, so lines stay aligned.
pub proof fn law_timestamps_have_one_width(clock: WallClock)
    requires
        clock.plausible(),
    ensures
        clock.text().len() == 23,
{
    lemma_padded_width(clock.year as nat, 4);
    lemma_padded_width(clock.month as nat, 2);
    lemma_padded_width(clock.day as nat, 2);
    lemma_padded_width(clock.hour as nat, 2);
    lemma_padded_width(clock.minute as nat, 2);
    lemma_padded_width(clock.second as nat, 2);
    lemma_padded_width(clock.millisecond as nat, 3);
    reveal_strlit("-");
    reveal_strlit(" ");
    reveal_strlit(":");
    reveal_strlit(".");
}

proof fn lemma_text_le_first(c: char, d: char, x: Seq<char>, y: Seq<char>)
    ensures
        order::text_le(seq![c] + x, seq![d] + y) == (c < d || c == d && order::text_le(x, y)),
{
    assert((seq![c] + x).skip(1) == x);
    assert((seq![d] + y).skip(1) == y);
}

proof fn lemma_same_start(start: Seq<char>, x: Seq<char>, y: Seq<char>)
    ensures
        order::text_le(start + x, start + y) == order::text_le(x, y),
    decreases start.len(),
{
    if start.len() == 0 {
        assert(start + x == x);
        assert(start + y == y);
    } else {
        lemma_same_start(start.skip(1), x, y);
        assert(start + x == seq![start[0]] + (start.skip(1) + x));
        assert(start + y == seq![start[0]] + (start.skip(1) + y));
        lemma_text_le_first(start[0], start[0], start.skip(1) + x, start.skip(1) + y);
    }
}

proof fn lemma_padded_step(n: nat, width: nat)
    requires
        width >= 1,
        text::dec(n).len() <= width + 1,
    ensures
        text::dec(n / 10).len() <= width,
        text::zero_padded(n, width + 1) == text::zero_padded(n / 10, width).push(
            text::digit(n % 10),
        ),
{
    let zeros = text::missing(text::dec(n).len(), width + 1);
    if n < 10 {
        assert(text::dec(n / 10) == seq![text::digit(0)]);
        assert(text::digit(0) == '0');
        assert(text::digit(n) == text::digit(n % 10));
    }
    assert(text::zero_padded(n, width + 1) == text::zero_padded(n / 10, width).push(
        text::digit(n % 10),
    ));
}

/// Numbers that are filled up to one width order as texts as they do as numbers.
proof fn lemma_padded_order(a: nat, b: nat, width: nat, x: Seq<char>, y: Seq<char>)
    requires
        width >= 1,
        text::dec(a).len() <= width,
        text::dec(b).len() <= width,
    ensures
        order::text_le(text::zero_padded(a, width) + x, text::zero_padded(b, width) + y) == (a < b
            || a == b && order::text_le(x, y)),
    decreases width,
{
    let c = text::digit(a % 10);
    let d = text::digit(b % 10);
    if width == 1 {
        assert(a < 10 && b < 10) by {
            text::lemma_dec_digits(a / 10);
            text::lemma_dec_digits(b / 10);
        }
        assert(text::zero_padded(a, width) == seq![c]);
        assert(text::zero_padded(b, width) == seq![d]);
        lemma_text_le_first(c, d, x, y);
    } else {
        let less = (width - 1) as nat;
        lemma_padded_step(a, less);
        lemma_padded_step(b, less);
        assert(text::zero_padded(a, width) + x == text::zero_padded(a / 10, less) + (seq![c] + x));
        assert(text::zero_padded(b, width) + y == text::zero_padded(b / 10, less) + (seq![d] + y));
        lemma_padded_order(a / 10, b / 10, less, seq![c] + x, seq![d] + y);
        lemma_text_le_first(c, d, x, y);
    }
}

/// A part of a timestamp, followed by a separator and the rest.
proof fn lemma_part_order(
    a: nat,
    b: nat,
    width: nat,
    separator: Seq<char>,
    x: Seq<char>,
    y: Seq<char>,
)
    requires
        width == 2 && a < 100 && b < 100 || width == 4 && a < 10_000 && b < 10_000,
    ensures
        order::text_le(
            text::zero_padded(a, width) + (separator + x),
            text::zero_padded(b, width) + (separator + y),
        ) == (a < b || a == b && order::text_le(x, y)),
{
    reveal_with_fuel(text::dec, 5);
    lemma_padded_order(a, b, width, separator + x, separator + y);
    lemma_same_start(separator, x, y);
}

impl WallClock {
    spec fn from_seconds(self) -> Seq<char> {
        text::zero_padded(self.second as nat, 2) + ("."@ + text::zero_padded(
            self.millisecond as nat,
            3,
        ))
    }

    spec fn from_minutes(self) -> Seq<char> {
        text::zero_padded(self.minute as nat, 2) + (":"@ + self.from_seconds())
    }

    spec fn from_hours(self) -> Seq<char> {
        text::zero_padded(self.hour as nat, 2) + (":"@ + self.from_minutes())
    }

    spec fn from_days(self) -> Seq<char> {
        text::zero_padded(self.day as nat, 2) + (" "@ + self.from_hours())
    }

    spec fn from_months(self) -> Seq<char> {
        text::zero_padded(self.month as nat, 2) + ("-"@ + self.from_days())
    }
}

proof fn lemma_regroup(start: Seq<char>, part: Seq<char>, separator: Seq<char>, rest: Seq<char>)
    ensures
        start + part + separator + rest == start + (part + (separator + rest)),
{
}

proof fn lemma_text_by_parts(clock: WallClock)
    ensures
        clock.text() == text::zero_padded(clock.year as nat, 4) + ("-"@ + clock.from_months()),
{
    let year = text::zero_padded(clock.year as nat, 4);
    let month = text::zero_padded(clock.month as nat, 2);
    let day = text::zero_padded(clock.day as nat, 2);
    let hour = text::zero_padded(clock.hour as nat, 2);
    let minute = text::zero_padded(clock.minute as nat, 2);
    let second = text::zero_padded(clock.second as nat, 2);
    let millisecond = text::zero_padded(clock.millisecond as nat, 3);
    let s1 = year + "-"@;
    let s2 = s1 + month + "-"@;
    let s3 = s2 + day + " "@;
    let s4 = s3 + hour + ":"@;
    let s5 = s4 + minute + ":"@;
    lemma_regroup(s5, second, "."@, millisecond);
    lemma_regroup(s4, minute, ":"@, clock.from_seconds());
    lemma_regroup(s3, hour, ":"@, clock.from_minutes());
    lemma_regroup(s2, day, " "@, clock.from_hours());
    lemma_regroup(s1, month, "-"@, clock.from_days());
    assert(s1 + clock.from_months() == year + ("-"@ + clock.from_months()));
}

/// Timestamps sort by time: their order as texts is that of the moments.
pub proof fn law_timestamps_sort_by_time(a: WallClock, b: WallClock)
    requires
        a.plausible(),
        b.plausible(),
    ensures
        order::text_le(a.text(), b.text()) == a.no_later_than(b),
{
    let a6 = text::zero_padded(a.millisecond as nat, 3);
    let b6 = text::zero_padded(b.millisecond as nat, 3);
    assert(order::text_le(a6, b6) == (a.millisecond <= b.millisecond)) by {
        reveal_with_fuel(text::dec, 5);
        let empty = Seq::<char>::empty();
        lemma_padded_order(a.millisecond as nat, b.millisecond as nat, 3, empty, empty);
        assert(a6 + empty == a6);
        assert(b6 + empty == b6);
    }
    lemma_part_order(a.second as nat, b.second as nat, 2, "."@, a6, b6);
    lemma_part_order(a.minute as nat, b.minute as nat, 2, ":"@, a.from_seconds(), b.from_seconds());
    lemma_part_order(a.hour as nat, b.hour as nat, 2, ":"@, a.from_minutes(), b.from_minutes());
    lemma_part_order(a.day as nat, b.day as nat, 2, " "@, a.from_hours(), b.from_hours());
    lemma_part_order(a.month as nat, b.month as nat, 2, "-"@, a.from_days(), b.from_days());
    lemma_part_order(a.year as nat, b.year as nat, 4, "-"@, a.from_months(), b.from_months());
    lemma_text_by_parts(a);
    lemma_text_by_parts(b);
}

pub open spec fn is_leap(year: int) -> bool {
    year % 4 == 0 && (year % 100 != 0 || year % 400 == 0)
}

pub open spec fn month_length(year: int, month: int) -> int {
    if month == 2 {
        if is_leap(year) {
            29
        } else {
            28
        }
    } else if month == 4 || month == 6 || month == 9 || month == 11 {
        30
    } else {
        31
    }
}

pub open spec fn is_date(year: int, month: int, day: int) -> bool {
    1 <= month <= 12 && 1 <= day <= month_length(year, month)
}

/// How many leap years there are up to a year.
pub open spec fn leap_years(year: int) -> int {
    year / 4 - year / 100 + year / 400
}

/// How many days lie between the first of January 1970 and that of a year.
pub open spec fn days_to_year(year: int) -> int {
    365 * (year - 1970) + leap_years(year - 1) - leap_years(1969)
}

/// How many days of a year lie before a month.
pub open spec fn days_to_month(year: int, month: int) -> int
    decreases month,
{
    if month <= 1 {
        0
    } else {
        days_to_month(year, month - 1) + month_length(year, month - 1)
    }
}

/// How many days lie between the first of January 1970 and a date.
pub open spec fn day_number(year: int, month: int, day: int) -> int {
    days_to_year(year) + days_to_month(year, month) + day - 1
}

/// A day of a year that begins with March.
spec fn march_days(month_index: int) -> int {
    (153 * month_index + 2) / 5
}

proof fn lemma_days_to_month(year: int)
    ensures
        days_to_month(year, 1) == 0,
        days_to_month(year, 2) == 31,
        forall|m: int|
            3 <= m <= 12 ==> #[trigger] days_to_month(year, m) == 59 + (if is_leap(year) {
                1int
            } else {
                0
            }) + march_days(m - 3),
{
    reveal_with_fuel(days_to_month, 13);
    assert(march_days(0) == 0 && march_days(1) == 31 && march_days(2) == 61 && march_days(3) == 92
        && march_days(4) == 122 && march_days(5) == 153 && march_days(6) == 184 && march_days(7)
        == 214 && march_days(8) == 245 && march_days(9) == 275);
    assert forall|m: int| 3 <= m <= 12 implies #[trigger] days_to_month(year, m) == 59 + (
    if is_leap(year) {
        1int
    } else {
        0
    }) + march_days(m - 3) by {
        assert(m == 3 || m == 4 || m == 5 || m == 6 || m == 7 || m == 8 || m == 9 || m == 10 || m
            == 11 || m == 12);
    }
}

proof fn lemma_multiple_step(n: int, d: int)
    requires
        d > 1,
    ensures
        n / d - (n - 1) / d == if n % d == 0 {
            1int
        } else {
            0
        },
{
    lemma_fundamental_div_mod(n, d);
    let q = n / d;
    let m = n % d;
    if m == 0 {
        assert(n - 1 == (q - 1) * d + (d - 1)) by (nonlinear_arith)
            requires
                n == d * q + m,
                m == 0,
        ;
        lemma_fundamental_div_mod_converse(n - 1, d, q - 1, d - 1);
    } else {
        lemma_mod_bound(n, d);
        assert(n - 1 == q * d + (m - 1)) by (nonlinear_arith)
            requires
                n == d * q + m,
        ;
        lemma_fundamental_div_mod_converse(n - 1, d, q, m - 1);
    }
}

proof fn lemma_leap_step(year: int)
    ensures
        leap_years(year) - leap_years(year - 1) == if is_leap(year) {
            1int
        } else {
            0
        },
{
    lemma_multiple_step(year, 4);
    lemma_multiple_step(year, 100);
    lemma_multiple_step(year, 400);
    lemma_multiples_nest(year, 100, 4);
    lemma_multiples_nest(year, 4, 25);
}

proof fn lemma_multiples_nest(n: int, d: int, times: int)
    requires
        d > 0,
        times > 0,
    ensures
        n % (d * times) == 0 ==> n % d == 0,
{
    let whole = d * times;
    assert(whole > 0) by (nonlinear_arith)
        requires
            whole == d * times,
            d > 0,
            times > 0,
    ;
    if n % whole == 0 {
        let q = n / whole;
        lemma_fundamental_div_mod(n, whole);
        assert(n == (times * q) * d + 0) by (nonlinear_arith)
            requires
                n == whole * q + 0,
                whole == d * times,
        ;
        lemma_fundamental_div_mod_converse(n, d, times * q, 0);
    }
}

/// The day number of a date by its place in a year that begins with March: `cycle` counts periods
/// of 400 years, `year` the years in it, and `day` the days from March on.
proof fn lemma_march_date(cycle: int, year: int, day: int, month_index: int)
    requires
        0 <= year < 400,
        0 <= day <= 365,
        day == 365 ==> is_leap(400 * cycle + year + 1),
        month_index == (5 * day + 2) / 153,
    ensures
        ({
            let month = if month_index < 10 {
                month_index + 3
            } else {
                month_index - 9
            };
            let civil_year = 400 * cycle + year + if month <= 2 {
                1int
            } else {
                0
            };
            let civil_day = day - march_days(month_index) + 1;
            &&& 0 <= month_index <= 11
            &&& is_date(civil_year, month, civil_day)
            &&& day_number(civil_year, month, civil_day) + 719_468 == 146_097 * cycle + 365 * year
                + year / 4 - year / 100 + day
        }),
{
    let y = 400 * cycle + year;
    let month = if month_index < 10 {
        month_index + 3
    } else {
        month_index - 9
    };
    assert(march_days(0) == 0 && march_days(1) == 31 && march_days(2) == 61 && march_days(3) == 92
        && march_days(4) == 122 && march_days(5) == 153 && march_days(6) == 184 && march_days(7)
        == 214 && march_days(8) == 245 && march_days(9) == 275 && march_days(10) == 306
        && march_days(11) == 337);
    assert(month_index == 0 || month_index == 1 || month_index == 2 || month_index == 3
        || month_index == 4 || month_index == 5 || month_index == 6 || month_index == 7
        || month_index == 8 || month_index == 9 || month_index == 10 || month_index == 11);
    assert(y / 4 == 100 * cycle + year / 4);
    assert(y / 100 == 4 * cycle + year / 100);
    assert(y / 400 == cycle);
    lemma_leap_step(y);
    lemma_days_to_month(y);
    lemma_days_to_month(y + 1);
    if month >= 3 {
        assert(days_to_month(y, month) == 59 + (if is_leap(y) {
            1int
        } else {
            0
        }) + march_days(month_index));
    }
}

/// Whole periods of 400 years, and the days that are left.
fn split_cycles(shifted: i64) -> (r: (i64, i64))
    ensures
        shifted == 146_097 * r.0 + r.1,
        0 <= r.1 < 146_097,
{
    if shifted >= 0 {
        (shifted / 146_097, shifted % 146_097)
    } else {
        let below: i64 = -(shifted + 1);
        (-1 - below / 146_097, 146_096 - below % 146_097)
    }
}

/// The year and the day of it, in a period of 400 years whose years begin with March.
fn split_years(day_of_cycle: i64) -> (r: (i64, i64))
    requires
        0 <= day_of_cycle < 146_097,
    ensures
        0 <= r.0 < 400,
        0 <= r.1 <= 365,
        day_of_cycle == 365 * r.0 + r.0 as int / 4 - r.0 as int / 100 + r.1,
        r.1 == 365 ==> is_leap(r.0 + 1),
{
    let century: i64 = if day_of_cycle / 36_524 > 3 {
        3
    } else {
        day_of_cycle / 36_524
    };
    let day_of_century: i64 = day_of_cycle - 36_524 * century;
    let quad: i64 = day_of_century / 1_461;
    let day_of_quad: i64 = day_of_century - 1_461 * quad;
    let rest: i64 = if day_of_quad / 365 > 3 {
        3
    } else {
        day_of_quad / 365
    };
    let day: i64 = day_of_quad - 365 * rest;
    let year: i64 = 100 * century + 4 * quad + rest;
    assert(0 <= century <= 3);
    assert(0 <= day_of_century <= 36_524);
    assert(0 <= quad <= 24);
    assert(0 <= rest <= 3);
    assert(year as int / 4 == 25 * century + quad);
    assert(year as int / 100 == century);
    assert(day == 365 ==> rest == 3);
    assert(day == 365 && quad == 24 ==> century == 3);
    (year, day)
}

proof fn lemma_leap_repeats(cycle: int, year: int)
    ensures
        is_leap(400 * cycle + year) == is_leap(year),
{
    lemma_mod_multiples_vanish(100 * cycle, year, 4);
    lemma_mod_multiples_vanish(4 * cycle, year, 100);
    lemma_mod_multiples_vanish(cycle, year, 400);
}

/// The date of a day number: the year, the month and the day of the month.
pub fn civil_date(days: i64) -> (r: (i64, u16, u16))
    requires
        days + 719_468 <= i64::MAX,
    ensures
        is_date(r.0 as int, r.1 as int, r.2 as int),
        day_number(r.0 as int, r.1 as int, r.2 as int) == days,
{
    let (cycle, day_of_cycle): (i64, i64) = split_cycles(days + 719_468);
    let (year, day): (i64, i64) = split_years(day_of_cycle);
    let month_index: i64 = (5 * day + 2) / 153;
    proof {
        lemma_leap_repeats(cycle as int, year + 1);
        lemma_march_date(cycle as int, year as int, day as int, month_index as int);
    }
    let month: i64 = if month_index < 10 {
        month_index + 3
    } else {
        month_index - 9
    };
    let day_of_month: i64 = day - (153 * month_index + 2) / 5 + 1;
    let civil_year: i64 = 400 * cycle + year + if month <= 2 {
        1
    } else {
        0
    };
    (civil_year, month as u16, day_of_month as u16)
}

/// Whether a date is that of a day number.
pub open spec fn falls_on(year: int, month: int, day: int, days: int) -> bool {
    is_date(year, month, day) && day_number(year, month, day) == days
}

/// Whether a date is that of a day number, its year as 16 bits hold it.
pub open spec fn shows_day(year: u16, month: u16, day: u16, days: int) -> bool {
    exists|full: int| #[trigger]
        falls_on(full, month as int, day as int, days) && year == full % 0x1_0000
}

/// The year of a date as 16 bits hold it, with the month and the day.
pub fn civil_from_days(days: i64) -> (r: (u16, u16, u16))
    requires
        days + 719_468 <= i64::MAX,
    ensures
        shows_day(r.0, r.1, r.2, days as int),
{
    let (year, month, day) = civil_date(days);
    let short: u16 = if year >= 0 {
        (year % 0x1_0000) as u16
    } else {
        (0xFFFF - (-(year + 1)) % 0x1_0000) as u16
    };
    proof {
        if year < 0 {
            let rest = (-(year + 1)) as int;
            lemma_fundamental_div_mod(rest, 0x1_0000);
            lemma_fundamental_div_mod_converse(
                year as int,
                0x1_0000,
                -1 - rest / 0x1_0000,
                0xFFFF - rest % 0x1_0000,
            );
        }
    }
    assert(short == year as int % 0x1_0000);
    assert(falls_on(year as int, month as int, day as int, days as int));
    assert(shows_day(short, month, day, days as int));
    (short, month, day)
}

proof fn lemma_days_of_year(year: int, month: int, day: int)
    requires
        is_date(year, month, day),
    ensures
        0 <= days_to_month(year, month) + day - 1 < 365 + if is_leap(year) {
            1int
        } else {
            0
        },
{
    lemma_days_to_month(year);
    assert(march_days(0) == 0 && march_days(1) == 31 && march_days(2) == 61 && march_days(3) == 92
        && march_days(4) == 122 && march_days(5) == 153 && march_days(6) == 184 && march_days(7)
        == 214 && march_days(8) == 245 && march_days(9) == 275);
    assert(month == 1 || month == 2 || month == 3 || month == 4 || month == 5 || month == 6 || month
        == 7 || month == 8 || month == 9 || month == 10 || month == 11 || month == 12);
}

proof fn lemma_days_to_year_ascend(a: int, b: int)
    requires
        a <= b,
    ensures
        days_to_year(a) <= days_to_year(b),
    decreases b - a,
{
    if a < b {
        lemma_days_to_year_ascend(a, b - 1);
        lemma_leap_step(b - 1);
    }
}

/// No two dates have the same day number.
pub proof fn law_day_numbers_are_unique(
    year1: int,
    month1: int,
    day1: int,
    year2: int,
    month2: int,
    day2: int,
)
    requires
        is_date(year1, month1, day1),
        is_date(year2, month2, day2),
        day_number(year1, month1, day1) == day_number(year2, month2, day2),
    ensures
        year1 == year2,
        month1 == month2,
        day1 == day2,
{
    lemma_days_of_year(year1, month1, day1);
    lemma_days_of_year(year2, month2, day2);
    lemma_leap_step(year1);
    lemma_leap_step(year2);
    if year1 < year2 {
        lemma_days_to_year_ascend(year1 + 1, year2);
    } else if year2 < year1 {
        lemma_days_to_year_ascend(year2 + 1, year1);
    }
    lemma_days_to_month(year1);
    assert(march_days(0) == 0 && march_days(1) == 31 && march_days(2) == 61 && march_days(3) == 92
        && march_days(4) == 122 && march_days(5) == 153 && march_days(6) == 184 && march_days(7)
        == 214 && march_days(8) == 245 && march_days(9) == 275);
    assert(month1 == 1 || month1 == 2 || month1 == 3 || month1 == 4 || month1 == 5 || month1 == 6
        || month1 == 7 || month1 == 8 || month1 == 9 || month1 == 10 || month1 == 11 || month1
        == 12);
    assert(month2 == 1 || month2 == 2 || month2 == 3 || month2 == 4 || month2 == 5 || month2 == 6
        || month2 == 7 || month2 == 8 || month2 == 9 || month2 == 10 || month2 == 11 || month2
        == 12);
}

proof fn lemma_time_of_day(seconds: int)
    requires
        seconds >= 0,
    ensures
        seconds % 86_400 / 3_600 == seconds / 3_600 % 24,
        seconds % 86_400 % 3_600 / 60 == seconds / 60 % 60,
        seconds % 86_400 % 60 == seconds % 60,
{
    let days = seconds / 86_400;
    let rest = seconds % 86_400;
    let hours = rest / 3_600;
    let minutes = rest % 3_600 / 60;
    assert(0 <= hours < 24 && 0 <= minutes < 60);
    assert(seconds / 3_600 == 24 * days + hours) by {
        lemma_fundamental_div_mod_converse(
            seconds,
            3_600,
            24 * days + hours,
            rest % 3_600,
        );
    }
    lemma_mod_multiples_vanish(days, hours, 24);
    assert(seconds / 60 == 60 * (24 * days + hours) + minutes) by {
        lemma_fundamental_div_mod_converse(
            seconds,
            60,
            60 * (24 * days + hours) + minutes,
            rest % 3_600 % 60,
        );
    }
    lemma_mod_multiples_vanish(24 * days + hours, minutes, 60);
    lemma_mod_multiples_vanish(1_440 * days, rest, 60);
}

impl WallClock {
    /// Whether a clock in UTC shows this, a number of milliseconds after the Unix epoch.
    pub open spec fn shows(self, millis: u64) -> bool {
        &&& self.hour == millis / 3_600_000 % 24
        &&& self.minute == millis / 60_000 % 60
        &&& self.second == millis / 1000 % 60
        &&& self.millisecond == millis % 1000
        &&& shows_day(self.year, self.month, self.day, millis as int / 86_400_000)
    }
}

/// The moment in UTC that lies a number of milliseconds after the Unix epoch.
pub fn wall_clock(millis: u64) -> (r: WallClock)
    ensures
        r.shows(millis),
{
    let seconds: u64 = millis / 1000;
    let days: u64 = seconds / 86_400;
    let time_of_day: u64 = seconds % 86_400;
    let (year, month, day) = civil_from_days(days as i64);
    proof {
        lemma_div_denominator(millis as int, 1000, 86_400);
        lemma_div_denominator(millis as int, 1000, 3_600);
        lemma_div_denominator(millis as int, 1000, 60);
        lemma_time_of_day(seconds as int);
    }
    WallClock {
        year,
        month,
        day,
        hour: (time_of_day / 3_600) as u16,
        minute: (time_of_day % 3_600 / 60) as u16,
        second: (time_of_day % 60) as u16,
        millisecond: (millis % 1000) as u16,
    }
}

/// The timestamp of now, in UTC. An undated line could not be lined up with the moment at which a
/// user noticed something.
pub fn timestamp() -> (r: String)
    ensures
        exists|millis: u64, clock: WallClock| #[trigger]
            clock.shows(millis) && r@ == clock.text(),
{
    let millis: u64 = clock::now_ms();
    let clock = wall_clock(millis);
    assert(clock.shows(millis));
    format_timestamp(&clock)
}

/// The days of the calendar follow each other without a gap, from the first of January 1970 on: the
/// day after any other day, the first of the next month after the last of one, and the first of
/// January after the last of December.
pub proof fn law_days_follow_each_other(year: int, month: int, day: int)
    ensures
        day_number(1970, 1, 1) == 0,
        day_number(year, month, day + 1) == day_number(year, month, day) + 1,
        1 <= month <= 11 ==> day_number(year, month + 1, 1) == day_number(
            year,
            month,
            month_length(year, month),
        ) + 1,
        day_number(year + 1, 1, 1) == day_number(year, 12, 31) + 1,
{
    reveal_with_fuel(days_to_month, 13);
    lemma_year_length(year);
}

proof fn lemma_year_length(year: int)
    ensures
        days_to_year(year + 1) - days_to_year(year) == if is_leap(year) {
            366int
        } else {
            365
        },
{
    lemma_leap_step(year);
}

/// A year has 366 days where it is a leap year and 365 where it is not: every fourth year is one,
/// of the full centuries only every fourth.
pub proof fn law_leap_years(year: int)
    ensures
        days_to_year(year + 1) - days_to_year(year) == 366 <==> year % 4 == 0 && (year % 100 != 0
            || year % 400 == 0),
        days_to_year(year + 1) - days_to_year(year) == 365 || days_to_year(year + 1) - days_to_year(
            year,
        ) == 366,
        month_length(year, 2) == days_to_year(year + 1) - days_to_year(year) - 337,
        month_length(year, 1) == 31 && month_length(year, 3) == 31 && month_length(year, 4) == 30
            && month_length(year, 5) == 31 && month_length(year, 6) == 30,
        month_length(year, 7) == 31 && month_length(year, 8) == 31 && month_length(year, 9) == 30
            && month_length(year, 10) == 31 && month_length(year, 11) == 30 && month_length(
            year,
            12,
        ) == 31,
{
    lemma_year_length(year);
}

/// The parts of a moment add up to the milliseconds of its day.
pub proof fn law_moments_add_up(clock: WallClock, millis: u64)
    requires
        clock.shows(millis),
    ensures
        clock.hour * 3_600_000 + clock.minute * 60_000 + clock.second * 1000 + clock.millisecond
            == millis % 86_400_000,
        clock.hour < 24,
        clock.minute < 60,
        clock.second < 60,
        clock.millisecond < 1000,
{
    let n = millis as int;
    assert(n / 1000 / 60 == n / 60_000);
    assert(n / 60_000 / 60 == n / 3_600_000);
    assert(n / 3_600_000 / 24 == n / 86_400_000);
}

} // verus!
