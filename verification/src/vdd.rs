//! Control of the bundled MTT Virtual Display Driver: its settings file, the identity of its
//! devices, and the order of the steps that install, restart and remove it.
use crate::reading;
use crate::text;
use crate::wide;
use vstd::prelude::*;

verus! {

pub const HARDWARE_ID: &'static str = "Root\\MttVDD";

/// The most displays that one request asks of the driver.
pub const MAX_DRIVER_DISPLAYS: u32 = 8;

#[derive(Clone, Copy, Debug, PartialEq, Eq, Structural)]
pub enum VddAction {
    /// Install the bundled driver if no device node exists yet.
    Install,
    /// Write the monitor count and restart the driver so it takes effect.
    SetCount,
    /// Remove every bundled virtual display device.
    Remove,
    /// Enable the installed devices.
    Enable,
    /// Disable the installed devices without removing them.
    Disable,
}

impl VddAction {
    pub open spec fn spec_name(self) -> Seq<char> {
        match self {
            VddAction::Install => "install"@,
            VddAction::SetCount => "set-count"@,
            VddAction::Remove => "remove"@,
            VddAction::Enable => "enable"@,
            VddAction::Disable => "disable"@,
        }
    }

    /// The name of the action on a command line.
    pub fn name(self) -> (r: &'static str)
        ensures
            r@ == self.spec_name(),
    {
        match self {
            VddAction::Install => "install",
            VddAction::SetCount => "set-count",
            VddAction::Remove => "remove",
            VddAction::Enable => "enable",
            VddAction::Disable => "disable",
        }
    }
}

/// What a request comes to.
#[derive(Debug, PartialEq, Eq)]
pub enum VddRequest {
    /// This process may perform the action itself.
    Apply,
    /// The same executable is launched through the elevation prompt, with these arguments.
    Elevate(String),
}

pub open spec fn elevation_arguments(action: VddAction, count: u32) -> Seq<char> {
    "vdd --action "@ + action.spec_name() + " --count "@ + text::dec(count as nat)
}

/// Decides how an action is run: in a hidden elevated child process where this one is not
/// elevated.
pub fn request(elevated: bool, action: VddAction, count: u32) -> (r: VddRequest)
    ensures
        match r {
            VddRequest::Apply => elevated,
            VddRequest::Elevate(arguments) => !elevated && arguments@ == elevation_arguments(
                action,
                count,
            ),
        },
{
    if elevated {
        return VddRequest::Apply;
    }
    let mut out = "vdd --action ".to_owned();
    out.push_str(action.name());
    out.push_str(" --count ");
    text::push_dec(&mut out, count as u64);
    VddRequest::Elevate(out)
}

/// One thing done to the driver.
#[derive(Clone, Copy, Debug, PartialEq, Eq, Structural)]
pub enum VddStep {
    /// Write a monitor count to the settings file.
    WriteCount(u32),
    /// Install the driver, where no device of it exists.
    InstallIfMissing,
    /// Disable the devices, then enable them, where the settings file has moved.
    RestartIfMoved,
    /// Remove every device.
    Remove,
    /// Enable or disable every device.
    SetEnabled(bool),
}

/// The number of displays that the driver is asked for.
pub open spec fn driver_count(count: u32) -> u32 {
    if count < 1 {
        1
    } else if count > MAX_DRIVER_DISPLAYS {
        MAX_DRIVER_DISPLAYS
    } else {
        count
    }
}

pub open spec fn steps_of(action: VddAction, count: u32) -> Seq<VddStep> {
    match action {
        VddAction::Install => seq![VddStep::InstallIfMissing],
        VddAction::SetCount => seq![
            VddStep::WriteCount(driver_count(count)),
            VddStep::InstallIfMissing,
            VddStep::RestartIfMoved,
        ],
        VddAction::Remove => seq![VddStep::Remove],
        VddAction::Enable => seq![VddStep::SetEnabled(true)],
        VddAction::Disable => seq![VddStep::SetEnabled(false)],
    }
}

/// The steps of an action, in order; the first that fails ends it. The driver reads its settings
/// once at start, so a count that has moved needs a restart.
pub fn apply(action: VddAction, count: u32) -> (r: Vec<VddStep>)
    ensures
        r@ == steps_of(action, count),
{
    match action {
        VddAction::Install => vec![VddStep::InstallIfMissing],
        VddAction::SetCount => {
            let wanted: u32 = if count < 1 {
                1
            } else if count > MAX_DRIVER_DISPLAYS {
                MAX_DRIVER_DISPLAYS
            } else {
                count
            };
            vec![VddStep::WriteCount(wanted), VddStep::InstallIfMissing, VddStep::RestartIfMoved]
        },
        VddAction::Remove => vec![VddStep::Remove],
        VddAction::Enable => vec![VddStep::SetEnabled(true)],
        VddAction::Disable => vec![VddStep::SetEnabled(false)],
    }
}

/// Why the settings file cannot be rewritten.
#[derive(Clone, Copy, Debug, PartialEq, Eq, Structural)]
pub enum VddError {
    NoRoot,
    UnterminatedMonitors,
    UnterminatedCount,
}

impl VddError {
    pub open spec fn text(self) -> Seq<char> {
        match self {
            VddError::NoRoot => "vdd_settings.xml has no <vdd_settings> element"@,
            VddError::UnterminatedMonitors =>
                "vdd_settings.xml has an unterminated <monitors> element"@,
            VddError::UnterminatedCount => "vdd_settings.xml has an unterminated <count> element"@,
        }
    }

    pub fn message(self) -> (r: String)
        ensures
            r@ == self.text(),
    {
        match self {
            VddError::NoRoot => "vdd_settings.xml has no <vdd_settings> element".to_owned(),
            VddError::UnterminatedMonitors =>
                "vdd_settings.xml has an unterminated <monitors> element".to_owned(),
            VddError::UnterminatedCount =>
                "vdd_settings.xml has an unterminated <count> element".to_owned(),
        }
    }
}

/// A text with another one put in at a position.
pub open spec fn with_inserted(s: Seq<char>, at: int, insert: Seq<char>) -> Seq<char> {
    s.take(at) + insert + s.skip(at)
}

/// A section that holds a count, as it is added to settings without one.
pub open spec fn monitors_element(count: nat) -> Seq<char> {
    "\n    <monitors>\n        <count>"@ + text::dec(count) + "</count>\n    </monitors>"@
}

/// A count, as it is added to a section without one.
pub open spec fn count_element(count: nat) -> Seq<char> {
    "\n        <count>"@ + text::dec(count) + "</count>"@
}

/// Where the driver's settings hold the count.
pub enum CountPlace {
    /// Nowhere: a section is to be added at this position.
    NoSection(int),
    /// Nowhere, but there is a section: the count is to be added at this position.
    NoCount(int),
    /// Between these two positions.
    Value(int, int),
    Malformed(VddError),
}

/// The first section named `monitors` counts, up to where it ends; in it the first count.
pub open spec fn count_place(settings: Seq<char>) -> CountPlace {
    match text::position(settings, "<monitors>"@, 0) {
        None => match text::position(settings, "<vdd_settings>"@, 0) {
            None => CountPlace::Malformed(VddError::NoRoot),
            Some(at) => CountPlace::NoSection(at + "<vdd_settings>"@.len()),
        },
        Some(start) => match text::position(settings, "</monitors>"@, start) {
            None => CountPlace::Malformed(VddError::UnterminatedMonitors),
            Some(end) => match text::position(settings.take(end), "<count>"@, start) {
                None => CountPlace::NoCount(start + "<monitors>"@.len()),
                Some(at) => {
                    let value = at + "<count>"@.len();
                    match text::position(settings, "</count>"@, value) {
                        None => CountPlace::Malformed(VddError::UnterminatedCount),
                        Some(close) => CountPlace::Value(value, close),
                    }
                },
            },
        },
    }
}

/// The settings with a count in place of the one they hold.
pub open spec fn with_count(settings: Seq<char>, count: nat) -> Result<Seq<char>, VddError> {
    match count_place(settings) {
        CountPlace::NoSection(at) => Ok(with_inserted(settings, at, monitors_element(count))),
        CountPlace::NoCount(at) => Ok(with_inserted(settings, at, count_element(count))),
        CountPlace::Value(from, to) => Ok(
            settings.take(from) + text::dec(count) + settings.skip(to),
        ),
        CountPlace::Malformed(error) => Err(error),
    }
}

/// Characters from one position up to another, as a string.
fn slice(chars: &[char], from: usize, to: usize) -> (r: String)
    requires
        from <= to <= chars.len(),
    ensures
        r@ == chars@.subrange(from as int, to as int),
{
    let range = text::copy_range(chars, from, to);
    text::string_of(&range)
}

/// Swaps the count in the driver's settings, which are taken as text: the file is the
/// application's own to begin with.
pub fn replace_monitor_count(settings: &str, count: u32) -> (r: Result<String, VddError>)
    ensures
        match r {
            Ok(updated) => with_count(settings@, count as nat) == Ok::<Seq<char>, VddError>(
                updated@,
            ),
            Err(error) => with_count(settings@, count as nat) == Err::<Seq<char>, VddError>(error),
        },
{
    let chars = text::chars_of(settings);
    let length: usize = chars.len();
    let open = text::chars_of("<monitors>");
    let close = text::chars_of("</monitors>");
    let count_open = text::chars_of("<count>");
    let count_close = text::chars_of("</count>");
    let digits = text::dec_string(count as u64);
    let start: usize = match text::find_from(&chars, &open, 0) {
        Some(at) => at,
        None => {
            let root = text::chars_of("<vdd_settings>");
            let at: usize = match text::find_from(&chars, &root, 0) {
                Some(found) => found,
                None => return Err(VddError::NoRoot),
            };
            let anchor: usize = at + root.len();
            let mut out = slice(&chars, 0, anchor);
            out.push_str("\n    <monitors>\n        <count>");
            out.push_str(&digits);
            out.push_str("</count>\n    </monitors>");
            out.push_str(&slice(&chars, anchor, length));
            assert(out@ == with_inserted(chars@, anchor as int, monitors_element(count as nat)));
            return Ok(out);
        },
    };
    let end: usize = match text::find_from(&chars, &close, start) {
        Some(at) => at,
        None => return Err(VddError::UnterminatedMonitors),
    };
    let section = text::copy_range(&chars, 0, end);
    assert(section@ == chars@.take(end as int));
    let value: usize = match text::find_from(&section, &count_open, start) {
        Some(at) => at + count_open.len(),
        None => {
            let anchor: usize = start + open.len();
            let mut out = slice(&chars, 0, anchor);
            out.push_str("\n        <count>");
            out.push_str(&digits);
            out.push_str("</count>");
            out.push_str(&slice(&chars, anchor, length));
            assert(out@ == with_inserted(chars@, anchor as int, count_element(count as nat)));
            return Ok(out);
        },
    };
    let value_end: usize = match text::find_from(&chars, &count_close, value) {
        Some(at) => at,
        None => return Err(VddError::UnterminatedCount),
    };
    let mut out = slice(&chars, 0, value);
    out.push_str(&digits);
    out.push_str(&slice(&chars, value_end, length));
    assert(out@ == chars@.take(value as int) + text::dec(count as nat) + chars@.skip(
        value_end as int,
    ));
    Ok(out)
}

/// A mark of the settings: it opens with `<` and holds no other one.
spec fn is_mark(mark: Seq<char>) -> bool {
    &&& mark.len() >= 2
    &&& mark[0] == '<'
    &&& forall|k: int| 1 <= k < mark.len() ==> mark[k] != '<'
}

proof fn lemma_marks()
    ensures
        is_mark("<monitors>"@),
        is_mark("</monitors>"@),
        is_mark("<count>"@),
        is_mark("</count>"@),
        is_mark("<vdd_settings>"@),
        "<monitors>"@[1] == 'm',
        "</monitors>"@[1] == '/',
        "</monitors>"@[2] == 'm',
        "<count>"@[1] == 'c',
        "</count>"@[1] == '/',
        "</count>"@[2] == 'c',
        "<monitors>"@.len() == 10,
        "</monitors>"@.len() == 11,
        "<count>"@.len() == 7,
        "</count>"@.len() == 8,
{
    reveal_strlit("<monitors>");
    reveal_strlit("</monitors>");
    reveal_strlit("<count>");
    reveal_strlit("</count>");
    reveal_strlit("<vdd_settings>");
}

proof fn lemma_occurrence(hay: Seq<char>, needle: Seq<char>, at: int)
    requires
        text::occurs_at(hay, needle, at),
    ensures
        forall|k: int| 0 <= k < needle.len() ==> #[trigger] needle[k] == hay[at + k],
{
    assert forall|k: int| 0 <= k < needle.len() implies #[trigger] needle[k] == hay[at + k] by {
        assert(hay.subrange(at, at + needle.len())[k] == hay[at + k]);
    }
}

proof fn lemma_occurrence_by_chars(hay: Seq<char>, needle: Seq<char>, at: int)
    requires
        0 <= at,
        at + needle.len() <= hay.len(),
        forall|k: int| 0 <= k < needle.len() ==> #[trigger] needle[k] == hay[at + k],
    ensures
        text::occurs_at(hay, needle, at),
{
    assert(hay.subrange(at, at + needle.len()) == needle);
}

/// A mark stands in an edited text where it stood before the edit, and nowhere else outside it:
/// `hay` is `start` and `end` with `old_middle` between them, `edited` with `new_middle`.
proof fn lemma_mark_outside(
    start: Seq<char>,
    old_middle: Seq<char>,
    new_middle: Seq<char>,
    end: Seq<char>,
    mark: Seq<char>,
    at: int,
)
    requires
        is_mark(mark),
    ensures
        at + mark.len() <= start.len() ==> text::occurs_at(start + new_middle + end, mark, at)
            == text::occurs_at(start + old_middle + end, mark, at),
        at >= start.len() + new_middle.len() ==> text::occurs_at(
            start + new_middle + end,
            mark,
            at,
        ) == text::occurs_at(
            start + old_middle + end,
            mark,
            at - new_middle.len() + old_middle.len(),
        ),
{
    let edited = start + new_middle + end;
    let hay = start + old_middle + end;
    if 0 <= at && at + mark.len() <= start.len() {
        assert(edited.subrange(at, at + mark.len()) == hay.subrange(at, at + mark.len()));
    }
    let shifted = at - new_middle.len() + old_middle.len();
    if at >= start.len() + new_middle.len() && at + mark.len() <= edited.len() {
        assert(edited.subrange(at, at + mark.len()) == hay.subrange(
            shifted,
            shifted + mark.len(),
        ));
    }
}

/// Two marks do not overlap.
proof fn lemma_marks_apart(hay: Seq<char>, a: Seq<char>, i: int, b: Seq<char>, j: int)
    requires
        is_mark(a),
        is_mark(b),
        text::occurs_at(hay, a, i),
        text::occurs_at(hay, b, j),
        i < j,
    ensures
        i + a.len() <= j,
{
    lemma_occurrence(hay, a, i);
    lemma_occurrence(hay, b, j);
    if j < i + a.len() {
        assert(a[j - i] == hay[j]);
        assert(b[0] == hay[j]);
    }
}

/// A mark that stands in a text covers no position that holds another one's opening.
proof fn lemma_not_over(hay: Seq<char>, mark: Seq<char>, at: int, opening: int)
    requires
        is_mark(mark),
        text::occurs_at(hay, mark, at),
        at < opening < hay.len(),
        hay[opening] == '<',
    ensures
        at + mark.len() <= opening,
{
    lemma_occurrence(hay, mark, at);
    if opening < at + mark.len() {
        assert(mark[opening - at] == hay[opening]);
    }
}

/// The count that settings hold, as it is written there.
pub open spec fn count_text(settings: Seq<char>) -> Option<Seq<char>> {
    match count_place(settings) {
        CountPlace::Value(from, to) => Some(settings.subrange(from, to)),
        _ => None,
    }
}

/// Whether the count is closed inside of its section.
pub open spec fn closed_in_section(settings: Seq<char>) -> bool {
    match count_place(settings) {
        CountPlace::Value(from, to) => {
            let start = text::position(settings, "<monitors>"@, 0)->0;
            to < text::position(settings, "</monitors>"@, start)->0
        },
        _ => true,
    }
}

proof fn lemma_no_mark_in_digits(count: nat)
    ensures
        text::dec(count).len() >= 1,
        forall|k: int| 0 <= k < text::dec(count).len() ==> #[trigger] text::dec(count)[k] != '<',
{
    text::lemma_dec_digits(count);
    assert forall|k: int| 0 <= k < text::dec(count).len() implies #[trigger] text::dec(count)[k]
        != '<' by {
        assert(text::is_digit(text::dec(count)[k]));
    }
}

/// Settings whose first section and first count in it are known hold that count.
proof fn lemma_count_found(s: Seq<char>, start: int, at: int, length: int, end: int)
    requires
        0 <= length,
        text::first_at(s, "<monitors>"@, 0, start),
        text::first_at(s, "</monitors>"@, start, end),
        text::first_at(s, "<count>"@, start, at),
        at + "<count>"@.len() + length <= end,
        forall|k: int|
            at + "<count>"@.len() <= k < at + "<count>"@.len() + length ==> #[trigger] s[k] != '<',
        text::occurs_at(s, "</count>"@, at + "<count>"@.len() + length),
    ensures
        count_place(s) == CountPlace::Value(
            at + "<count>"@.len(),
            at + "<count>"@.len() + length,
        ),
        closed_in_section(s),
{
    lemma_marks();
    let open = "<count>"@;
    let value = at + open.len();
    let close = value + length;
    text::lemma_first_is_position(s, "<monitors>"@, 0, start);
    text::lemma_first_is_position(s, "</monitors>"@, start, end);
    let section = s.take(end);
    assert(text::occurs_at(section, open, at)) by {
        assert(section.subrange(at, value) == s.subrange(at, value));
    }
    assert forall|k: int| start <= k < at implies !text::occurs_at(section, open, k) by {
        if text::occurs_at(section, open, k) {
            assert(section.subrange(k, k + open.len()) == s.subrange(k, k + open.len()));
            assert(text::occurs_at(s, open, k));
        }
    }
    text::lemma_first_is_position(section, open, start, at);
    assert forall|k: int| value <= k < close implies !text::occurs_at(s, "</count>"@, k) by {
        if text::occurs_at(s, "</count>"@, k) {
            lemma_occurrence(s, "</count>"@, k);
            assert("</count>"@[0] == s[k + 0]);
        }
    }
    text::lemma_first_is_position(s, "</count>"@, value, close);
    if close == end {
        lemma_occurrence(s, "</count>"@, close);
        lemma_occurrence(s, "</monitors>"@, close);
        assert("</count>"@[2] == s[close + 2]);
        assert("</monitors>"@[2] == s[close + 2]);
    }
}

#[verifier::spinoff_prover]
#[verifier::rlimit(50)]
proof fn lemma_value_replaced(s: Seq<char>, count: nat)
    requires
        count_place(s) is Value,
        closed_in_section(s),
    ensures
        ({
            let from = count_place(s)->Value_0;
            let updated = with_count(s, count)->Ok_0;
            &&& count_place(updated) == CountPlace::Value(from, from + text::dec(count).len())
            &&& closed_in_section(updated)
        }),
{
    lemma_marks();
    lemma_no_mark_in_digits(count);
    let open = "<monitors>"@;
    let close = "</monitors>"@;
    let count_open = "<count>"@;
    let count_close = "</count>"@;
    let digits = text::dec(count);
    text::lemma_position(s, open, 0);
    let start = text::position(s, open, 0)->0;
    text::lemma_position(s, close, start);
    let end = text::position(s, close, start)->0;
    text::lemma_position(s.take(end), count_open, start);
    let at = text::position(s.take(end), count_open, start)->0;
    let from = at + count_open.len();
    text::lemma_position(s, count_close, from);
    let to = text::position(s, count_close, from)->0;
    lemma_occurrence(s.take(end), count_open, at);
    assert(forall|k: int| 0 <= k < count_open.len() ==> #[trigger] count_open[k] == s[at + k]);
    lemma_occurrence_by_chars(s, count_open, at);
    lemma_marks_apart(s, count_close, to, close, end);
    lemma_occurrence(s, open, start);
    if at == start {
        assert(count_open[1] == s[at + 1]);
        assert(open[1] == s[start + 1]);
    }
    lemma_marks_apart(s, open, start, count_open, at);
    let a = s.take(from);
    let v = s.subrange(from, to);
    let b = s.skip(to);
    assert(s == a + v + b);
    let updated = a + digits + b;
    let new_end = end - v.len() + digits.len();
    assert forall|k: int| 0 <= k <= start implies text::occurs_at(updated, open, k)
        == text::occurs_at(s, open, k) by {
        lemma_mark_outside(a, v, digits, b, open, k);
    }
    assert forall|k: int| start <= k <= at implies text::occurs_at(updated, count_open, k)
        == text::occurs_at(s, count_open, k) by {
        lemma_mark_outside(a, v, digits, b, count_open, k);
    }
    assert forall|k: int| start <= k < at implies !text::occurs_at(s, count_open, k) by {
        if text::occurs_at(s, count_open, k) {
            lemma_occurrence(s, count_open, k);
            assert(forall|j: int|
                0 <= j < count_open.len() ==> #[trigger] count_open[j] == s.take(end)[k + j]);
            lemma_occurrence_by_chars(s.take(end), count_open, k);
        }
    }
    lemma_mark_outside(a, v, digits, b, close, new_end);
    lemma_mark_outside(a, v, digits, b, count_close, from + digits.len());
    lemma_occurrence(updated, count_open, at);
    assert forall|k: int| start <= k < new_end implies !text::occurs_at(updated, close, k) by {
        if text::occurs_at(updated, close, k) {
            lemma_occurrence(updated, close, k);
            assert(close[0] == updated[k + 0]);
            assert(close[1] == updated[k + 1]);
            if k < at {
                assert(count_open[0] == updated[at + 0]);
                lemma_not_over(updated, close, k, at);
                lemma_mark_outside(a, v, digits, b, close, k);
            } else if k < from {
                assert(count_open[k - at] == updated[at + (k - at)]);
                assert(count_open[1] == updated[at + 1]);
            } else if k < from + digits.len() {
                assert(updated[k] == digits[k - from]);
            } else {
                lemma_mark_outside(a, v, digits, b, close, k);
            }
        }
    }
    assert forall|k: int| from <= k < from + digits.len() implies #[trigger] updated[k] != '<' by {
        assert(updated[k] == digits[k - from]);
    }
    lemma_count_found(updated, start, at, digits.len() as int, new_end);
}

#[verifier::spinoff_prover]
#[verifier::rlimit(50)]
proof fn lemma_count_added(s: Seq<char>, count: nat)
    requires
        count_place(s) is NoCount,
    ensures
        ({
            let updated = with_count(s, count)->Ok_0;
            let from = count_place(s)->NoCount_0 + 16;
            &&& count_place(updated) == CountPlace::Value(from, from + text::dec(count).len())
            &&& closed_in_section(updated)
            &&& updated.subrange(from, from + text::dec(count).len()) == text::dec(count)
        }),
{
    lemma_marks();
    lemma_no_mark_in_digits(count);
    reveal_strlit("\n        <count>");
    reveal_strlit("<count>");
    let open = "<monitors>"@;
    let close = "</monitors>"@;
    let count_open = "<count>"@;
    let count_close = "</count>"@;
    let before = "\n        <count>"@;
    let digits = text::dec(count);
    let insert = count_element(count);
    text::lemma_position(s, open, 0);
    let start = text::position(s, open, 0)->0;
    text::lemma_position(s, close, start);
    let end = text::position(s, close, start)->0;
    let anchor = start + open.len();
    lemma_occurrence(s, open, start);
    lemma_occurrence(s, close, end);
    if end == start {
        assert(open[1] == s[start + 1]);
        assert(close[1] == s[end + 1]);
    }
    lemma_marks_apart(s, open, start, close, end);
    let a = s.take(anchor);
    let v = Seq::<char>::empty();
    let b = s.skip(anchor);
    assert(s == a + v + b);
    let updated = a + insert + b;
    assert(updated == with_count(s, count)->Ok_0);
    let at = anchor + 9;
    let from = at + 7;
    let new_end = end + insert.len();
    assert forall|k: int| 0 <= k <= start implies text::occurs_at(updated, open, k)
        == text::occurs_at(s, open, k) by {
        lemma_mark_outside(a, v, insert, b, open, k);
    }
    lemma_occurrence(updated, open, start);
    assert(forall|k: int| 0 <= k < 16 ==> #[trigger] updated[anchor + k] == before[k]);
    assert(forall|k: int| 0 <= k < digits.len() ==> #[trigger] updated[from + k] == digits[k]);
    assert(forall|k: int|
        0 <= k < 8 ==> #[trigger] updated[from + digits.len() + k] == count_close[k]);
    assert forall|k: int| 0 <= k < count_open.len() implies #[trigger] count_open[k] == updated[at
        + k] by {
        assert(updated[anchor + (9 + k)] == before[9 + k]);
    }
    lemma_occurrence_by_chars(updated, count_open, at);
    lemma_occurrence_by_chars(updated, count_close, from + digits.len());
    lemma_mark_outside(a, v, insert, b, close, new_end);
    assert forall|k: int| start <= k < at implies !text::occurs_at(updated, count_open, k) by {
        if text::occurs_at(updated, count_open, k) {
            lemma_occurrence(updated, count_open, k);
            assert(count_open[0] == updated[k + 0]);
            assert(count_open[1] == updated[k + 1]);
            if k < anchor {
                assert(open[k - start] == updated[start + (k - start)]);
                assert(open[1] == updated[start + 1]);
            } else {
                assert(updated[anchor + (k - anchor)] == before[k - anchor]);
            }
        }
    }
    assert forall|k: int| start <= k < new_end implies !text::occurs_at(updated, close, k) by {
        if text::occurs_at(updated, close, k) {
            lemma_occurrence(updated, close, k);
            assert(close[0] == updated[k + 0]);
            assert(close[1] == updated[k + 1]);
            assert(close[2] == updated[k + 2]);
            if k < anchor {
                assert(open[k - start] == updated[start + (k - start)]);
                assert(open[1] == updated[start + 1]);
            } else if k < from {
                assert(updated[anchor + (k - anchor)] == before[k - anchor]);
                assert(updated[anchor + 10] == before[10]);
            } else if k < from + digits.len() {
                assert(updated[from + (k - from)] == digits[k - from]);
            } else if k < from + digits.len() + 8 {
                let j = k - from - digits.len();
                assert(updated[from + digits.len() + j] == count_close[j]);
                assert(updated[from + digits.len() + 2] == count_close[2]);
            } else {
                lemma_mark_outside(a, v, insert, b, close, k);
            }
        }
    }
    assert forall|k: int| from <= k < from + digits.len() implies #[trigger] updated[k] != '<' by {
        assert(updated[from + (k - from)] == digits[k - from]);
    }
    lemma_count_found(updated, start, at, digits.len() as int, new_end);
    assert(updated.subrange(from, from + digits.len()) == digits) by {
        assert(forall|k: int| 0 <= k < digits.len() ==> updated[from + k] == digits[k]);
    }
}

#[verifier::spinoff_prover]
#[verifier::rlimit(50)]
proof fn lemma_section_added(s: Seq<char>, count: nat)
    requires
        count_place(s) is NoSection,
    ensures
        ({
            let updated = with_count(s, count)->Ok_0;
            let from = count_place(s)->NoSection_0 + 31;
            &&& count_place(updated) == CountPlace::Value(from, from + text::dec(count).len())
            &&& closed_in_section(updated)
            &&& updated.subrange(from, from + text::dec(count).len()) == text::dec(count)
        }),
{
    lemma_marks();
    lemma_no_mark_in_digits(count);
    reveal_strlit("\n    <monitors>\n        <count>");
    reveal_strlit("</count>\n    </monitors>");
    reveal_strlit("<monitors>");
    reveal_strlit("</monitors>");
    reveal_strlit("<count>");
    reveal_strlit("</count>");
    let open = "<monitors>"@;
    let close = "</monitors>"@;
    let count_open = "<count>"@;
    let count_close = "</count>"@;
    let before = "\n    <monitors>\n        <count>"@;
    let after = "</count>\n    </monitors>"@;
    let digits = text::dec(count);
    let insert = monitors_element(count);
    text::lemma_position(s, open, 0);
    text::lemma_position(s, "<vdd_settings>"@, 0);
    let anchor = count_place(s)->NoSection_0;
    let a = s.take(anchor);
    let v = Seq::<char>::empty();
    let b = s.skip(anchor);
    assert(s == a + v + b);
    let updated = a + insert + b;
    assert(updated == with_count(s, count)->Ok_0);
    let start = anchor + 5;
    let at = anchor + 24;
    let from = anchor + 31;
    let close_at = from + digits.len();
    let end = close_at + 13;
    assert(forall|k: int| 0 <= k < 31 ==> #[trigger] updated[anchor + k] == before[k]);
    assert(forall|k: int| 0 <= k < digits.len() ==> #[trigger] updated[from + k] == digits[k]);
    assert(forall|k: int| 0 <= k < 24 ==> #[trigger] updated[close_at + k] == after[k]);
    assert forall|k: int| 0 <= k < open.len() implies #[trigger] open[k] == updated[start + k] by {
        assert(updated[anchor + (5 + k)] == before[5 + k]);
    }
    lemma_occurrence_by_chars(updated, open, start);
    assert forall|k: int| 0 <= k < count_open.len() implies #[trigger] count_open[k] == updated[at
        + k] by {
        assert(updated[anchor + (24 + k)] == before[24 + k]);
    }
    lemma_occurrence_by_chars(updated, count_open, at);
    assert forall|k: int| 0 <= k < count_close.len() implies #[trigger] count_close[k]
        == updated[close_at + k] by {
        assert(updated[close_at + k] == after[k]);
    }
    lemma_occurrence_by_chars(updated, count_close, close_at);
    assert forall|k: int| 0 <= k < close.len() implies #[trigger] close[k] == updated[end + k] by {
        assert(updated[close_at + (13 + k)] == after[13 + k]);
    }
    lemma_occurrence_by_chars(updated, close, end);
    assert forall|k: int| 0 <= k < start implies !text::occurs_at(updated, open, k) by {
        if text::occurs_at(updated, open, k) {
            lemma_occurrence(updated, open, k);
            assert(open[0] == updated[k + 0]);
            if k + open.len() <= anchor {
                lemma_mark_outside(a, v, insert, b, open, k);
            } else if k < anchor {
                assert(open[anchor - k] == updated[k + (anchor - k)]);
                assert(updated[anchor + 0] == before[0]);
            } else {
                assert(updated[anchor + (k - anchor)] == before[k - anchor]);
            }
        }
    }
    assert forall|k: int| start <= k < at implies !text::occurs_at(updated, count_open, k) by {
        if text::occurs_at(updated, count_open, k) {
            lemma_occurrence(updated, count_open, k);
            assert(count_open[0] == updated[k + 0]);
            assert(count_open[1] == updated[k + 1]);
            assert(updated[anchor + (k - anchor)] == before[k - anchor]);
            assert(updated[anchor + 6] == before[6]);
        }
    }
    assert forall|k: int| start <= k < end implies !text::occurs_at(updated, close, k) by {
        if text::occurs_at(updated, close, k) {
            lemma_occurrence(updated, close, k);
            assert(close[0] == updated[k + 0]);
            assert(close[1] == updated[k + 1]);
            assert(close[2] == updated[k + 2]);
            if k < from {
                assert(updated[anchor + (k - anchor)] == before[k - anchor]);
                assert(updated[anchor + 6] == before[6]);
                assert(updated[anchor + 25] == before[25]);
            } else if k < close_at {
                assert(updated[from + (k - from)] == digits[k - from]);
            } else {
                assert(updated[close_at + (k - close_at)] == after[k - close_at]);
                assert(updated[close_at + 2] == after[2]);
            }
        }
    }
    assert forall|k: int| from <= k < from + digits.len() implies #[trigger] updated[k] != '<' by {
        assert(updated[from + (k - from)] == digits[k - from]);
    }
    lemma_count_found(updated, start, at, digits.len() as int, end);
    assert(updated.subrange(from, from + digits.len()) == digits) by {
        assert(forall|k: int| 0 <= k < digits.len() ==> updated[from + k] == digits[k]);
    }
}

/// The driver reads back the count that was written, wherever the count that stood before it, if
/// there was one, is closed inside of its section.
pub proof fn law_written_count_is_read_back(settings: Seq<char>, count: nat)
    requires
        with_count(settings, count) is Ok,
        closed_in_section(settings),
    ensures
        count_text(with_count(settings, count)->Ok_0) == Some(text::dec(count)),
        closed_in_section(with_count(settings, count)->Ok_0),
{
    match count_place(settings) {
        CountPlace::NoSection(_) => lemma_section_added(settings, count),
        CountPlace::NoCount(_) => lemma_count_added(settings, count),
        CountPlace::Value(from, to) => {
            lemma_value_replaced(settings, count);
            lemma_value_bounds(settings);
            let updated = with_count(settings, count)->Ok_0;
            assert(updated.subrange(from, from + text::dec(count).len()) == text::dec(count));
        },
        CountPlace::Malformed(_) => {},
    }
}

proof fn lemma_value_bounds(s: Seq<char>)
    requires
        count_place(s) is Value,
    ensures
        0 <= count_place(s)->Value_0 <= count_place(s)->Value_1 <= s.len(),
{
    let start = text::position(s, "<monitors>"@, 0)->0;
    text::lemma_position(s, "<monitors>"@, 0);
    text::lemma_position(s, "</monitors>"@, start);
    let end = text::position(s, "</monitors>"@, start)->0;
    text::lemma_position(s.take(end), "<count>"@, start);
    text::lemma_position(s, "</count>"@, count_place(s)->Value_0);
}

/// Writing the count that the settings already hold leaves them as they are.
pub proof fn law_same_count_is_a_no_op(settings: Seq<char>, count: nat)
    requires
        count_text(settings) == Some(text::dec(count)),
    ensures
        with_count(settings, count) == Ok::<Seq<char>, VddError>(settings),
{
    lemma_value_bounds(settings);
    let from = count_place(settings)->Value_0;
    let to = count_place(settings)->Value_1;
    assert(settings.take(from) + settings.subrange(from, to) + settings.skip(to) == settings);
}

/// Writing a count twice is writing it once.
pub proof fn law_writing_a_count_twice_changes_nothing(settings: Seq<char>, count: nat)
    requires
        with_count(settings, count) is Ok,
        closed_in_section(settings),
    ensures
        with_count(with_count(settings, count)->Ok_0, count) == with_count(settings, count),
{
    law_written_count_is_read_back(settings, count);
    law_same_count_is_a_no_op(with_count(settings, count)->Ok_0, count);
}

/// A text between a head and a tail, swapped for another one.
proof fn lemma_middle_swapped(head: Seq<char>, old_middle: Seq<char>, middle: Seq<char>, tail: Seq<char>)
    ensures
        ({
            let s = head + old_middle + tail;
            s.take(head.len() as int) + middle + s.skip((head.len() + old_middle.len()) as int)
                == head + middle + tail
        }),
{
    let s = head + old_middle + tail;
    assert(s.take(head.len() as int) == head);
    assert(s.skip((head.len() + old_middle.len()) as int) == tail);
}

/// The last count that is written is the one that counts, and nothing else moves: writing one
/// count and then another gives what writing the other one alone gives.
pub proof fn law_last_count_wins(settings: Seq<char>, first: nat, last: nat)
    requires
        with_count(settings, first) is Ok,
        closed_in_section(settings),
    ensures
        with_count(settings, last) is Ok,
        with_count(with_count(settings, first)->Ok_0, last) == with_count(settings, last),
{
    let updated = with_count(settings, first)->Ok_0;
    let digits = text::dec(first);
    match count_place(settings) {
        CountPlace::NoSection(at) => {
            lemma_section_added(settings, first);
            lemma_place_bounds(settings);
            reveal_strlit("\n    <monitors>\n        <count>");
            let head = settings.take(at) + "\n    <monitors>\n        <count>"@;
            let tail = "</count>\n    </monitors>"@ + settings.skip(at);
            assert(updated == head + digits + tail);
            assert(with_count(settings, last)->Ok_0 == head + text::dec(last) + tail);
            lemma_middle_swapped(head, digits, text::dec(last), tail);
        },
        CountPlace::NoCount(at) => {
            lemma_count_added(settings, first);
            lemma_place_bounds(settings);
            reveal_strlit("\n        <count>");
            let head = settings.take(at) + "\n        <count>"@;
            let tail = "</count>"@ + settings.skip(at);
            assert(updated == head + digits + tail);
            assert(with_count(settings, last)->Ok_0 == head + text::dec(last) + tail);
            lemma_middle_swapped(head, digits, text::dec(last), tail);
        },
        CountPlace::Value(from, to) => {
            lemma_value_replaced(settings, first);
            lemma_value_bounds(settings);
            let head = settings.take(from);
            let tail = settings.skip(to);
            assert(updated == head + digits + tail);
            lemma_middle_swapped(head, digits, text::dec(last), tail);
        },
        CountPlace::Malformed(_) => {},
    }
}

proof fn lemma_place_bounds(s: Seq<char>)
    ensures
        count_place(s) matches CountPlace::NoSection(at) ==> 0 <= at <= s.len(),
        count_place(s) matches CountPlace::NoCount(at) ==> 0 <= at <= s.len(),
{
    text::lemma_position(s, "<monitors>"@, 0);
    text::lemma_position(s, "<vdd_settings>"@, 0);
}

/// What is to be written to the settings file for a count: nothing where it is what it was.
pub fn count_update(settings: &str, count: u32) -> (r: Result<Option<String>, VddError>)
    ensures
        match r {
            Ok(None) => with_count(settings@, count as nat) == Ok::<Seq<char>, VddError>(
                settings@,
            ),
            Ok(Some(updated)) => with_count(settings@, count as nat) == Ok::<Seq<char>, VddError>(
                updated@,
            ) && updated@ != settings@,
            Err(error) => with_count(settings@, count as nat) == Err::<Seq<char>, VddError>(error),
        },
{
    let updated = replace_monitor_count(settings, count)?;
    if text::str_equal(&updated, settings) {
        Ok(None)
    } else {
        Ok(Some(updated))
    }
}

/// The file that the driver reads, on the system drive; it never looks anywhere else.
pub fn settings_path(system_drive: Option<&str>) -> (r: String)
    ensures
        r@ == (match system_drive {
            Some(drive) => drive@,
            None => "C:"@,
        }) + "\\VirtualDisplayDriver\\vdd_settings.xml"@,
{
    let mut out = match system_drive {
        Some(drive) => drive.to_owned(),
        None => "C:".to_owned(),
    };
    out.push_str("\\VirtualDisplayDriver\\vdd_settings.xml");
    out
}

/// Whether one name of a list of names stands between two positions; each is closed by a zero or
/// by the end of the buffer.
pub open spec fn is_entry(buffer: Seq<u16>, from: int, to: int) -> bool {
    &&& 0 <= from < to <= buffer.len()
    &&& from == 0 || buffer[from - 1] == 0
    &&& to == buffer.len() || buffer[to] == 0
    &&& forall|k: int| from <= k < to ==> buffer[k] != 0
}

/// Whether a list of names holds one, in any case of its letters.
pub open spec fn lists_name(buffer: Seq<u16>, name: Seq<char>) -> bool {
    exists|from: int, to: int| #[trigger]
        is_entry(buffer, from, to) && text::same_ignoring_case(
            wide::decoded(buffer.subrange(from, to)),
            name,
        )
}

/// Whether a device is one of the bundled driver, by its hardware ids: they stand back to back,
/// and an empty name ends them.
pub fn is_bundled_vdd(buffer: &[u16]) -> (r: bool)
    ensures
        r == lists_name(buffer@, HARDWARE_ID@),
{
    let mut start: usize = 0;
    let mut i: usize = 0;
    while i < buffer.len()
        invariant
            start <= i <= buffer.len(),
            start == 0 || buffer@[start - 1] == 0,
            forall|k: int| start <= k < i ==> buffer@[k] != 0,
            forall|from: int, to: int| #[trigger]
                is_entry(buffer@, from, to) && to < start ==> !text::same_ignoring_case(
                    wide::decoded(buffer@.subrange(from, to)),
                    HARDWARE_ID@,
                ),
        decreases buffer.len() - i,
    {
        if buffer[i] == 0 {
            if start < i && names_driver(buffer, start, i) {
                assert(is_entry(buffer@, start as int, i as int));
                return true;
            }
            start = i + 1;
        }
        i += 1;
    }
    if start < i && names_driver(buffer, start, i) {
        assert(is_entry(buffer@, start as int, i as int));
        return true;
    }
    assert forall|from: int, to: int| #[trigger]
        is_entry(buffer@, from, to) implies !text::same_ignoring_case(
        wide::decoded(buffer@.subrange(from, to)),
        HARDWARE_ID@,
    ) by {
        if to >= start {
            assert(to == i);
            if from < start {
                assert(buffer@[start - 1] != 0);
            }
        }
    }
    false
}

fn names_driver(buffer: &[u16], from: usize, to: usize) -> (r: bool)
    requires
        from < to <= buffer.len(),
    ensures
        r == text::same_ignoring_case(
            wide::decoded(buffer@.subrange(from as int, to as int)),
            HARDWARE_ID@,
        ),
{
    let mut units: Vec<u16> = Vec::new();
    let mut i: usize = from;
    while i < to
        invariant
            from <= i <= to <= buffer.len(),
            units@ == buffer@.subrange(from as int, i as int),
        decreases to - i,
    {
        units.push(buffer[i]);
        i += 1;
    }
    text::equal_ignoring_case(&wide::from_wide(&units), HARDWARE_ID)
}

/// The hardware id of a new device, as a list of names: the one name, and the empty one that ends
/// the list.
pub fn hardware_id_list() -> (r: Vec<u16>)
    ensures
        r@ == wide::utf16(HARDWARE_ID@).push(0).push(0),
{
    let mut out = wide::to_wide(HARDWARE_ID);
    out.push(0);
    out
}

/// What is to be done where the driver is wanted.
#[derive(Debug, PartialEq, Eq)]
pub enum InstallPlan {
    /// A device of it exists already.
    Present,
    /// The bundled driver is bound to a new device node, from this file.
    Bind(String),
    /// The bundled driver cannot be found.
    Missing,
}

/// Whether the driver is to be installed, and from where: never where a device of it exists.
pub fn install_plan(devices: usize, inf: Option<String>) -> (r: InstallPlan)
    ensures
        r == if devices > 0 {
            InstallPlan::Present
        } else {
            match inf {
                Some(path) => InstallPlan::Bind(path),
                None => InstallPlan::Missing,
            }
        },
{
    if devices > 0 {
        return InstallPlan::Present;
    }
    match inf {
        Some(path) => InstallPlan::Bind(path),
        None => InstallPlan::Missing,
    }
}

/// How far an installation has come: the call that is due.
#[derive(Clone, Copy, Debug, PartialEq, Eq, Structural)]
pub enum InstallStage {
    /// Read the device class that the driver is of.
    ReadClass,
    /// Create an empty list of devices of that class.
    CreateList,
    /// Create the root device node in it.
    CreateNode,
    /// Give the node the hardware id that the driver matches.
    SetHardwareId,
    /// Register the node.
    Register,
    /// Bind the driver to every node with that id.
    Bind,
    /// Nothing is due any more.
    Done,
}

impl InstallStage {
    pub open spec fn spec_next(self) -> InstallStage {
        match self {
            InstallStage::ReadClass => InstallStage::CreateList,
            InstallStage::CreateList => InstallStage::CreateNode,
            InstallStage::CreateNode => InstallStage::SetHardwareId,
            InstallStage::SetHardwareId => InstallStage::Register,
            InstallStage::Register => InstallStage::Bind,
            InstallStage::Bind => InstallStage::Done,
            InstallStage::Done => InstallStage::Done,
        }
    }

    pub open spec fn failure(self, inf: Seq<char>, os_error: Seq<char>) -> Seq<char> {
        match self {
            InstallStage::ReadClass => "failed to read the driver class from "@ + inf + ": "@
                + os_error,
            InstallStage::CreateList => "failed to create a device list: "@ + os_error,
            InstallStage::CreateNode => "failed to create the virtual display device node: "@
                + os_error,
            InstallStage::SetHardwareId => "failed to set the virtual display hardware id: "@
                + os_error,
            InstallStage::Register => "failed to register the virtual display device: "@ + os_error,
            InstallStage::Bind => "failed to bind "@ + inf + " to the virtual display device: "@
                + os_error,
            InstallStage::Done => os_error,
        }
    }

    /// Takes note of how the call that was due has ended. A failure ends the installation with an
    /// error that says which call it was.
    pub fn step(&mut self, succeeded: bool, inf: &str, os_error: &str) -> (r: Result<(), String>)
        ensures
            succeeded ==> r is Ok && *final(self) == old(self).spec_next(),
            !succeeded ==> r is Err && r->Err_0@ == old(self).failure(inf@, os_error@)
                && *final(self) == *old(self),
    {
        if succeeded {
            *self = match *self {
                InstallStage::ReadClass => InstallStage::CreateList,
                InstallStage::CreateList => InstallStage::CreateNode,
                InstallStage::CreateNode => InstallStage::SetHardwareId,
                InstallStage::SetHardwareId => InstallStage::Register,
                InstallStage::Register => InstallStage::Bind,
                InstallStage::Bind => InstallStage::Done,
                InstallStage::Done => InstallStage::Done,
            };
            return Ok(());
        }
        let mut out = match *self {
            InstallStage::ReadClass => {
                let mut start = "failed to read the driver class from ".to_owned();
                start.push_str(inf);
                start.push_str(": ");
                start
            },
            InstallStage::CreateList => "failed to create a device list: ".to_owned(),
            InstallStage::CreateNode =>
                "failed to create the virtual display device node: ".to_owned(),
            InstallStage::SetHardwareId =>
                "failed to set the virtual display hardware id: ".to_owned(),
            InstallStage::Register =>
                "failed to register the virtual display device: ".to_owned(),
            InstallStage::Bind => {
                let mut start = "failed to bind ".to_owned();
                start.push_str(inf);
                start.push_str(" to the virtual display device: ");
                start
            },
            InstallStage::Done => String::new(),
        };
        out.push_str(os_error);
        assert(out@ == old(self).failure(inf@, os_error@));
        Err(out)
    }
}

/// The stage that an installation comes to by calls that all succeed.
pub open spec fn stage_after(calls: nat) -> InstallStage
    decreases calls,
{
    if calls == 0 {
        InstallStage::ReadClass
    } else {
        stage_after((calls - 1) as nat).spec_next()
    }
}

/// The driver is bound last, once the node has its id and is registered; and six calls are enough.
pub proof fn law_driver_is_bound_last(calls: nat)
    ensures
        stage_after(calls) is Bind <==> calls == 5,
        stage_after(calls) is Done <==> calls >= 6,
    decreases calls,
{
    reveal_with_fuel(stage_after, 8);
    if calls > 7 {
        law_driver_is_bound_last((calls - 1) as nat);
    }
}

/// The driver is asked for the wanted number of displays, from one up to the eight that it has.
pub proof fn law_driver_count_is_within_its_means(count: u32)
    ensures
        1 <= driver_count(count) <= 8,
        1 <= count <= 8 ==> driver_count(count) == count,
        count > 8 ==> driver_count(count) == 8,
{
}

/// A change of the count writes it, then installs what is missing, then restarts what has moved;
/// and nothing but a change of the count writes one.
pub proof fn law_count_is_written_before_the_driver_reads_it(action: VddAction, count: u32, i: int)
    requires
        0 <= i < steps_of(action, count).len(),
    ensures
        steps_of(action, count)[i] is WriteCount <==> action == VddAction::SetCount && i == 0,
        action == VddAction::SetCount ==> steps_of(action, count).len() == 3 && steps_of(
            action,
            count,
        )[0] == VddStep::WriteCount(driver_count(count)) && steps_of(action, count)[1]
            == VddStep::InstallIfMissing && steps_of(action, count)[2] == VddStep::RestartIfMoved,
        steps_of(action, count)[i] == VddStep::SetEnabled(true) <==> action == VddAction::Enable,
        steps_of(action, count)[i] == VddStep::SetEnabled(false) <==> action == VddAction::Disable,
        steps_of(action, count)[i] == VddStep::Remove <==> action == VddAction::Remove,
        steps_of(action, count)[i] == VddStep::InstallIfMissing <==> action == VddAction::Install
            || action == VddAction::SetCount && i == 1,
        action != VddAction::SetCount ==> steps_of(action, count).len() == 1,
{
}

/// The command line of an elevated run names the action and the count.
pub proof fn law_elevated_run_gets_action_and_count(action: VddAction, count: u32)
    ensures
        reading::tells(elevation_arguments(action, count), " --count "@, count as nat),
        text::starts_with(
            elevation_arguments(action, count),
            "vdd --action "@ + match action {
                VddAction::Install => "install"@,
                VddAction::SetCount => "set-count"@,
                VddAction::Remove => "remove"@,
                VddAction::Enable => "enable"@,
                VddAction::Disable => "disable"@,
            },
        ),
{
    let s = elevation_arguments(action, count);
    let start = "vdd --action "@ + action.spec_name();
    reading::lemma_tells(start, " --count "@, count as nat, Seq::empty());
    assert(start + " --count "@ + text::dec(count as nat) + Seq::<char>::empty() == s);
    assert(s.subrange(0, start.len() as int) == start);
}

/// Settings without a section get one right behind the start of their root, and a section without a
/// count gets one right behind its start; every other character stays where it was.
pub proof fn law_count_is_added_where_it_is_missing(settings: Seq<char>, count: nat)
    ensures
        with_count(settings, count) matches Ok(after) ==> match count_place(settings) {
            CountPlace::NoSection(at) => text::ends_with(settings.take(at), "<vdd_settings>"@)
                && after.take(at) == settings.take(at) && text::ends_with(after, settings.skip(at))
                && 0 <= at <= settings.len(),
            CountPlace::NoCount(at) => text::ends_with(settings.take(at), "<monitors>"@)
                && after.take(at) == settings.take(at) && text::ends_with(after, settings.skip(at))
                && 0 <= at <= settings.len(),
            CountPlace::Value(from, to) => text::ends_with(settings.take(from), "<count>"@)
                && text::starts_with(settings.skip(to), "</count>"@) && after.take(from)
                == settings.take(from) && text::ends_with(after, settings.skip(to)),
            CountPlace::Malformed(_) => false,
        },
{
    if let Ok(after) = with_count(settings, count) {
        match count_place(settings) {
            CountPlace::NoSection(at) => {
                lemma_found(settings, "<vdd_settings>"@, 0);
                lemma_behind(settings, "<vdd_settings>"@, at);
                lemma_put_in(settings, at, monitors_element(count), at);
            },
            CountPlace::NoCount(at) => {
                lemma_found(settings, "<monitors>"@, 0);
                lemma_behind(settings, "<monitors>"@, at);
                lemma_put_in(settings, at, count_element(count), at);
            },
            CountPlace::Value(from, to) => {
                let start = text::position(settings, "<monitors>"@, 0)->0;
                let end = text::position(settings, "</monitors>"@, start)->0;
                lemma_found(settings, "<monitors>"@, 0);
                lemma_found(settings, "</monitors>"@, start);
                let head = settings.take(end);
                lemma_found(head, "<count>"@, start);
                let open = "<count>"@;
                let at = from - open.len();
                assert(settings.subrange(at, from) == head.subrange(at, from));
                lemma_behind(settings, open, from);
                lemma_found(settings, "</count>"@, from);
                let rest = settings.skip(to);
                let close = "</count>"@;
                assert(rest.subrange(0, close.len() as int) == settings.subrange(
                    to,
                    to + close.len(),
                ));
                lemma_put_in(settings, from, text::dec(count), to);
            },
            CountPlace::Malformed(_) => {},
        }
    }
}

proof fn lemma_found(s: Seq<char>, needle: Seq<char>, from: int)
    requires
        0 <= from,
    ensures
        text::position(s, needle, from) matches Some(at) ==> from <= at && at + needle.len()
            <= s.len() && s.subrange(at, at + needle.len()) == needle,
{
    text::lemma_position(s, needle, from);
}

proof fn lemma_behind(s: Seq<char>, mark: Seq<char>, at: int)
    requires
        mark.len() <= at <= s.len(),
        s.subrange(at - mark.len(), at) == mark,
    ensures
        text::ends_with(s.take(at), mark),
{
    assert(s.take(at).subrange(at - mark.len(), at) == mark);
}

proof fn lemma_put_in(s: Seq<char>, from: int, middle: Seq<char>, to: int)
    requires
        0 <= from <= to <= s.len(),
    ensures
        (s.take(from) + middle + s.skip(to)).take(from) == s.take(from),
        text::ends_with(s.take(from) + middle + s.skip(to), s.skip(to)),
{
    let after = s.take(from) + middle + s.skip(to);
    assert(after.take(from) == s.take(from));
    assert(after.subrange(after.len() - s.skip(to).len(), after.len() as int) == s.skip(to));
}

/// A device is recognised by any of its ids, wherever it stands among them and in whatever case:
/// what stands before it ends with a zero, and so does it, unless it is the last.
pub proof fn law_any_id_of_a_list_is_found(
    before: Seq<u16>,
    id: Seq<char>,
    after: Seq<u16>,
    name: Seq<char>,
)
    requires
        before.len() == 0 || before.last() == 0,
        after.len() == 0 || after[0] == 0,
        id.len() > 0,
        !id.contains('\0'),
        text::lower(id) == text::lower(name),
    ensures
        lists_name(before + wide::utf16(id) + after, name),
{
    let units = wide::utf16(id);
    let buffer = before + units + after;
    let (from, to) = (before.len() as int, (before.len() + units.len()) as int);
    wide::law_wide_text_round_trip(id, Seq::empty());
    wide::lemma_units_are_not_zero(id);
    assert(buffer.subrange(from, to) == units);
    assert(wide::until_nul(units.push(0) + Seq::<u16>::empty()) == units) by {
        lemma_until_nul(units);
        assert(units.push(0) + Seq::<u16>::empty() == units.push(0));
    }
    assert forall|k: int| from <= k < to implies buffer[k] != 0 by {
        assert(buffer[k] == units[k - from]);
    }
    if from > 0 {
        assert(buffer[from - 1] == before.last());
    }
    if to < buffer.len() {
        assert(buffer[to] == after[0]);
    }
    assert(is_entry(buffer, from, to));
}

proof fn lemma_until_nul(units: Seq<u16>)
    requires
        forall|k: int| 0 <= k < units.len() ==> #[trigger] units[k] != 0,
    ensures
        wide::until_nul(units.push(0)) == units,
    decreases units.len(),
{
    let whole = units.push(0);
    if units.len() > 0 {
        let rest = units.skip(1);
        assert forall|k: int| 0 <= k < rest.len() implies #[trigger] rest[k] != 0 by {
            assert(rest[k] == units[k + 1]);
        }
        lemma_until_nul(rest);
        assert(whole[0] == units[0]);
        assert(whole.skip(1) == rest.push(0));
        assert(seq![units[0]] + rest == units);
    } else {
        assert(whole[0] == 0);
        assert(units == Seq::<u16>::empty());
    }
}

} // verus!
