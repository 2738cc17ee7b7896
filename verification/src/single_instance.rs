//! The lock file that keeps a second tray application from starting.
use crate::text;
use vstd::prelude::*;

verus! {

pub const TRAY_MUTEX_NAME: &'static str = "Global\\ScreenMirrorTrayInstance";

/// The process that a lock file names.
pub open spec fn owner_of(contents: Seq<char>) -> Option<nat> {
    text::parse_unsigned(text::trim(contents), u32::MAX as nat)
}

/// Reads the process that holds the lock; a file that cannot be read, or names none, has no owner.
pub fn lock_owner(contents: Option<&str>) -> (r: Option<u32>)
    ensures
        match contents {
            Some(found) => match r {
                Some(pid) => owner_of(found@) == Some(pid as nat),
                None => owner_of(found@) is None,
            },
            None => r is None,
        },
{
    let trimmed = text::trimmed(contents?);
    let pid: u64 = text::parse_number(&trimmed, u32::MAX as u64)?;
    Some(pid as u32)
}

/// Whether a lock file is left over from a process that has ended.
pub fn lock_is_stale(owner: Option<u32>, owner_is_running: bool) -> (r: bool)
    ensures
        r == (owner is None || !owner_is_running),
{
    match owner {
        Some(_) => !owner_is_running,
        None => true,
    }
}

/// What is written to a new lock file.
pub fn lock_contents(pid: u32) -> (r: String)
    ensures
        r@ == text::dec(pid as nat) + "\n"@,
{
    let mut out = text::dec_string(pid as u64);
    out.push_str("\n");
    out
}

/// A lock file names the process that wrote it.
pub proof fn law_lock_names_its_writer(pid: u32)
    ensures
        owner_of(text::dec(pid as nat) + "\n"@) == Some(pid as nat),
{
    reveal_strlit("\n");
    let digits = text::dec(pid as nat);
    let contents = digits + "\n"@;
    text::lemma_dec_digits(pid as nat);
    assert(text::is_digit(digits[0]));
    assert(text::is_digit(digits.last()));
    assert(text::trim_start(contents) == contents);
    assert(contents.drop_last() == digits);
    assert(text::trim_end(digits) == digits);
    assert(text::trim_end(contents) == digits);
    text::law_decimal_round_trip(pid as nat, u32::MAX as nat);
}

} // verus!
