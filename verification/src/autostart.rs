//! Registration of the tray application for the start of a Windows session.
use vstd::prelude::*;

verus! {

pub const APP_NAME: &'static str = "ScreenMirror";

pub const RUN_KEY: &'static str = "Software\\Microsoft\\Windows\\CurrentVersion\\Run";

/// What is done to the value of the application under the run key.
#[derive(Debug, PartialEq, Eq)]
pub enum RunValueChange {
    Write(String),
    /// A value that is not there counts as deleted.
    Delete,
}

/// The command that starts the tray application.
pub open spec fn tray_command(exe: Seq<char>) -> Seq<char> {
    "\""@ + exe + "\" tray"@
}

/// Turns the registration on, with the executable that is running, or off.
pub fn set_enabled(enabled: bool, exe: &str) -> (r: RunValueChange)
    ensures
        match r {
            RunValueChange::Write(command) => enabled && command@ == tray_command(exe@),
            RunValueChange::Delete => !enabled,
        },
{
    if enabled {
        let mut command = "\"".to_owned();
        command.push_str(exe);
        command.push_str("\" tray");
        RunValueChange::Write(command)
    } else {
        RunValueChange::Delete
    }
}

} // verus!
