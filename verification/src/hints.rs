//! Short texts the screens show: screen names, check icons and key hints.

use vstd::prelude::*;
use vstd::string::*;

use crate::app::{CheckStatus, Screen};
use crate::queue::{preset_label, QueuePreset};

verus! {

/// The icon of a check verdict.
pub open spec fn status_icon_text(status: CheckStatus) -> Seq<char> {
    match status {
        CheckStatus::Pass => "OK"@,
        CheckStatus::Warn => "??"@,
        CheckStatus::Fail => "!!"@,
    }
}

/// The icon of a check verdict.
pub fn status_icon(status: CheckStatus) -> (out: &'static str)
    ensures
        out@ == status_icon_text(status),
{
    match status {
        CheckStatus::Pass => "OK",
        CheckStatus::Warn => "??",
        CheckStatus::Fail => "!!",
    }
}

/// The name of a screen.
pub open spec fn screen_name(screen: Screen) -> Seq<char> {
    match screen {
        Screen::Startup => "startup"@,
        Screen::Dashboard => "dashboard"@,
        Screen::Queue => "queue"@,
        Screen::Groups => "groups"@,
        Screen::Detail => "detail"@,
        Screen::Bulk => "bulk"@,
        Screen::Apply => "apply"@,
        Screen::Help => "help"@,
    }
}

/// The name of a screen.
pub fn screen_label(screen: Screen) -> (out: &'static str)
    ensures
        out@ == screen_name(screen),
{
    match screen {
        Screen::Startup => "startup",
        Screen::Dashboard => "dashboard",
        Screen::Queue => "queue",
        Screen::Groups => "groups",
        Screen::Detail => "detail",
        Screen::Bulk => "bulk",
        Screen::Apply => "apply",
        Screen::Help => "help",
    }
}

/// The key hint of a screen.
pub open spec fn key_hint(screen: Screen) -> Seq<char> {
    match screen {
        Screen::Startup => "Tab fields | Enter connect | q quit"@,
        Screen::Dashboard => "l queue | g groups | b bulk | p apply | t cycle task | r refresh | ? help"@,
        Screen::Queue => "preset "@ + preset_label(QueuePreset::Unresolved)
            + " | j/k move | [ ] preset | / filter | Enter detail | x export"@,
        Screen::Groups => "1-5 dimension | j/k move | Enter drill | c clear drill"@,
        Screen::Detail => "a approve | e approve+edit | x reject | f follow-up | o/p/h panels | Esc back"@,
        Screen::Bulk => "j/k move | Enter invoke | t cycle task"@,
        Screen::Apply => "Enter jumps to apply_ready queue"@,
        Screen::Help => "Esc closes help"@,
    }
}

/// The key hint of a screen.
pub fn current_key_hint(screen: Screen) -> (out: String)
    ensures
        out@ == key_hint(screen),
{
    match screen {
        Screen::Startup => String::from_str("Tab fields | Enter connect | q quit"),
        Screen::Dashboard => String::from_str(
            "l queue | g groups | b bulk | p apply | t cycle task | r refresh | ? help",
        ),
        Screen::Queue => {
            let mut out = String::from_str("preset ");
            out.append(QueuePreset::Unresolved.label());
            out.append(" | j/k move | [ ] preset | / filter | Enter detail | x export");
            out
        },
        Screen::Groups => String::from_str("1-5 dimension | j/k move | Enter drill | c clear drill"),
        Screen::Detail => String::from_str(
            "a approve | e approve+edit | x reject | f follow-up | o/p/h panels | Esc back",
        ),
        Screen::Bulk => String::from_str("j/k move | Enter invoke | t cycle task"),
        Screen::Apply => String::from_str("Enter jumps to apply_ready queue"),
        Screen::Help => String::from_str("Esc closes help"),
    }
}

} // verus!
