//! What the lock screen says of the system.
use vstd::prelude::*;

use crate::text;

verus! {

/// Days, hours, minutes and seconds, such as `0D 3H 46M 12S`.
pub open spec fn uptime_text(secs: nat) -> Seq<char> {
    text::decimal(secs / 86400) + "D "@ + text::decimal(secs % 86400 / 3600) + "H "@
        + text::decimal(secs % 3600 / 60) + "M "@ + text::decimal(secs % 60) + "S"@
}

pub fn format_uptime(secs: u64) -> (r: String)
    ensures
        r@ == uptime_text(secs as nat),
{
    let mut out = String::new();
    text::push_decimal(&mut out, secs / 86400);
    out.append("D ");
    text::push_decimal(&mut out, secs % 86400 / 3600);
    out.append("H ");
    text::push_decimal(&mut out, secs % 3600 / 60);
    out.append("M ");
    text::push_decimal(&mut out, secs % 60);
    out.append("S");
    assert(out@ =~= uptime_text(secs as nat));
    out
}

/// The rows of the system panel.
#[derive(Debug)]
pub struct SystemInfo {
    pub hostname: String,
    pub kernel: String,
    pub date: String,
    pub time: String,
    pub uptime: String,
}

/// An uptime is told in days, hours, minutes and seconds, none of the last three as large as the next
/// larger unit.
pub proof fn law_uptime_is_told_in_units(days: nat, hours: nat, minutes: nat, seconds: nat)
    requires
        hours < 24,
        minutes < 60,
        seconds < 60,
    ensures
        uptime_text(days * 86400 + hours * 3600 + minutes * 60 + seconds) == text::decimal(days)
            + "D "@ + text::decimal(hours) + "H "@ + text::decimal(minutes) + "M "@
            + text::decimal(seconds) + "S"@,
{
    let all = days * 86400 + hours * 3600 + minutes * 60 + seconds;
    assert(all / 86400 == days);
    assert(all % 86400 / 3600 == hours);
    assert(all % 3600 / 60 == minutes);
    assert(all % 60 == seconds);
}

} // verus!
