//! The time scheduler's tick decision: comparing the wall clock, as an
//! `HH:MM` string, against the configured start and pause times.

use vstd::prelude::*;
use crate::strutil::{str_eq, spec_fmt_u64, fmt_u64_chars, string_of_chars};

verus! {

/// What a scheduler tick asks the registry to do.
#[derive(Clone, Copy, Debug, PartialEq, Eq, Structural)]
pub enum SchedulerAction {
    /// The clock matched the start time: resume everything.
    ResumeAll,
    /// The clock matched the pause time: pause everything.
    PauseAll,
    /// No match, or scheduling disabled.
    Nothing,
}

/// A two-digit zero-padded rendering of a value below 100.
pub open spec fn spec_two_digits(v: int) -> Seq<char> {
    if v < 10 {
        seq!['0'] + spec_fmt_u64(v)
    } else {
        spec_fmt_u64(v)
    }
}

/// The wall clock as `HH:MM` with zero padding.
pub fn format_hhmm(hour: u32, minute: u32) -> (r: String)
    requires
        hour < 24,
        minute < 60,
    ensures
        r@ == spec_two_digits(hour as int) + ":"@ + spec_two_digits(minute as int),
{
    let mut out: Vec<char> = Vec::new();
    if hour < 10 {
        out.push('0');
    }
    let hv = fmt_u64_chars(hour as u64);
    let hn = hv.len();
    let ghost pre = out@;
    let mut i: usize = 0;
    while i < hn
        invariant
            hn == hv@.len(),
            i <= hn,
            out@ =~= pre + hv@.subrange(0, i as int),
        decreases hn - i,
    {
        out.push(hv[i]);
        i = i + 1;
    }
    out.push(':');
    proof {
        reveal_strlit(":");
        assert(out@ =~= spec_two_digits(hour as int) + ":"@);
    }
    if minute < 10 {
        out.push('0');
    }
    let mv = fmt_u64_chars(minute as u64);
    let mn = mv.len();
    let ghost pre2 = out@;
    let mut j: usize = 0;
    while j < mn
        invariant
            mn == mv@.len(),
            j <= mn,
            out@ =~= pre2 + mv@.subrange(0, j as int),
        decreases mn - j,
    {
        out.push(mv[j]);
        j = j + 1;
    }
    proof {
        assert(out@ =~= spec_two_digits(hour as int) + ":"@ + spec_two_digits(minute as int));
    }
    string_of_chars(&out)
}

/// Decides one scheduler tick: when enabled, a clock equal to the start
/// time resumes everything, else a clock equal to the pause time pauses
/// everything; anything else does nothing.
pub fn decide_tick(enabled: bool, now: &str, start_time: &str, pause_time: &str) -> (r:
    SchedulerAction)
    ensures
        r == (if !enabled {
            SchedulerAction::Nothing
        } else if now@ == start_time@ {
            SchedulerAction::ResumeAll
        } else if now@ == pause_time@ {
            SchedulerAction::PauseAll
        } else {
            SchedulerAction::Nothing
        }),
{
    if !enabled {
        return SchedulerAction::Nothing;
    }
    if str_eq(now, start_time) {
        return SchedulerAction::ResumeAll;
    }
    if str_eq(now, pause_time) {
        return SchedulerAction::PauseAll;
    }
    SchedulerAction::Nothing
}

} // verus!
