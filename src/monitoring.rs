//! Values reported by the resource monitor and the log clock.
use vstd::prelude::*;
use vstd::string::StringExecFns;

use crate::time_format::{decimal, push_decimal, push_two_digits, two_digits};

verus! {

/// One resource report, each value already rendered as text.
pub struct BotResources {
    pub cpu_usage: String,
    pub memory_usage: String,
    pub latency: String,
    pub uptime: String,
    pub command_count: String,
}

impl BotResources {
    pub fn new(
        memory_usage: String,
        cpu_usage: String,
        latency: String,
        uptime: String,
        command_count: String,
    ) -> (r: Self)
        ensures
            r.memory_usage == memory_usage,
            r.cpu_usage == cpu_usage,
            r.latency == latency,
            r.uptime == uptime,
            r.command_count == command_count,
    {
        BotResources { cpu_usage, memory_usage, latency, uptime, command_count }
    }
}

/// Uptime as `H:MM:SS`, hours unbounded and never dropped.
pub open spec fn uptime_spec(secs: nat) -> Seq<char> {
    decimal(secs / 3600) + seq![':'] + two_digits((secs / 60) % 60) + seq![':'] + two_digits(secs % 60)
}

/// The time of day of a log line, `[HH:MM:SS]`, from seconds since the epoch.
pub open spec fn log_clock_spec(secs: nat) -> Seq<char> {
    seq!['['] + two_digits((secs / 3600) % 24) + seq![':'] + two_digits((secs / 60) % 60) + seq![':']
        + two_digits(secs % 60) + seq![']']
}

pub fn uptime_text(secs: u64) -> (r: String)
    ensures
        r@ == uptime_spec(secs as nat),
{
    let mut out = String::new();
    push_decimal(&mut out, secs / 3600);
    proof { reveal_strlit(":"); }
    out.append(":");
    push_two_digits(&mut out, (secs / 60) % 60);
    out.append(":");
    push_two_digits(&mut out, secs % 60);
    assert(out@ =~= uptime_spec(secs as nat));
    out
}

pub fn log_clock_text(secs: u64) -> (r: String)
    ensures
        r@ == log_clock_spec(secs as nat),
{
    proof {
        reveal_strlit("[");
        reveal_strlit(":");
        reveal_strlit("]");
    }
    let mut out = String::from_str("[");
    push_two_digits(&mut out, (secs / 3600) % 24);
    out.append(":");
    push_two_digits(&mut out, (secs / 60) % 60);
    out.append(":");
    push_two_digits(&mut out, secs % 60);
    out.append("]");
    assert(out@ =~= log_clock_spec(secs as nat));
    out
}

/// The command count that carries over after `reported` commands were
/// reported while the counter had reached `current`.
pub fn remaining_command_count(current: usize, reported: usize) -> (r: usize)
    ensures
        current > reported ==> r == current - reported,
        current <= reported ==> r == 0,
{
    if current > reported {
        current - reported
    } else {
        0
    }
}

} // verus!
