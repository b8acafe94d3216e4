use vstd::prelude::*;

use crate::options::{AddrId, Options};

verus! {

/// What one tick of a worker measures: a snapshot of the options taken at
/// the tick's start, and the tick's time.
#[derive(Debug, Clone)]
pub struct TickPlan {
    pub nonce: i32,
    pub time_s: u32,
    pub addrs: Vec<AddrId>,
    pub interval_ms: u32,
}

/// A Unix time in seconds as a record's time: clamped to `0..=u32::MAX`.
pub open spec fn clamp_time(now_s: i64) -> u32 {
    if now_s < 0 {
        0
    } else if now_s > u32::MAX as i64 {
        u32::MAX
    } else {
        now_s as u32
    }
}

/// Relies on chrono's `Local::now` and `DateTime::timestamp`: the current
/// time, in whole seconds since the Unix epoch.
#[verifier::external_body]
fn wall_clock_seconds() -> i64 {
    chrono::Local::now().timestamp()
}

/// Relies on time's `precise_time_ns`: a monotonic clock, in nanoseconds.
#[verifier::external_body]
fn monotonic_ns() -> u64 {
    time::precise_time_ns()
}

/// The plan of a tick that starts at `now_s` under options `opts`.
pub fn plan_tick(opts: &Options, now_s: i64) -> (r: TickPlan)
    ensures
        r.nonce == opts.nonce,
        r.time_s == clamp_time(now_s),
        r.addrs@ == opts.addrs@,
        r.interval_ms == opts.interval,
{
    let time_s: u32 = if now_s < 0 {
        0
    } else if now_s > u32::MAX as i64 {
        u32::MAX
    } else {
        now_s as u32
    };
    TickPlan { nonce: opts.nonce, time_s, addrs: opts.addrs.clone(), interval_ms: opts.interval }
}

/// The plan of a tick that starts now: the snapshot of `opts`, timed by the
/// wall clock.
pub fn begin_tick(opts: &Options) -> (r: TickPlan)
    ensures
        r.nonce == opts.nonce,
        r.addrs@ == opts.addrs@,
        r.interval_ms == opts.interval,
{
    let now = wall_clock_seconds();
    plan_tick(opts, now)
}

/// Hundreds of nanoseconds from `start_ns` to `end_ns`, none if the clock
/// went backwards.
pub fn ticks_between(start_ns: u64, end_ns: u64) -> (r: u64)
    ensures
        r == if end_ns >= start_ns {
            ((end_ns - start_ns) / 100) as u64
        } else {
            0
        },
{
    if end_ns >= start_ns {
        (end_ns - start_ns) / 100
    } else {
        0
    }
}

/// A running measurement of one connection attempt.
#[derive(Debug, Clone, Copy)]
pub struct Stopwatch {
    pub start_ns: u64,
}

impl Stopwatch {
    /// Starts timing now.
    pub fn start() -> (r: Stopwatch) {
        Stopwatch { start_ns: monotonic_ns() }
    }

    /// Hundreds of nanoseconds since the start, read from the monotonic
    /// clock; none if the clock went backwards.
    pub fn elapsed_ticks(&self) -> (r: u64)
        ensures
            r <= u64::MAX / 100,
    {
        let now = monotonic_ns();
        ticks_between(self.start_ns, now)
    }
}

} // verus!
