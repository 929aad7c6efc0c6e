//! Clock readings and the estimation of the cycle counter's frequency.
use vstd::prelude::*;

verus! {

/// Milliseconds that a calibration waits on the OS timer unless told otherwise.
pub const DEFAULT_WAIT_MILLISECONDS: u64 = 100;

/// Cycles elapsed from `from` to `to` on a monotonic counter; a reading that
/// lies before `from` counts as no time at all.
pub open spec fn span(from: u64, to: u64) -> nat {
    if to >= from {
        (to - from) as nat
    } else {
        0
    }
}

/// `v` clamped to the range of `u64`.
pub open spec fn clamp_u64(v: int) -> u64 {
    if v > u64::MAX {
        u64::MAX
    } else {
        v as u64
    }
}

/// Cycles per second when `cpu_elapsed` cycles passed while the OS timer,
/// ticking `os_freq` times a second, advanced by `os_elapsed` ticks.
/// Zero when the OS timer did not advance.
pub open spec fn frequency_of(os_freq: nat, cpu_elapsed: nat, os_elapsed: nat) -> u64 {
    if os_elapsed == 0 {
        0
    } else {
        clamp_u64((os_freq * cpu_elapsed / os_elapsed) as int)
    }
}

/// A simultaneous reading of the OS timer's frequency, the OS timer and the
/// cycle counter.
#[derive(Debug, Clone, Copy, PartialEq, Eq, Structural)]
pub struct Timer {
    pub os_freq: u64,
    pub os_timer: u64,
    pub cpu_timer: u64,
}

impl Timer {
    pub fn new(os_freq: u64, os_timer: u64, cpu_timer: u64) -> (t: Timer)
        ensures
            t.os_freq == os_freq,
            t.os_timer == os_timer,
            t.cpu_timer == cpu_timer,
    {
        Timer { os_freq, os_timer, cpu_timer }
    }
}

/// The frequency of the cycle counter measured between two readings, at the
/// OS timer frequency of the first one.
pub fn cpu_freq(start: &Timer, end: &Timer) -> (r: u64)
    ensures
        r == frequency_of(
            start.os_freq as nat,
            span(start.cpu_timer, end.cpu_timer),
            span(start.os_timer, end.os_timer),
        ),
        end.os_timer == start.os_timer ==> r == 0,
{
    let cpu_elapsed: u64 = end.cpu_timer.saturating_sub(start.cpu_timer);
    let os_elapsed: u64 = end.os_timer.saturating_sub(start.os_timer);
    if os_elapsed == 0 {
        return 0;
    }
    let f: u128 = start.os_freq as u128;
    let c: u128 = cpu_elapsed as u128;
    assert(f * c <= u64::MAX as int * u64::MAX as int) by (nonlinear_arith)
        requires
            f <= u64::MAX,
            c <= u64::MAX,
    ;
    let product: u128 = f * c;
    let q: u128 = product / (os_elapsed as u128);
    if q > u64::MAX as u128 {
        u64::MAX
    } else {
        q as u64
    }
}

/// OS timer ticks in `wait_milliseconds` at `os_freq` ticks a second.
pub open spec fn wait_ticks_of(os_freq: u64, wait_milliseconds: u64) -> u64 {
    clamp_u64(os_freq * wait_milliseconds / 1000)
}

/// A calibration in progress: the reading it began with and how many OS timer
/// ticks it waits. The caller polls the OS timer, asks `window_elapsed` after
/// each reading, and once it holds takes a last reading and calls `finish`.
/// Spinning on the OS timer blocks the calling thread for the whole window.
#[derive(Debug, Clone, Copy, PartialEq, Eq, Structural)]
pub struct Calibration {
    pub start: Timer,
    pub wait_ticks: u64,
}

impl Calibration {
    pub fn begin(start: Timer, wait_milliseconds: u64) -> (c: Calibration)
        ensures
            c.start == start,
            c.wait_ticks == wait_ticks_of(start.os_freq, wait_milliseconds),
    {
        let f: u128 = start.os_freq as u128;
        let w: u128 = wait_milliseconds as u128;
        assert(f * w <= u64::MAX as int * u64::MAX as int) by (nonlinear_arith)
            requires
                f <= u64::MAX,
                w <= u64::MAX,
        ;
        let ticks: u128 = f * w / 1000;
        let wait_ticks: u64 = if ticks > u64::MAX as u128 {
            u64::MAX
        } else {
            ticks as u64
        };
        Calibration { start, wait_ticks }
    }

    /// Whether the OS timer, now at `os_now`, has advanced through the whole
    /// waiting window.
    pub fn window_elapsed(&self, os_now: u64) -> (r: bool)
        ensures
            r == (span(self.start.os_timer, os_now) >= self.wait_ticks),
    {
        os_now.saturating_sub(self.start.os_timer) >= self.wait_ticks
    }

    /// The estimated frequency, from the reading taken when the window closed.
    pub fn finish(&self, end: &Timer) -> (r: u64)
        ensures
            r == frequency_of(
                self.start.os_freq as nat,
                span(self.start.cpu_timer, end.cpu_timer),
                span(self.start.os_timer, end.os_timer),
            ),
    {
        cpu_freq(&self.start, end)
    }
}

/// When the cycle counter advances `ratio` cycles for every OS timer tick, the
/// estimate between any two readings over a nonzero OS interval is exactly
/// `ratio` times the OS timer's frequency.
pub proof fn lemma_linear_clock_frequency(start: Timer, end: Timer, ratio: nat)
    requires
        end.os_timer > start.os_timer,
        end.cpu_timer >= start.cpu_timer,
        end.cpu_timer - start.cpu_timer == ratio * (end.os_timer - start.os_timer),
        ratio * start.os_freq <= u64::MAX,
    ensures
        frequency_of(
            start.os_freq as nat,
            span(start.cpu_timer, end.cpu_timer),
            span(start.os_timer, end.os_timer),
        ) == ratio * start.os_freq,
{
    let f = start.os_freq as nat;
    let o = span(start.os_timer, end.os_timer);
    assert(f * (ratio * o) == (ratio * f) * o) by (nonlinear_arith);
    vstd::arithmetic::div_mod::lemma_div_by_multiple((ratio * f) as int, o as int);
}

/// The estimate is zero whenever the OS timer did not advance between the
/// two readings, however far the cycle counter moved.
pub proof fn lemma_stalled_os_timer_frequency(start: Timer, end: Timer)
    requires
        end.os_timer <= start.os_timer,
    ensures
        frequency_of(
            start.os_freq as nat,
            span(start.cpu_timer, end.cpu_timer),
            span(start.os_timer, end.os_timer),
        ) == 0,
{
}

} // verus!
