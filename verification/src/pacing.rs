//! The decisions of the cycle that runs forever: wait for a frame, reduce,
//! encode, transmit, sleep up to the frame boundary. The caller does the
//! outside work of each phase and reports what came of it.

use vstd::prelude::*;

verus! {

/// Nanoseconds to wait before asking again for a frame that was not ready.
pub const POLL_NAP_NS: u64 = 1_000_000;

/// Nanoseconds in a millisecond.
pub const NS_PER_MS: u64 = 1_000_000;

/// Where a cycle stands.
#[derive(Clone, Copy, Debug, PartialEq, Eq, Structural)]
pub enum Phase {
    AwaitingFrame,
    Reducing,
    Encoding,
    Transmitting,
    Sleeping,
}

/// What the outside work of a phase came to.
#[derive(Clone, Copy, Debug, PartialEq, Eq, Structural)]
pub enum Event {
    /// The capture handed over a frame.
    FrameReady,
    /// The capture has no new frame yet.
    FrameNotReady,
    /// The capture failed in any other way.
    CaptureFailed,
    /// The colours of the frame are computed.
    Reduced,
    /// The packet is built.
    Encoded,
    /// The packet was written out.
    Sent,
    /// Writing the packet failed.
    SendFailed,
    /// The time since the cycle began, in nanoseconds, read on entering the
    /// sleeping phase.
    Elapsed(u128),
}

/// What to do on an event: the next phase, how long to sleep before it,
/// whether the event is an error to report, and whether a new cycle (and its
/// timer) begins.
#[derive(Clone, Copy, Debug, PartialEq, Eq, Structural)]
pub struct Transition {
    pub next: Phase,
    pub sleep_ns: u64,
    pub report: bool,
    pub new_cycle: bool,
}

/// The length of one frame in nanoseconds: whole milliseconds, `1000 / fps`.
pub open spec fn frame_period(fps: u32) -> int {
    (1000int / fps as int) * 1_000_000
}

/// What is left of the frame period after `elapsed` nanoseconds; nothing on
/// an overrun.
pub open spec fn remaining(elapsed: int, period: int) -> int {
    if elapsed < period {
        period - elapsed
    } else {
        0
    }
}

/// The transition for an event in a phase; `None` for an event that the phase
/// does not wait for.
pub open spec fn transition(phase: Phase, event: Event, period_ns: u64) -> Option<Transition> {
    match (phase, event) {
        (Phase::AwaitingFrame, Event::FrameReady) => Some(
            Transition { next: Phase::Reducing, sleep_ns: 0, report: false, new_cycle: false },
        ),
        (Phase::AwaitingFrame, Event::FrameNotReady) => Some(
            Transition {
                next: Phase::AwaitingFrame,
                sleep_ns: POLL_NAP_NS,
                report: false,
                new_cycle: false,
            },
        ),
        (Phase::AwaitingFrame, Event::CaptureFailed) => Some(
            Transition {
                next: Phase::AwaitingFrame,
                sleep_ns: period_ns,
                report: true,
                new_cycle: true,
            },
        ),
        (Phase::Reducing, Event::Reduced) => Some(
            Transition { next: Phase::Encoding, sleep_ns: 0, report: false, new_cycle: false },
        ),
        (Phase::Encoding, Event::Encoded) => Some(
            Transition { next: Phase::Transmitting, sleep_ns: 0, report: false, new_cycle: false },
        ),
        (Phase::Transmitting, Event::Sent) => Some(
            Transition { next: Phase::Sleeping, sleep_ns: 0, report: false, new_cycle: false },
        ),
        (Phase::Transmitting, Event::SendFailed) => Some(
            Transition { next: Phase::Sleeping, sleep_ns: 0, report: true, new_cycle: false },
        ),
        (Phase::Sleeping, Event::Elapsed(elapsed)) => Some(
            Transition {
                next: Phase::AwaitingFrame,
                sleep_ns: remaining(elapsed as int, period_ns as int) as u64,
                report: false,
                new_cycle: true,
            },
        ),
        _ => None,
    }
}

/// Gives the length of one frame at `fps` frames per second.
pub fn frame_period_ns(fps: u32) -> (period: u64)
    requires
        fps >= 1,
    ensures
        period == frame_period(fps),
        period <= 1_000_000_000,
{
    let ms: u64 = 1000 / (fps as u64);
    ms * NS_PER_MS
}

/// Gives how long to sleep at the end of a cycle that has taken `elapsed_ns`.
pub fn pacing_sleep_ns(elapsed_ns: u128, period_ns: u64) -> (rest: u64)
    ensures
        rest == remaining(elapsed_ns as int, period_ns as int),
{
    if elapsed_ns < period_ns as u128 {
        period_ns - (elapsed_ns as u64)
    } else {
        0
    }
}

/// Decides what follows an event.
pub fn step(phase: Phase, event: Event, period_ns: u64) -> (next: Option<Transition>)
    ensures
        next == transition(phase, event, period_ns),
{
    match (phase, event) {
        (Phase::AwaitingFrame, Event::FrameReady) => Some(
            Transition { next: Phase::Reducing, sleep_ns: 0, report: false, new_cycle: false },
        ),
        (Phase::AwaitingFrame, Event::FrameNotReady) => Some(
            Transition {
                next: Phase::AwaitingFrame,
                sleep_ns: POLL_NAP_NS,
                report: false,
                new_cycle: false,
            },
        ),
        (Phase::AwaitingFrame, Event::CaptureFailed) => Some(
            Transition {
                next: Phase::AwaitingFrame,
                sleep_ns: period_ns,
                report: true,
                new_cycle: true,
            },
        ),
        (Phase::Reducing, Event::Reduced) => Some(
            Transition { next: Phase::Encoding, sleep_ns: 0, report: false, new_cycle: false },
        ),
        (Phase::Encoding, Event::Encoded) => Some(
            Transition { next: Phase::Transmitting, sleep_ns: 0, report: false, new_cycle: false },
        ),
        (Phase::Transmitting, Event::Sent) => Some(
            Transition { next: Phase::Sleeping, sleep_ns: 0, report: false, new_cycle: false },
        ),
        (Phase::Transmitting, Event::SendFailed) => Some(
            Transition { next: Phase::Sleeping, sleep_ns: 0, report: true, new_cycle: false },
        ),
        (Phase::Sleeping, Event::Elapsed(elapsed)) => Some(
            Transition {
                next: Phase::AwaitingFrame,
                sleep_ns: pacing_sleep_ns(elapsed, period_ns),
                report: false,
                new_cycle: true,
            },
        ),
        _ => None,
    }
}

/// No phase is final: each one waits for some event, and whatever event it
/// accepts leads on to a phase. A failed write leads where a good one does,
/// and a frame that is not ready keeps the cycle and its timer.
pub proof fn lemma_cycle_never_ends(phase: Phase, period_ns: u64)
    ensures
        exists|event: Event| (#[trigger] transition(phase, event, period_ns)) is Some,
        transition(Phase::Transmitting, Event::SendFailed, period_ns).unwrap().next == transition(
            Phase::Transmitting,
            Event::Sent,
            period_ns,
        ).unwrap().next,
        !transition(Phase::AwaitingFrame, Event::FrameNotReady, period_ns).unwrap().new_cycle,
{
    match phase {
        Phase::AwaitingFrame => {
            assert(transition(phase, Event::FrameReady, period_ns) is Some);
        },
        Phase::Reducing => {
            assert(transition(phase, Event::Reduced, period_ns) is Some);
        },
        Phase::Encoding => {
            assert(transition(phase, Event::Encoded, period_ns) is Some);
        },
        Phase::Transmitting => {
            assert(transition(phase, Event::Sent, period_ns) is Some);
        },
        Phase::Sleeping => {
            assert(transition(phase, Event::Elapsed(0), period_ns) is Some);
        },
    }
}

/// A cycle that sleeps its remainder ends on the frame boundary; one that has
/// overrun does not sleep at all.
pub proof fn lemma_sleep_fills_period(elapsed: int, period: int)
    requires
        0 <= elapsed,
        0 <= period,
    ensures
        0 <= remaining(elapsed, period) <= period,
        elapsed < period ==> elapsed + remaining(elapsed, period) == period,
        elapsed >= period ==> remaining(elapsed, period) == 0,
{
}

} // verus!
