use ambilight::pacing::{frame_period_ns, pacing_sleep_ns, step, Event, Phase, Transition};

#[test]
fn frame_period_is_whole_milliseconds() {
    assert_eq!(frame_period_ns(1), 1_000_000_000);
    assert_eq!(frame_period_ns(30), 33_000_000);
    assert_eq!(frame_period_ns(60), 16_000_000);
    assert_eq!(frame_period_ns(1000), 1_000_000);
    assert_eq!(frame_period_ns(1001), 0);
    assert_eq!(frame_period_ns(u32::MAX), 0);
}

#[test]
fn sleep_is_what_is_left_of_the_period() {
    assert_eq!(pacing_sleep_ns(0, 33_000_000), 33_000_000);
    assert_eq!(pacing_sleep_ns(10_000_000, 33_000_000), 23_000_000);
    assert_eq!(pacing_sleep_ns(32_999_999, 33_000_000), 1);
    assert_eq!(pacing_sleep_ns(33_000_000, 33_000_000), 0);
    assert_eq!(pacing_sleep_ns(u128::MAX, 33_000_000), 0);
}

#[test]
fn a_good_cycle_runs_through_all_phases() {
    let period = 16_000_000;
    let plain = |next| Some(Transition { next, sleep_ns: 0, report: false, new_cycle: false });
    assert_eq!(step(Phase::AwaitingFrame, Event::FrameReady, period), plain(Phase::Reducing));
    assert_eq!(step(Phase::Reducing, Event::Reduced, period), plain(Phase::Encoding));
    assert_eq!(step(Phase::Encoding, Event::Encoded, period), plain(Phase::Transmitting));
    assert_eq!(step(Phase::Transmitting, Event::Sent, period), plain(Phase::Sleeping));
    assert_eq!(
        step(Phase::Sleeping, Event::Elapsed(6_000_000), period),
        Some(Transition {
            next: Phase::AwaitingFrame,
            sleep_ns: 10_000_000,
            report: false,
            new_cycle: true
        })
    );
}

#[test]
fn a_frame_that_is_not_ready_is_polled_again_after_a_nap() {
    assert_eq!(
        step(Phase::AwaitingFrame, Event::FrameNotReady, 16_000_000),
        Some(Transition {
            next: Phase::AwaitingFrame,
            sleep_ns: 1_000_000,
            report: false,
            new_cycle: false
        })
    );
}

#[test]
fn a_failed_capture_gives_the_cycle_up() {
    assert_eq!(
        step(Phase::AwaitingFrame, Event::CaptureFailed, 16_000_000),
        Some(Transition {
            next: Phase::AwaitingFrame,
            sleep_ns: 16_000_000,
            report: true,
            new_cycle: true
        })
    );
}

#[test]
fn a_failed_write_is_reported_and_the_cycle_goes_on() {
    assert_eq!(
        step(Phase::Transmitting, Event::SendFailed, 16_000_000),
        Some(Transition { next: Phase::Sleeping, sleep_ns: 0, report: true, new_cycle: false })
    );
}

#[test]
fn an_overrun_cycle_does_not_sleep() {
    assert_eq!(
        step(Phase::Sleeping, Event::Elapsed(20_000_000), 16_000_000),
        Some(Transition {
            next: Phase::AwaitingFrame,
            sleep_ns: 0,
            report: false,
            new_cycle: true
        })
    );
}

#[test]
fn events_of_another_phase_are_refused() {
    assert_eq!(step(Phase::Reducing, Event::FrameReady, 1), None);
    assert_eq!(step(Phase::AwaitingFrame, Event::Sent, 1), None);
    assert_eq!(step(Phase::Sleeping, Event::Encoded, 1), None);
    assert_eq!(step(Phase::Transmitting, Event::Elapsed(0), 1), None);
    assert_eq!(step(Phase::Encoding, Event::SendFailed, 1), None);
}
