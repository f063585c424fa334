use project_watcher::coordinator::{Coordinator, Input, Phase, Reaction, Wait};

fn quiet(wait: Wait) -> Reaction {
    Reaction { emit: false, wait }
}

fn emitting(wait: Wait) -> Reaction {
    Reaction { emit: true, wait }
}

#[test]
fn new_coordinator_is_idle() {
    let c = Coordinator::new(50);
    assert_eq!(c.phase(), Phase::Idle);
    assert_eq!(c.period(), 50);
}

#[test]
fn raw_signal_starts_a_countdown_of_a_full_period() {
    let mut c = Coordinator::new(50);
    assert_eq!(
        c.step(7, Input::Raw),
        quiet(Wait::SignalOrTimeout { ticks: 50 })
    );
    assert_eq!(c.phase(), Phase::Counting { since: 7 });
}

#[test]
fn raw_signal_restarts_a_running_countdown() {
    let mut c = Coordinator::new(50);
    c.step(0, Input::Raw);
    assert_eq!(
        c.step(10, Input::Raw),
        quiet(Wait::SignalOrTimeout { ticks: 50 })
    );
    assert_eq!(c.phase(), Phase::Counting { since: 10 });
    assert_eq!(
        c.step(20, Input::Raw),
        quiet(Wait::SignalOrTimeout { ticks: 50 })
    );
    assert_eq!(c.phase(), Phase::Counting { since: 20 });
    // fifty ticks after the first signal nothing leaves: the count runs from the last
    assert_eq!(
        c.step(50, Input::Wake),
        quiet(Wait::SignalOrTimeout { ticks: 20 })
    );
    assert_eq!(c.step(70, Input::Wake), emitting(Wait::Signal));
    assert_eq!(c.phase(), Phase::Idle);
}

#[test]
fn early_wake_keeps_counting_and_tells_what_is_left() {
    let mut c = Coordinator::new(50);
    c.step(100, Input::Raw);
    assert_eq!(
        c.step(149, Input::Wake),
        quiet(Wait::SignalOrTimeout { ticks: 1 })
    );
    assert_eq!(c.phase(), Phase::Counting { since: 100 });
    assert_eq!(c.step(150, Input::Wake), emitting(Wait::Signal));
}

#[test]
fn one_countdown_emits_once() {
    let mut c = Coordinator::new(50);
    c.step(0, Input::Raw);
    assert_eq!(c.step(50, Input::Wake), emitting(Wait::Signal));
    assert_eq!(c.step(60, Input::Wake), quiet(Wait::Signal));
    assert_eq!(c.step(500, Input::Wake), quiet(Wait::Signal));
    assert_eq!(c.phase(), Phase::Idle);
}

#[test]
fn idle_coordinator_never_emits_without_a_raw_signal() {
    let mut c = Coordinator::new(50);
    for now in [0u64, 1, 49, 50, 51, 1_000, u64::MAX] {
        assert_eq!(c.step(now, Input::Wake), quiet(Wait::Signal));
        assert_eq!(c.phase(), Phase::Idle);
    }
    assert_eq!(c.step(u64::MAX, Input::Closed), quiet(Wait::Nothing));
    assert_eq!(c.phase(), Phase::Finished);
}

#[test]
fn raw_signal_after_an_expired_countdown_lets_it_fire_and_starts_anew() {
    let mut c = Coordinator::new(50);
    c.step(0, Input::Raw);
    assert_eq!(
        c.step(100, Input::Raw),
        emitting(Wait::SignalOrTimeout { ticks: 50 })
    );
    assert_eq!(c.phase(), Phase::Counting { since: 100 });
    assert_eq!(c.step(150, Input::Wake), emitting(Wait::Signal));
}

#[test]
fn closing_cancels_a_running_countdown() {
    let mut c = Coordinator::new(50);
    c.step(0, Input::Raw);
    assert_eq!(c.step(10, Input::Closed), quiet(Wait::Nothing));
    assert_eq!(c.phase(), Phase::Finished);
    assert_eq!(c.step(50, Input::Wake), quiet(Wait::Nothing));
}

#[test]
fn closing_after_an_expired_countdown_lets_it_fire() {
    let mut c = Coordinator::new(50);
    c.step(0, Input::Raw);
    assert_eq!(c.step(50, Input::Closed), emitting(Wait::Nothing));
    assert_eq!(c.phase(), Phase::Finished);
}

#[test]
fn finished_coordinator_ignores_a_provider_that_still_delivers() {
    let mut c = Coordinator::new(50);
    c.step(0, Input::Raw);
    c.step(10, Input::Closed);
    for (now, input) in [
        (20u64, Input::Raw),
        (70, Input::Wake),
        (80, Input::Raw),
        (200, Input::Wake),
        (300, Input::Closed),
        (400, Input::Raw),
        (u64::MAX, Input::Wake),
    ] {
        assert_eq!(c.step(now, input), quiet(Wait::Nothing));
        assert_eq!(c.phase(), Phase::Finished);
    }
}

#[test]
fn clock_that_reads_earlier_counts_as_no_time_gone() {
    let mut c = Coordinator::new(50);
    c.step(100, Input::Raw);
    assert_eq!(
        c.step(90, Input::Wake),
        quiet(Wait::SignalOrTimeout { ticks: 50 })
    );
    assert_eq!(c.phase(), Phase::Counting { since: 100 });
}

#[test]
fn zero_period_countdown_is_over_at_once() {
    let mut c = Coordinator::new(0);
    assert_eq!(
        c.step(5, Input::Raw),
        quiet(Wait::SignalOrTimeout { ticks: 0 })
    );
    assert_eq!(c.step(5, Input::Wake), emitting(Wait::Signal));
}

#[test]
fn longest_period_does_not_overflow() {
    let mut c = Coordinator::new(u64::MAX);
    assert_eq!(
        c.step(u64::MAX - 1, Input::Raw),
        quiet(Wait::SignalOrTimeout { ticks: u64::MAX })
    );
    assert_eq!(
        c.step(u64::MAX, Input::Wake),
        quiet(Wait::SignalOrTimeout { ticks: u64::MAX - 1 })
    );
    let mut c = Coordinator::new(u64::MAX);
    c.step(0, Input::Raw);
    assert_eq!(c.step(u64::MAX, Input::Wake), emitting(Wait::Signal));
}

#[test]
fn emissions_never_outnumber_raw_signals() {
    let trace = [
        (0u64, Input::Wake),
        (1, Input::Raw),
        (2, Input::Raw),
        (60, Input::Wake),
        (61, Input::Wake),
        (70, Input::Raw),
        (200, Input::Raw),
        (201, Input::Wake),
        (300, Input::Closed),
        (301, Input::Raw),
        (400, Input::Wake),
    ];
    let mut c = Coordinator::new(50);
    let mut raw = 0;
    let mut emitted = 0;
    for (now, input) in trace {
        if input == Input::Raw {
            raw += 1;
        }
        if c.step(now, input).emit {
            emitted += 1;
        }
        assert!(emitted <= raw);
    }
    assert_eq!(emitted, 3);
}
