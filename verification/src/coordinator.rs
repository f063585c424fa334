//! The debounce coordinator: one countdown slot, restarted by every raw
//! signal, that lets a single debounced signal through when a countdown runs
//! out undisturbed.

use crate::channel::{push, Channel, Diagnostic};
use tokio::sync::mpsc::UnboundedSender;
use vstd::prelude::*;

verus! {

/// What the driver hands to the coordinator.
#[derive(Clone, Copy, Debug, PartialEq, Eq, Structural)]
pub enum Input {
    /// A raw signal was taken from the raw signal channel.
    Raw,
    /// The driver's timer ran out, or the driver merely looked at the clock.
    Wake,
    /// The raw signal channel is closed: its producer is gone.
    Closed,
}

/// The countdown slot of a coordinator.
#[derive(Clone, Copy, Debug, PartialEq, Eq, Structural)]
pub enum Phase {
    /// No countdown is running.
    Idle,
    /// A countdown is running since the raw signal taken at `since`.
    Counting { since: u64 },
    /// The raw signal channel closed; the coordinator is done for good.
    Finished,
}

/// What the driver waits for after a step.
#[derive(Clone, Copy, Debug, PartialEq, Eq, Structural)]
pub enum Wait {
    /// The next raw signal, however long it takes.
    Signal,
    /// The next raw signal, or `ticks` ticks of silence, whichever is first.
    SignalOrTimeout { ticks: u64 },
    /// Nothing: the coordinator task ends.
    Nothing,
}

/// The coordinator's answer to one input.
#[derive(Clone, Copy, Debug, PartialEq, Eq, Structural)]
pub struct Reaction {
    /// Whether one debounced signal goes out now.
    pub emit: bool,
    /// What to wait for next.
    pub wait: Wait,
}

/// What came of serving one input.
#[derive(Clone, Copy, Debug, PartialEq, Eq, Structural)]
pub struct Served {
    /// What to wait for next.
    pub wait: Wait,
    /// The failure to report, if the debounced signal found no receiver.
    pub report: Option<Diagnostic>,
}

/// The mathematical state of a coordinator.
pub struct State {
    pub period: u64,
    pub phase: Phase,
}

/// Ticks gone by at `now` since `since`; none if the clock reads earlier.
pub open spec fn elapsed(since: u64, now: u64) -> int {
    if now >= since {
        now - since
    } else {
        0
    }
}

/// Whether a countdown of `period` ticks started at `since` has run out at `now`.
pub open spec fn expired(since: u64, period: u64, now: u64) -> bool {
    elapsed(since, now) >= period
}

/// Ticks left at `now` of a countdown of `period` ticks started at `since`.
pub open spec fn remaining(since: u64, period: u64, now: u64) -> int {
    if expired(since, period, now) {
        0
    } else {
        period - elapsed(since, now)
    }
}

/// The state that follows `s` when `input` is handled at `now`.
///
/// A raw signal always starts a fresh countdown at `now`, replacing any that
/// ran. A countdown ends when it is found expired. A closed channel ends
/// everything, and nothing leaves `Finished`.
pub open spec fn next_state(s: State, now: u64, input: Input) -> State {
    let phase = match s.phase {
        Phase::Finished => Phase::Finished,
        Phase::Idle => match input {
            Input::Raw => Phase::Counting { since: now },
            Input::Wake => Phase::Idle,
            Input::Closed => Phase::Finished,
        },
        Phase::Counting { since } => match input {
            Input::Raw => Phase::Counting { since: now },
            Input::Wake => if expired(since, s.period, now) {
                Phase::Idle
            } else {
                Phase::Counting { since }
            },
            Input::Closed => Phase::Finished,
        },
    };
    State { period: s.period, phase }
}

/// Whether handling an input at `now` in state `s` lets a debounced signal out:
/// exactly when a countdown was running and is found expired.
///
/// A countdown that has run out by the time an input is handled has fired,
/// whatever the input is: the signal goes out before the input takes effect.
pub open spec fn emits(s: State, now: u64) -> bool {
    match s.phase {
        Phase::Counting { since } => expired(since, s.period, now),
        _ => false,
    }
}

/// What a driver waits for at `now` when the coordinator is in state `s`.
pub open spec fn waiting(s: State, now: u64) -> Wait {
    match s.phase {
        Phase::Idle => Wait::Signal,
        Phase::Counting { since } => Wait::SignalOrTimeout {
            ticks: remaining(since, s.period, now) as u64,
        },
        Phase::Finished => Wait::Nothing,
    }
}

/// A run of stamped inputs: each is an instant and the input handled at it.
pub type Trace = Seq<(u64, Input)>;

/// The state reached from `s` once the inputs of `trace` are handled in order.
pub open spec fn state_after(s: State, trace: Trace) -> State
    decreases trace.len(),
{
    if trace.len() == 0 {
        s
    } else {
        state_after(next_state(s, trace[0].0, trace[0].1), trace.skip(1))
    }
}

/// How many debounced signals go out while the inputs of `trace` are handled
/// in order, starting in state `s`.
pub open spec fn emitted(s: State, trace: Trace) -> nat
    decreases trace.len(),
{
    if trace.len() == 0 {
        0
    } else {
        let first: nat = if emits(s, trace[0].0) { 1 } else { 0 };
        first + emitted(next_state(s, trace[0].0, trace[0].1), trace.skip(1))
    }
}

/// How many raw signals `trace` holds.
pub open spec fn raw_signals(trace: Trace) -> nat
    decreases trace.len(),
{
    if trace.len() == 0 {
        0
    } else {
        let first: nat = if trace[0].1 == Input::Raw { 1 } else { 0 };
        first + raw_signals(trace.skip(1))
    }
}

/// Handling one run after another is handling their concatenation.
pub proof fn lemma_runs_compose(s: State, head: Trace, tail: Trace)
    ensures
        state_after(s, head + tail) == state_after(state_after(s, head), tail),
        emitted(s, head + tail) == emitted(s, head) + emitted(state_after(s, head), tail),
    decreases head.len(),
{
    if head.len() == 0 {
        assert(head + tail =~= tail);
    } else {
        let whole = head + tail;
        assert(whole[0] == head[0]);
        assert(whole.skip(1) =~= head.skip(1) + tail);
        lemma_runs_compose(next_state(s, head[0].0, head[0].1), head.skip(1), tail);
    }
}

/// A finished coordinator stays finished and never emits again, whatever it
/// is handed: raw signals that a detached provider still delivers included.
pub proof fn lemma_finished_is_silent(s: State, trace: Trace)
    requires
        s.phase == Phase::Finished,
    ensures
        emitted(s, trace) == 0,
        state_after(s, trace) == s,
    decreases trace.len(),
{
    if trace.len() > 0 {
        lemma_finished_is_silent(next_state(s, trace[0].0, trace[0].1), trace.skip(1));
    }
}

/// Once the raw signal channel is seen closed, nothing that follows makes the
/// coordinator emit: what went out up to and with the closing is all there is.
pub proof fn lemma_nothing_after_close(s: State, before: Trace, at: u64, after: Trace)
    ensures
        state_after(s, before.push((at, Input::Closed))).phase == Phase::Finished,
        emitted(s, before.push((at, Input::Closed)) + after) == emitted(
            s,
            before.push((at, Input::Closed)),
        ),
{
    let closing: Trace = seq![(at, Input::Closed)];
    let until = before.push((at, Input::Closed));
    assert(until =~= before + closing);
    lemma_runs_compose(s, before, closing);
    let reached = state_after(s, before);
    assert(state_after(reached, closing) == next_state(reached, at, Input::Closed)) by {
        reveal_with_fuel(state_after, 2);
    }
    lemma_runs_compose(s, until, after);
    lemma_finished_is_silent(state_after(s, until), after);
}

/// Without a raw signal there is no debounced signal: a coordinator with no
/// countdown running emits nothing as long as no raw signal is handled.
pub proof fn lemma_silent_without_signal(s: State, trace: Trace)
    requires
        !(s.phase is Counting),
        forall|i: int| 0 <= i < trace.len() ==> (#[trigger] trace[i]).1 != Input::Raw,
    ensures
        emitted(s, trace) == 0,
        !(state_after(s, trace).phase is Counting),
    decreases trace.len(),
{
    if trace.len() > 0 {
        let rest = trace.skip(1);
        assert(trace[0].1 != Input::Raw);
        assert forall|i: int| 0 <= i < rest.len() implies (#[trigger] rest[i]).1 != Input::Raw by {
            assert(rest[i] == trace[i + 1]);
        }
        lemma_silent_without_signal(next_state(s, trace[0].0, trace[0].1), rest);
    }
}

/// At most one debounced signal per countdown: no more go out than raw
/// signals came in, counting the countdown that was already running.
pub proof fn lemma_one_emission_per_countdown(s: State, trace: Trace)
    ensures
        emitted(s, trace) <= raw_signals(trace) + (if s.phase is Counting { 1nat } else { 0nat }),
    decreases trace.len(),
{
    if trace.len() > 0 {
        lemma_one_emission_per_countdown(next_state(s, trace[0].0, trace[0].1), trace.skip(1));
    }
}

/// The debounce coordinator. Its countdown slot changes only through `step`.
pub struct Coordinator {
    period: u64,
    phase: Phase,
}

impl View for Coordinator {
    type V = State;

    closed spec fn view(&self) -> State {
        State { period: self.period, phase: self.phase }
    }
}

impl Coordinator {
    /// A coordinator with no countdown running.
    pub fn new(period: u64) -> (c: Coordinator)
        ensures
            c@ == (State { period, phase: Phase::Idle }),
    {
        Coordinator { period, phase: Phase::Idle }
    }

    /// The debounce period, in ticks.
    pub fn period(&self) -> (p: u64)
        ensures
            p == self@.period,
    {
        self.period
    }

    /// The countdown slot.
    pub fn phase(&self) -> (p: Phase)
        ensures
            p == self@.phase,
    {
        self.phase
    }

    /// Handles one input at instant `now`.
    pub fn step(&mut self, now: u64, input: Input) -> (r: Reaction)
        ensures
            final(self)@ == next_state(old(self)@, now, input),
            r.emit == emits(old(self)@, now),
            r.wait == waiting(final(self)@, now),
    {
        let mut emit = false;
        match self.phase {
            Phase::Finished => {},
            Phase::Idle => match input {
                Input::Raw => {
                    self.phase = Phase::Counting { since: now };
                },
                Input::Wake => {},
                Input::Closed => {
                    self.phase = Phase::Finished;
                },
            },
            Phase::Counting { since } => {
                emit = Self::ran_out(since, self.period, now);
                match input {
                    Input::Raw => {
                        self.phase = Phase::Counting { since: now };
                    },
                    Input::Wake => {
                        if emit {
                            self.phase = Phase::Idle;
                        }
                    },
                    Input::Closed => {
                        self.phase = Phase::Finished;
                    },
                }
            },
        }
        let wait = match self.phase {
            Phase::Idle => Wait::Signal,
            Phase::Counting { since } => Wait::SignalOrTimeout {
                ticks: Self::ticks_left(since, self.period, now),
            },
            Phase::Finished => Wait::Nothing,
        };
        Reaction { emit, wait }
    }

    /// Handles one input at instant `now`, and pushes a debounced signal to
    /// the consumer if one goes out. A consumer that no longer listens is
    /// reported; the coordinator goes on all the same.
    pub fn serve(&mut self, now: u64, input: Input, consumer: &UnboundedSender<()>) -> (served:
        Served)
        ensures
            final(self)@ == next_state(old(self)@, now, input),
            served.wait == waiting(final(self)@, now),
            served.report.is_none() || served.report == Some(Diagnostic::DebouncedSend),
            served.report.is_some() ==> emits(old(self)@, now),
    {
        let reaction = self.step(now, input);
        let report = if reaction.emit {
            push(Channel::Debounced, consumer)
        } else {
            None
        };
        Served { wait: reaction.wait, report }
    }

    fn ran_out(since: u64, period: u64, now: u64) -> (b: bool)
        ensures
            b == expired(since, period, now),
    {
        if now >= since {
            now - since >= period
        } else {
            period == 0
        }
    }

    fn ticks_left(since: u64, period: u64, now: u64) -> (t: u64)
        ensures
            t == remaining(since, period, now),
    {
        if now >= since {
            if now - since >= period {
                0
            } else {
                period - (now - since)
            }
        } else {
            period
        }
    }
}

} // verus!
