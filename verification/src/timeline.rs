//! The timeline of a watch: the instants at which debounced signals leave,
//! given the instants at which raw signals arrive, when the driver wakes the
//! coordinator at the very tick a countdown runs out.

use crate::coordinator::{
    emits, emitted, expired, next_state, state_after, waiting, Coordinator, Input, Phase, State,
    Trace, Wait,
};
use vstd::prelude::*;

verus! {

/// Why a list of arrivals has no timeline.
#[derive(Clone, Copy, Debug, PartialEq, Eq, Structural)]
pub enum TimelineError {
    /// The arrival at `index` is earlier than the one before it.
    OutOfOrder { index: usize },
    /// The last countdown would run out beyond the clock's range.
    Overflow,
}

/// No arrival is earlier than one before it.
pub open spec fn ordered(arrivals: Seq<u64>) -> bool {
    forall|i: int, j: int| 0 <= i <= j < arrivals.len() ==> arrivals[i] <= arrivals[j]
}

/// The ticks between arrival `i` and the one after it.
pub open spec fn gap(arrivals: Seq<u64>, i: int) -> int {
    arrivals[i + 1] - arrivals[i]
}

/// Whether the countdown started by arrival `i` runs out undisturbed: it is
/// the last arrival, or the next one comes a full period later or more.
pub open spec fn closes_burst(arrivals: Seq<u64>, period: u64, i: int) -> bool {
    0 <= i < arrivals.len() && (i + 1 == arrivals.len() || gap(arrivals, i) >= period)
}

/// The emissions owed to the first `k` arrivals: one for each of them that
/// closes a burst, a period after it, in order.
pub open spec fn emissions_upto(arrivals: Seq<u64>, period: u64, k: nat) -> Seq<int>
    decreases k,
{
    if k == 0 {
        Seq::empty()
    } else {
        let i = k - 1;
        let before = emissions_upto(arrivals, period, i as nat);
        if closes_burst(arrivals, period, i) {
            before.push(arrivals[i] + period)
        } else {
            before
        }
    }
}

/// The instants at which debounced signals leave: a period after each arrival
/// that closes a burst.
pub open spec fn emissions(arrivals: Seq<u64>, period: u64) -> Seq<int> {
    emissions_upto(arrivals, period, arrivals.len())
}

/// Clock readings as mathematical integers.
pub open spec fn instants(times: Seq<u64>) -> Seq<int> {
    times.map_values(|t: u64| t as int)
}

/// Hands one input to the coordinator and notes the instant if a debounced
/// signal goes out.
fn handle(coordinator: &mut Coordinator, now: u64, input: Input, times: &mut Vec<u64>) -> (wait:
    Wait)
    ensures
        final(coordinator)@ == next_state(old(coordinator)@, now, input),
        wait == waiting(final(coordinator)@, now),
        emits(old(coordinator)@, now) ==> final(times)@ == old(times)@.push(now),
        !emits(old(coordinator)@, now) ==> final(times)@ == old(times)@,
{
    let reaction = coordinator.step(now, input);
    if reaction.emit {
        times.push(now);
    }
    reaction.wait
}

/// The instants at which debounced signals leave when raw signals are taken at
/// `arrivals` and the coordinator is woken exactly when a countdown runs out.
///
/// Arrivals come in order of time; equal instants are fine. The first arrival
/// that is earlier than the one before it is refused as `OutOfOrder`. Where
/// the arrivals are in order but the countdown after the last one would end
/// beyond the clock's range, the answer is `Overflow`.
pub fn debounced_times(arrivals: &Vec<u64>, period: u64) -> (r: Result<Vec<u64>, TimelineError>)
    ensures
        match r {
            Ok(times) => {
                &&& ordered(arrivals@)
                &&& arrivals@.len() > 0 ==> arrivals@.last() + period <= u64::MAX
                &&& instants(times@) == emissions(arrivals@, period)
            },
            Err(TimelineError::OutOfOrder { index }) => {
                &&& 0 < index < arrivals@.len()
                &&& ordered(arrivals@.take(index as int))
                &&& arrivals@[index as int] < arrivals@[index - 1]
            },
            Err(TimelineError::Overflow) => {
                &&& ordered(arrivals@)
                &&& arrivals@.len() > 0
                &&& arrivals@.last() + period > u64::MAX
            },
        },
{
    let mut coordinator = Coordinator::new(period);
    let mut times: Vec<u64> = Vec::new();
    let mut clock: u64 = 0;
    let mut wait = Wait::Signal;
    let mut i: usize = 0;
    while i < arrivals.len()
        invariant
            i <= arrivals.len(),
            ordered(arrivals@.take(i as int)),
            coordinator@.period == period,
            i == 0 ==> coordinator@.phase == Phase::Idle && times@.len() == 0,
            i > 0 ==> coordinator@.phase == (Phase::Counting { since: arrivals@[i - 1] }),
            i > 0 ==> clock == arrivals@[i - 1],
            i > 0 ==> instants(times@) == emissions_upto(arrivals@, period, (i - 1) as nat),
            wait == waiting(coordinator@, clock),
        decreases arrivals.len() - i,
    {
        let at: u64 = arrivals[i];
        if i > 0 && at < clock {
            return Err(TimelineError::OutOfOrder { index: i });
        }
        proof {
            lemma_ordered_grows(arrivals@, i as int);
        }
        match wait {
            Wait::SignalOrTimeout { ticks } => {
                if at - clock >= ticks {
                    // the timer rings before this signal is taken
                    let ghost earlier = times@;
                    handle(&mut coordinator, clock + ticks, Input::Wake, &mut times);
                    proof {
                        assert(instants(earlier.push((clock + ticks) as u64)) =~= instants(
                            earlier,
                        ).push(clock + ticks));
                    }
                }
            },
            _ => {},
        }
        wait = handle(&mut coordinator, at, Input::Raw, &mut times);
        clock = at;
        i += 1;
    }
    assert(arrivals@.take(i as int) =~= arrivals@);
    match wait {
        Wait::SignalOrTimeout { ticks } => {
            // silence after the last signal: its countdown runs out
            match clock.checked_add(ticks) {
                Some(deadline) => {
                    let ghost earlier = times@;
                    handle(&mut coordinator, deadline, Input::Wake, &mut times);
                    proof {
                        assert(instants(earlier.push(deadline)) =~= instants(earlier).push(
                            deadline as int,
                        ));
                    }
                    Ok(times)
                },
                None => Err(TimelineError::Overflow),
            }
        },
        _ => {
            assert(instants(times@) =~= emissions(arrivals@, period));
            Ok(times)
        },
    }
}

/// No raw signal, no debounced signal.
pub proof fn lemma_silence_emits_nothing(period: u64)
    ensures
        emissions(Seq::<u64>::empty(), period) == Seq::<int>::empty(),
{
}

/// A lone raw signal is answered by exactly one debounced signal, a period
/// after it.
pub proof fn lemma_lone_signal_emits_once(at: u64, period: u64)
    ensures
        emissions(seq![at], period) == seq![at + period],
{
    reveal_with_fuel(emissions_upto, 2);
    assert(emissions(seq![at], period) =~= seq![at + period]);
}

/// A burst is answered once: when every raw signal but the first comes less
/// than a period after the one before, exactly one debounced signal leaves,
/// a period after the last raw signal.
pub proof fn lemma_burst_emits_once(arrivals: Seq<u64>, period: u64)
    requires
        arrivals.len() > 0,
        forall|i: int| 0 <= i < arrivals.len() - 1 ==> #[trigger] gap(arrivals, i) < period,
    ensures
        emissions(arrivals, period) == seq![arrivals.last() + period],
{
    lemma_nothing_inside_burst(arrivals, period, (arrivals.len() - 1) as nat);
    assert(emissions(arrivals, period) =~= seq![arrivals.last() + period]);
}

/// Raw signals that keep their distance are answered one by one: when each
/// comes a period or more after the one before, every one of them is followed
/// by a debounced signal of its own, a period later.
pub proof fn lemma_spaced_signals_emit_each(arrivals: Seq<u64>, period: u64)
    requires
        forall|i: int| 0 <= i < arrivals.len() - 1 ==> #[trigger] gap(arrivals, i) >= period,
    ensures
        emissions(arrivals, period) == Seq::new(arrivals.len(), |i: int| arrivals[i] + period),
{
    lemma_each_when_spaced(arrivals, period, arrivals.len());
}

/// Groups of raw signals that lie a period or more apart are answered
/// independently: the emissions of the whole are those of the signals up to
/// the gap, followed by those of the signals after it.
pub proof fn lemma_gap_separates(arrivals: Seq<u64>, period: u64, k: int)
    requires
        0 < k < arrivals.len(),
        gap(arrivals, k - 1) >= period,
    ensures
        emissions(arrivals, period) == emissions(arrivals.take(k), period) + emissions(
            arrivals.skip(k),
            period,
        ),
{
    lemma_before_gap(arrivals, period, k, k as nat);
    lemma_after_gap(arrivals, period, k, (arrivals.len() - k) as nat);
    assert(arrivals.take(k).len() == k);
    assert(arrivals.skip(k).len() == arrivals.len() - k);
}

/// The instants at which `trace` hands over a raw signal, in order.
pub open spec fn raw_instants(trace: Trace) -> Seq<u64>
    decreases trace.len(),
{
    if trace.len() == 0 {
        Seq::empty()
    } else if trace[0].1 == Input::Raw {
        seq![trace[0].0] + raw_instants(trace.skip(1))
    } else {
        raw_instants(trace.skip(1))
    }
}

/// The clock never reads earlier from one input of `trace` to the next.
pub open spec fn in_time_order(trace: Trace) -> bool {
    forall|i: int, j: int| 0 <= i <= j < trace.len() ==> trace[i].0 <= trace[j].0
}

/// The raw signal channel stays open throughout `trace`.
pub open spec fn stays_open(trace: Trace) -> bool {
    forall|i: int| 0 <= i < trace.len() ==> (#[trigger] trace[i]).1 != Input::Closed
}

/// The raw signal whose countdown runs in state `s`, if one does.
pub open spec fn outstanding(s: State) -> Seq<u64> {
    match s.phase {
        Phase::Counting { since } => seq![since],
        _ => Seq::empty(),
    }
}

/// One if a countdown runs in state `s`, else none.
pub open spec fn pending(s: State) -> nat {
    if s.phase is Counting {
        1
    } else {
        0
    }
}

/// The timeline holds under every schedule. However often and however late
/// the driver wakes the coordinator, while the clock is monotonic and the raw
/// signal channel open, the debounced signals that went out and the one that
/// a running countdown still owes are as many as the timeline of the raw
/// signals shows.
pub proof fn lemma_every_schedule_agrees(period: u64, trace: Trace)
    requires
        in_time_order(trace),
        stays_open(trace),
    ensures
        ({
            let idle = State { period, phase: Phase::Idle };
            emitted(idle, trace) + pending(state_after(idle, trace)) == emissions(
                raw_instants(trace),
                period,
            ).len()
        }),
{
    let idle = State { period, phase: Phase::Idle };
    lemma_schedule_from(idle, trace);
    assert(outstanding(idle) + raw_instants(trace) =~= raw_instants(trace));
}

proof fn lemma_schedule_from(s: State, trace: Trace)
    requires
        !(s.phase is Finished),
        in_time_order(trace),
        stays_open(trace),
        s.phase matches Phase::Counting { since } ==> forall|i: int|
            0 <= i < trace.len() ==> since <= (#[trigger] trace[i]).0,
    ensures
        emitted(s, trace) + pending(state_after(s, trace)) == emissions(
            outstanding(s) + raw_instants(trace),
            s.period,
        ).len(),
    decreases trace.len(),
{
    let period = s.period;
    let all = outstanding(s) + raw_instants(trace);
    if trace.len() == 0 {
        assert(all =~= outstanding(s));
        if let Phase::Counting { since } = s.phase {
            lemma_lone_signal_emits_once(since, period);
        }
    } else {
        let now = trace[0].0;
        let input = trace[0].1;
        let rest = trace.skip(1);
        let next = next_state(s, now, input);
        let left = outstanding(next) + raw_instants(rest);
        assert(input != Input::Closed);
        assert forall|i: int, j: int| 0 <= i <= j < rest.len() implies rest[i].0 <= rest[j].0 by {
            assert(rest[i] == trace[i + 1] && rest[j] == trace[j + 1]);
        }
        assert forall|i: int| 0 <= i < rest.len() implies (#[trigger] rest[i]).1
            != Input::Closed by {
            assert(rest[i] == trace[i + 1]);
        }
        assert forall|i: int| 0 <= i < rest.len() implies now <= (#[trigger] rest[i]).0 by {
            assert(rest[i] == trace[i + 1]);
        }
        if let Phase::Counting { since } = s.phase {
            assert forall|i: int| 0 <= i < rest.len() implies since <= (#[trigger] rest[i]).0 by {
                assert(rest[i] == trace[i + 1]);
            }
        }
        lemma_schedule_from(next, rest);
        lemma_raw_instants_no_earlier(rest, now);
        match s.phase {
            Phase::Counting { since } => {
                assert(since <= now);
                if expired(since, period, now) {
                    // the countdown has fired: `since` closed a burst
                    assert(all.skip(1) =~= left);
                    if all.len() == 1 {
                        lemma_lone_signal_emits_once(since, period);
                        assert(all =~= seq![since]);
                    } else {
                        assert(all[1] >= now);
                        assert(closes_burst(all, period, 0));
                        lemma_after_gap(all, period, 1, (all.len() - 1) as nat);
                        reveal_with_fuel(emissions_upto, 2);
                    }
                } else if input == Input::Raw {
                    // the countdown was replaced before it ran out
                    assert(all.skip(1) =~= left);
                    assert(all[1] == now);
                    assert(!closes_burst(all, period, 0));
                    lemma_after_gap(all, period, 1, (all.len() - 1) as nat);
                    reveal_with_fuel(emissions_upto, 2);
                    assert(emissions_upto(all, period, 1) + emissions(left, period) =~= emissions(
                        left,
                        period,
                    ));
                } else {
                    assert(all =~= left);
                }
            },
            _ => {
                assert(all =~= left);
            },
        }
    }
}

proof fn lemma_raw_instants_no_earlier(trace: Trace, low: u64)
    requires
        forall|i: int| 0 <= i < trace.len() ==> low <= (#[trigger] trace[i]).0,
    ensures
        forall|j: int| 0 <= j < raw_instants(trace).len() ==> low <= #[trigger] raw_instants(
            trace,
        )[j],
    decreases trace.len(),
{
    if trace.len() > 0 {
        let rest = trace.skip(1);
        assert forall|i: int| 0 <= i < rest.len() implies low <= (#[trigger] rest[i]).0 by {
            assert(rest[i] == trace[i + 1]);
        }
        lemma_raw_instants_no_earlier(rest, low);
        let later = raw_instants(rest);
        assert forall|j: int| 0 <= j < raw_instants(trace).len() implies low
            <= #[trigger] raw_instants(trace)[j] by {
            if trace[0].1 == Input::Raw {
                if j == 0 {
                    assert(low <= trace[0].0);
                } else {
                    assert(raw_instants(trace)[j] == later[j - 1]);
                }
            } else {
                assert(raw_instants(trace)[j] == later[j]);
            }
        }
    }
}

proof fn lemma_nothing_inside_burst(arrivals: Seq<u64>, period: u64, k: nat)
    requires
        k < arrivals.len(),
        forall|i: int| 0 <= i < arrivals.len() - 1 ==> #[trigger] gap(arrivals, i) < period,
    ensures
        emissions_upto(arrivals, period, k) == Seq::<int>::empty(),
    decreases k,
{
    if k > 0 {
        lemma_nothing_inside_burst(arrivals, period, (k - 1) as nat);
        assert(!closes_burst(arrivals, period, k - 1));
    }
}

proof fn lemma_each_when_spaced(arrivals: Seq<u64>, period: u64, k: nat)
    requires
        k <= arrivals.len(),
        forall|i: int| 0 <= i < arrivals.len() - 1 ==> #[trigger] gap(arrivals, i) >= period,
    ensures
        emissions_upto(arrivals, period, k) == Seq::new(k, |i: int| arrivals[i] + period),
    decreases k,
{
    if k > 0 {
        lemma_each_when_spaced(arrivals, period, (k - 1) as nat);
        assert(closes_burst(arrivals, period, k - 1));
    }
    assert(emissions_upto(arrivals, period, k) =~= Seq::new(k, |i: int| arrivals[i] + period));
}

/// Up to a gap, the whole and its part before the gap owe the same emissions.
proof fn lemma_before_gap(arrivals: Seq<u64>, period: u64, k: int, j: nat)
    requires
        0 < k < arrivals.len(),
        gap(arrivals, k - 1) >= period,
        j <= k,
    ensures
        emissions_upto(arrivals, period, j) == emissions_upto(arrivals.take(k), period, j),
    decreases j,
{
    if j > 0 {
        let part = arrivals.take(k);
        lemma_before_gap(arrivals, period, k, (j - 1) as nat);
        assert(part[j - 1] == arrivals[j - 1]);
        if j < k {
            assert(part[j as int] == arrivals[j as int]);
        }
        assert(closes_burst(arrivals, period, j - 1) == closes_burst(part, period, j - 1));
    }
}

/// Past a gap, the whole owes what it owed up to the gap and what its part
/// after the gap owes.
proof fn lemma_after_gap(arrivals: Seq<u64>, period: u64, k: int, j: nat)
    requires
        0 < k < arrivals.len(),
        j <= arrivals.len() - k,
    ensures
        emissions_upto(arrivals, period, (k + j) as nat) == emissions_upto(
            arrivals,
            period,
            k as nat,
        ) + emissions_upto(arrivals.skip(k), period, j),
    decreases j,
{
    let part = arrivals.skip(k);
    if j == 0 {
        assert(emissions_upto(arrivals, period, k as nat) + Seq::<int>::empty()
            =~= emissions_upto(arrivals, period, k as nat));
    } else {
        lemma_after_gap(arrivals, period, k, (j - 1) as nat);
        assert(part[j - 1] == arrivals[k + j - 1]);
        if j < part.len() {
            assert(part[j as int] == arrivals[k + j]);
        }
        assert(closes_burst(arrivals, period, k + j - 1) == closes_burst(part, period, j - 1));
        let upto_gap = emissions_upto(arrivals, period, k as nat);
        let inner = emissions_upto(part, period, (j - 1) as nat);
        assert(upto_gap + inner.push(part[j - 1] + period) =~= (upto_gap + inner).push(
            part[j - 1] + period,
        ));
    }
}

/// An ordered prefix stays ordered when the next arrival is no earlier than
/// its last.
proof fn lemma_ordered_grows(arrivals: Seq<u64>, i: int)
    requires
        0 <= i < arrivals.len(),
        ordered(arrivals.take(i)),
        i > 0 ==> arrivals[i - 1] <= arrivals[i],
    ensures
        ordered(arrivals.take(i + 1)),
{
    let shorter = arrivals.take(i);
    let longer = arrivals.take(i + 1);
    assert forall|a: int, b: int| 0 <= a <= b < longer.len() implies longer[a] <= longer[b] by {
        if b < i {
            assert(shorter[a] <= shorter[b]);
        } else if a < i {
            assert(shorter[a] <= shorter[i - 1]);
        }
    }
}

} // verus!
