//! The course of a whole run, as a function of what the polls report, and
//! the laws that hold of it.
//!
//! A run polls the task, and after each poll does what the executor decides:
//! it ends, or it performs a wake cycle and polls again. `trace` lists what
//! happens in a run when the polls give a sequence of outcomes, and `result`
//! is what the run returns.

use vstd::prelude::*;
use crate::executor::{Executor, StepView};
use crate::hardware::{clear_pending_writes, wake_cycle_spec, HwOp};
use crate::poll::{is_pending, resolution, Async};
use crate::registers::{CLEAR_ALL, CLEAR_PENDING_BANKS};

verus! {

/// The two entry points of the executor.
pub ghost enum Entry {
    /// `Executor::run`, for a task that may be moved between polls.
    Run,
    /// `Executor::run_stable`, for a task that stays at one address.
    RunStable,
}

/// One thing that happens in a run.
pub ghost enum Event {
    /// The task is polled.
    Poll,
    /// An operation on the hardware is performed.
    Hardware(HwOp),
}

/// The kinds of events, for counting.
pub ghost enum Kind {
    Poll,
    Wait,
    Clear,
}

/// The number of events in one round: a poll, the halt, and one write for
/// each bank.
pub open spec fn round_len() -> int {
    CLEAR_PENDING_BANKS as int + 2
}

impl Event {
    pub open spec fn kind(self) -> Kind {
        match self {
            Event::Poll => Kind::Poll,
            Event::Hardware(HwOp::WaitForEvent) => Kind::Wait,
            Event::Hardware(HwOp::ClearPending { .. }) => Kind::Clear,
        }
    }

    /// The halt of the core until an event arrives.
    pub open spec fn wait() -> Event {
        Event::Hardware(HwOp::WaitForEvent)
    }

    /// The write that clears every pending flag of `bank`.
    pub open spec fn clear(bank: int) -> Event {
        Event::Hardware(HwOp::ClearPending { bank: bank as usize, mask: CLEAR_ALL })
    }
}

/// How the executor answers a poll outcome at the given entry point.
pub open spec fn step<T, E>(entry: Entry, executor: Executor, polled: Result<Async<T>, E>)
    -> StepView<T, E> {
    match entry {
        Entry::Run => executor.run_spec(polled),
        Entry::RunStable => executor.run_stable_spec(polled),
    }
}

/// Hardware operations as events of a run.
pub open spec fn performed(ops: Seq<HwOp>) -> Seq<Event> {
    ops.map_values(|op: HwOp| Event::Hardware(op))
}

/// What happens, in order, in a run whose polls report `outcomes`. The run
/// stops at the first outcome that is not pending; outcomes after it are
/// never asked for.
pub open spec fn trace<T, E>(
    entry: Entry,
    executor: Executor,
    outcomes: Seq<Result<Async<T>, E>>,
) -> Seq<Event>
    decreases outcomes.len(),
{
    if outcomes.len() == 0 {
        Seq::empty()
    } else {
        match step(entry, executor, outcomes[0]) {
            StepView::Done(_) => seq![Event::Poll],
            StepView::Suspend { executor: next, ops } => seq![Event::Poll] + performed(ops)
                + trace(entry, next, outcomes.drop_first()),
        }
    }
}

/// What a run returns whose polls report `outcomes`: nothing while every
/// outcome is pending.
pub open spec fn result<T, E>(
    entry: Entry,
    executor: Executor,
    outcomes: Seq<Result<Async<T>, E>>,
) -> Option<Result<T, E>>
    decreases outcomes.len(),
{
    if outcomes.len() == 0 {
        None
    } else {
        match step(entry, executor, outcomes[0]) {
            StepView::Done(value) => Some(value),
            StepView::Suspend { executor: next, ops } => result(
                entry,
                next,
                outcomes.drop_first(),
            ),
        }
    }
}

/// The task is pending at its first `n` polls and finishes at the next one.
pub open spec fn finishes_after<T, E>(outcomes: Seq<Result<Async<T>, E>>, n: nat) -> bool {
    &&& n < outcomes.len()
    &&& forall|i: int| 0 <= i < n ==> is_pending(#[trigger] outcomes[i])
    &&& !is_pending(outcomes[n as int])
}

/// One round: a poll that finds the task pending, and the wake cycle after
/// it.
pub open spec fn round() -> Seq<Event> {
    seq![Event::Poll] + performed(wake_cycle_spec())
}

/// `n` rounds, one after the other.
pub open spec fn rounds(n: nat) -> Seq<Event>
    decreases n,
{
    if n == 0 {
        Seq::empty()
    } else {
        round() + rounds((n - 1) as nat)
    }
}

/// How many events of `kind` a trace holds.
pub open spec fn count(events: Seq<Event>, kind: Kind) -> nat
    decreases events.len(),
{
    if events.len() == 0 {
        0
    } else {
        count(events.drop_last(), kind) + if events.last().kind() == kind {
            1nat
        } else {
            0nat
        }
    }
}

/// A round is a poll, then the halt, then the writes to the banks in rising
/// order.
pub proof fn lemma_round_layout()
    ensures
        round().len() == round_len(),
        round()[0] == Event::Poll,
        round()[1] == Event::wait(),
        forall|bank: int|
            0 <= bank < CLEAR_PENDING_BANKS ==> #[trigger] round()[bank + 2] == Event::clear(bank),
{
    assert(clear_pending_writes(CLEAR_PENDING_BANKS as nat).len() == CLEAR_PENDING_BANKS);
    assert(wake_cycle_spec().len() == CLEAR_PENDING_BANKS + 1);
    assert forall|bank: int| 0 <= bank < CLEAR_PENDING_BANKS implies #[trigger] round()[bank + 2]
        == Event::clear(bank) by {
        assert(wake_cycle_spec()[bank + 1] == clear_pending_writes(CLEAR_PENDING_BANKS as nat)[bank]);
    }
}

/// In a row of rounds every place holds what its place within the round
/// says.
pub proof fn lemma_rounds_layout(n: nat)
    ensures
        rounds(n).len() == n * round_len(),
        forall|i: int| 0 <= i < n * round_len() ==> #[trigger] rounds(n)[i] == round()[i % round_len()],
    decreases n,
{
    lemma_round_layout();
    if n > 0 {
        lemma_rounds_layout((n - 1) as nat);
        assert(n * round_len() == (n - 1) * round_len() + round_len()) by (nonlinear_arith);
        assert forall|i: int| 0 <= i < n * round_len() implies #[trigger] rounds(n)[i] == round()[i
            % round_len()] by {
            if i >= round_len() {
                assert(rounds(n)[i] == rounds((n - 1) as nat)[i - round_len()]);
                assert((i - round_len()) % round_len() == i % round_len());
            }
        }
    }
}

/// A run whose task is pending `n` times and then finishes is `n` rounds and
/// one last poll, and returns what that poll reported.
pub proof fn lemma_finishing_run<T, E>(
    entry: Entry,
    executor: Executor,
    outcomes: Seq<Result<Async<T>, E>>,
    n: nat,
)
    requires
        finishes_after(outcomes, n),
    ensures
        trace(entry, executor, outcomes) == rounds(n) + seq![Event::Poll],
        result(entry, executor, outcomes) == resolution(outcomes[n as int]),
    decreases n,
{
    if n == 0 {
        assert(trace(entry, executor, outcomes) =~= rounds(0) + seq![Event::Poll]);
    } else {
        let rest = outcomes.drop_first();
        assert(is_pending(outcomes[0]));
        assert forall|i: int| 0 <= i < n - 1 implies is_pending(#[trigger] rest[i]) by {
            assert(rest[i] == outcomes[i + 1]);
        }
        assert(rest[n - 1] == outcomes[n as int]);
        lemma_finishing_run(entry, executor, rest, (n - 1) as nat);
        assert(trace(entry, executor, outcomes) =~= rounds(n) + seq![Event::Poll]);
    }
}

/// The count of a trace made of two parts is the sum of the counts of the
/// parts.
pub proof fn lemma_count_concat(first: Seq<Event>, second: Seq<Event>, kind: Kind)
    ensures
        count(first + second, kind) == count(first, kind) + count(second, kind),
    decreases second.len(),
{
    if second.len() == 0 {
        assert(first + second =~= first);
    } else {
        assert((first + second).drop_last() =~= first + second.drop_last());
        lemma_count_concat(first, second.drop_last(), kind);
    }
}

/// A trace of one event counts one for the kind of that event.
pub proof fn lemma_count_single(event: Event, kind: Kind)
    ensures
        count(seq![event], kind) == if event.kind() == kind {
            1nat
        } else {
            0nat
        },
{
    let single = seq![event];
    assert(single.last() == event);
    assert(count(single.drop_last(), kind) == 0);
}

/// The writes to the first `banks` banks are that many clears and nothing
/// else.
pub proof fn lemma_count_clear_writes(banks: nat, kind: Kind)
    ensures
        count(performed(clear_pending_writes(banks)), kind) == if kind == Kind::Clear {
            banks
        } else {
            0nat
        },
    decreases banks,
{
    if banks > 0 {
        let writes = performed(clear_pending_writes(banks));
        assert(writes.drop_last() =~= performed(clear_pending_writes((banks - 1) as nat)));
        lemma_count_clear_writes((banks - 1) as nat, kind);
    }
}

/// What one round holds of each kind.
pub open spec fn round_count(kind: Kind) -> nat {
    match kind {
        Kind::Poll => 1,
        Kind::Wait => 1,
        Kind::Clear => CLEAR_PENDING_BANKS as nat,
    }
}

/// A round is one poll, one halt and one write for each bank.
pub proof fn lemma_count_round(kind: Kind)
    ensures
        count(round(), kind) == round_count(kind),
{
    let writes = performed(clear_pending_writes(CLEAR_PENDING_BANKS as nat));
    assert(round() =~= (seq![Event::Poll] + seq![Event::wait()]) + writes);
    lemma_count_single(Event::Poll, kind);
    lemma_count_single(Event::wait(), kind);
    lemma_count_clear_writes(CLEAR_PENDING_BANKS as nat, kind);
    lemma_count_concat(seq![Event::Poll], seq![Event::wait()], kind);
    lemma_count_concat(seq![Event::Poll] + seq![Event::wait()], writes, kind);
}

/// `n` rounds hold `n` times what one round holds.
pub proof fn lemma_count_rounds(n: nat, kind: Kind)
    ensures
        count(rounds(n), kind) == n * round_count(kind),
    decreases n,
{
    let each = round_count(kind);
    if n == 0 {
        assert(n * each == 0) by (nonlinear_arith)
            requires
                n == 0,
        ;
    } else {
        let before = (n - 1) as nat;
        lemma_count_round(kind);
        lemma_count_rounds(before, kind);
        lemma_count_concat(round(), rounds(before), kind);
        assert(n * each == each + before * each) by (nonlinear_arith)
            requires
                before == n - 1,
        ;
    }
}

/// A task that finishes at its first poll is polled once and the run returns
/// what it reported: the core is never halted and no register is written.
pub proof fn lemma_immediate_completion<T, E>(
    entry: Entry,
    executor: Executor,
    outcomes: Seq<Result<Async<T>, E>>,
)
    requires
        outcomes.len() > 0,
        !is_pending(outcomes[0]),
    ensures
        trace(entry, executor, outcomes) == seq![Event::Poll],
        result(entry, executor, outcomes) == resolution(outcomes[0]),
        count(trace(entry, executor, outcomes), Kind::Wait) == 0,
        count(trace(entry, executor, outcomes), Kind::Clear) == 0,
{
    lemma_count_single(Event::Poll, Kind::Wait);
    lemma_count_single(Event::Poll, Kind::Clear);
}

/// A task that is pending at exactly `n` polls and finishes at the next one
/// costs exactly `n` halts, each with one write to every bank, and `n + 1`
/// polls; the run returns what the last poll reported.
pub proof fn lemma_pending_polls_cost_cycles<T, E>(
    entry: Entry,
    executor: Executor,
    outcomes: Seq<Result<Async<T>, E>>,
    n: nat,
)
    requires
        finishes_after(outcomes, n),
    ensures
        count(trace(entry, executor, outcomes), Kind::Wait) == n,
        count(trace(entry, executor, outcomes), Kind::Clear) == n * CLEAR_PENDING_BANKS,
        count(trace(entry, executor, outcomes), Kind::Poll) == n + 1,
        result(entry, executor, outcomes) == resolution(outcomes[n as int]),
{
    lemma_finishing_run(entry, executor, outcomes, n);
    lemma_count_rounds(n, Kind::Wait);
    lemma_count_rounds(n, Kind::Clear);
    lemma_count_rounds(n, Kind::Poll);
    lemma_count_single(Event::Poll, Kind::Wait);
    lemma_count_single(Event::Poll, Kind::Clear);
    lemma_count_single(Event::Poll, Kind::Poll);
    lemma_count_concat(rounds(n), seq![Event::Poll], Kind::Wait);
    lemma_count_concat(rounds(n), seq![Event::Poll], Kind::Clear);
    lemma_count_concat(rounds(n), seq![Event::Poll], Kind::Poll);
}

/// While the task stays pending the run goes on: it returns nothing, and
/// every poll so far was followed by a full wake cycle.
pub proof fn lemma_pending_run_goes_on<T, E>(
    entry: Entry,
    executor: Executor,
    outcomes: Seq<Result<Async<T>, E>>,
)
    requires
        forall|i: int| 0 <= i < outcomes.len() ==> is_pending(#[trigger] outcomes[i]),
    ensures
        result(entry, executor, outcomes) is None,
        trace(entry, executor, outcomes) == rounds(outcomes.len()),
    decreases outcomes.len(),
{
    if outcomes.len() > 0 {
        let rest = outcomes.drop_first();
        assert(is_pending(outcomes[0]));
        assert forall|i: int| 0 <= i < rest.len() implies is_pending(#[trigger] rest[i]) by {
            assert(rest[i] == outcomes[i + 1]);
        }
        lemma_pending_run_goes_on(entry, executor, rest);
        assert(trace(entry, executor, outcomes) =~= rounds(outcomes.len()));
    }
}

/// Every wake cycle of a finishing run is laid out alike, whichever
/// interrupt ended the halt: after the poll that found the task pending comes
/// the halt, then one write of the all-ones word to each of the banks, in
/// rising order, and then the next poll.
pub proof fn lemma_cycle_clears_every_bank<T, E>(
    entry: Entry,
    executor: Executor,
    outcomes: Seq<Result<Async<T>, E>>,
    n: nat,
    cycle: nat,
)
    requires
        finishes_after(outcomes, n),
        cycle < n,
    ensures
        ({
            let events = trace(entry, executor, outcomes);
            let start = cycle * round_len();
            &&& events.len() == n * round_len() + 1
            &&& events[start] == Event::Poll
            &&& events[start + 1] == Event::wait()
            &&& forall|bank: int|
                0 <= bank < CLEAR_PENDING_BANKS ==> #[trigger] events[start + 2 + bank]
                    == Event::clear(bank)
            &&& events[start + round_len()] == Event::Poll
        }),
{
    let events = trace(entry, executor, outcomes);
    let start = cycle * round_len();
    lemma_finishing_run(entry, executor, outcomes, n);
    lemma_rounds_layout(n);
    lemma_round_layout();
    assert(events[start] == rounds(n)[start]);
    assert(events[start + 1] == rounds(n)[start + 1]);
    assert forall|bank: int| 0 <= bank < CLEAR_PENDING_BANKS implies #[trigger] events[start + 2
        + bank] == Event::clear(bank) by {
        assert(events[start + 2 + bank] == rounds(n)[start + 2 + bank]);
        assert((start + 2 + bank) % round_len() == bank + 2);
    }
    if cycle + 1 < n {
        assert(events[start + round_len()] == rounds(n)[start + round_len()]);
        assert((start + round_len()) % round_len() == 0);
    }
}

/// In a finishing run every write to a clear-pending register stands after a
/// return from the halt and before the next poll: going back from the write
/// there are only writes to lower banks until the halt is met, and going on
/// from it only writes to higher banks until the task is polled.
pub proof fn lemma_clear_between_wake_and_poll<T, E>(
    entry: Entry,
    executor: Executor,
    outcomes: Seq<Result<Async<T>, E>>,
    n: nat,
    at: int,
)
    requires
        finishes_after(outcomes, n),
        0 <= at < trace(entry, executor, outcomes).len(),
        trace(entry, executor, outcomes)[at].kind() == Kind::Clear,
    ensures
        ({
            let events = trace(entry, executor, outcomes);
            let bank = at % round_len() - 2;
            let woken = at - bank - 1;
            let polled = at + CLEAR_PENDING_BANKS - bank;
            &&& 0 <= bank < CLEAR_PENDING_BANKS
            &&& events[at] == Event::clear(bank)
            &&& 0 <= woken
            &&& events[woken] == Event::wait()
            &&& polled < events.len()
            &&& events[polled] == Event::Poll
            &&& forall|between: int|
                woken < between < polled ==> (#[trigger] events[between]).kind() == Kind::Clear
        }),
{
    let events = trace(entry, executor, outcomes);
    lemma_finishing_run(entry, executor, outcomes, n);
    lemma_rounds_layout(n);
    lemma_round_layout();
    assert(at < n * round_len());
    assert(events[at] == rounds(n)[at]);
    let place = at % round_len();
    assert(place >= 2) by {
        if place < 2 {
            assert(round()[place].kind() != Kind::Clear);
        }
    }
    let bank = place - 2;
    assert(round()[bank + 2] == Event::clear(bank));
    let cycle = at / round_len();
    assert(at == cycle * round_len() + place);
    assert(0 <= cycle < n);
    lemma_cycle_clears_every_bank(entry, executor, outcomes, n, cycle as nat);
    let start = cycle * round_len();
    assert forall|between: int| at - bank - 1 < between < at + CLEAR_PENDING_BANKS
        - bank implies (#[trigger] events[between]).kind() == Kind::Clear by {
        let other = between - start - 2;
        assert(events[start + 2 + other] == Event::clear(other));
    }
}

/// In a finishing run the task is polled at the start and after each full
/// wake cycle, and at no other time: every poll but the first comes directly
/// after the write to the last bank of a cycle that began with a halt.
pub proof fn lemma_poll_only_after_wake_cycle<T, E>(
    entry: Entry,
    executor: Executor,
    outcomes: Seq<Result<Async<T>, E>>,
    n: nat,
    at: int,
)
    requires
        finishes_after(outcomes, n),
        0 < at < trace(entry, executor, outcomes).len(),
        trace(entry, executor, outcomes)[at] == Event::Poll,
    ensures
        ({
            let events = trace(entry, executor, outcomes);
            &&& at >= round_len()
            &&& at % round_len() == 0
            &&& events[at - round_len()] == Event::Poll
            &&& events[at - round_len() + 1] == Event::wait()
            &&& forall|bank: int|
                0 <= bank < CLEAR_PENDING_BANKS ==> #[trigger] events[at - round_len() + 2 + bank]
                    == Event::clear(bank)
        }),
{
    let events = trace(entry, executor, outcomes);
    lemma_finishing_run(entry, executor, outcomes, n);
    lemma_rounds_layout(n);
    lemma_round_layout();
    let place = at % round_len();
    let cycle = at / round_len();
    assert(at == cycle * round_len() + place);
    if at < n * round_len() {
        assert(events[at] == rounds(n)[at]);
        if place == 1 {
            assert(round()[place] == Event::wait());
        } else if place >= 2 {
            assert(round()[(place - 2) + 2] == Event::clear(place - 2));
        }
    }
    assert(place == 0);
    assert(1 <= cycle <= n);
    lemma_cycle_clears_every_bank(entry, executor, outcomes, n, (cycle - 1) as nat);
}

/// At every poll outcome the two entry points decide alike.
pub proof fn lemma_steps_agree<T, E>(executor: Executor, polled: Result<Async<T>, E>)
    ensures
        executor.run_spec(polled) == executor.run_stable_spec(polled),
{
}

/// Given the same poll outcomes, a run through `run` and a run through
/// `run_stable` do the same things in the same order and return the same
/// result.
pub proof fn lemma_entry_points_agree<T, E>(
    executor: Executor,
    outcomes: Seq<Result<Async<T>, E>>,
)
    ensures
        trace(Entry::Run, executor, outcomes) == trace(Entry::RunStable, executor, outcomes),
        result(Entry::Run, executor, outcomes) == result(Entry::RunStable, executor, outcomes),
    decreases outcomes.len(),
{
    if outcomes.len() > 0 {
        lemma_steps_agree(executor, outcomes[0]);
        lemma_entry_points_agree(executor, outcomes.drop_first());
    }
}

} // verus!
