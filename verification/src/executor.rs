//! The executor: one task, polled again after every hardware event.

use vstd::prelude::*;
use crate::hardware::{wake_cycle, wake_cycle_spec, HwOp, WAKE_CYCLE_OPS};
use crate::poll::Async;
use crate::registers::{
    bit, with_send_event_on_pending, SEND_EVENT_ON_PENDING, SEND_EVENT_ON_PENDING_BIT,
};

verus! {

/// The runner of a single task.
///
/// An executor stands for exclusive control of the system-control block and
/// the interrupt controller, configured so that every interrupt that becomes
/// pending releases a halted core. It cannot be copied, and every decision
/// takes it by value: while the task is pending it is handed back for the
/// next poll, and when the run has ended it is gone.
pub struct Executor {
    scr: u32,
}

/// What the owner of the hardware has to do after a poll.
pub enum Step<T, E> {
    /// The task is pending. Perform `ops` in order, then poll the task again
    /// and hand the outcome to `executor`.
    Suspend { executor: Executor, ops: [HwOp; WAKE_CYCLE_OPS] },
    /// The task has finished: the run ends with this result.
    Done(Result<T, E>),
}

/// A step as a mathematical value.
pub ghost enum StepView<T, E> {
    Suspend { executor: Executor, ops: Seq<HwOp> },
    Done(Result<T, E>),
}

impl<T, E> View for Step<T, E> {
    type V = StepView<T, E>;

    open spec fn view(&self) -> StepView<T, E> {
        match *self {
            Step::Suspend { executor, ops } => StepView::Suspend { executor, ops: ops@ },
            Step::Done(result) => StepView::Done(result),
        }
    }
}

impl Executor {
    /// Every executor holds a system-control word with send-event-on-pending
    /// switched on.
    #[verifier::type_invariant]
    spec fn configured(self) -> bool {
        self.scr & SEND_EVENT_ON_PENDING == SEND_EVENT_ON_PENDING
    }

    /// The system-control word that this executor runs under.
    pub closed spec fn scr(self) -> u32 {
        self.scr
    }

    /// What `run` answers to a poll outcome.
    pub open spec fn run_spec<T, E>(self, polled: Result<Async<T>, E>) -> StepView<T, E> {
        match polled {
            Ok(Async::Pending) => StepView::Suspend { executor: self, ops: wake_cycle_spec() },
            Ok(Async::Ready(value)) => StepView::Done(Ok(value)),
            Err(error) => StepView::Done(Err(error)),
        }
    }

    /// What `run_stable` answers to a poll outcome of a task that is held at
    /// a fixed address.
    pub open spec fn run_stable_spec<T, E>(self, polled: Result<Async<T>, E>) -> StepView<T, E> {
        match polled {
            Err(error) => StepView::Done(Err(error)),
            Ok(state) => match state {
                Async::Ready(value) => StepView::Done(Ok(value)),
                Async::Pending => StepView::Suspend { executor: self, ops: wake_cycle_spec() },
            },
        }
    }

    /// Configures the hardware for running a task: takes the system-control
    /// word as it is and keeps it with send-event-on-pending switched on.
    /// The word to write back is `system_control()`.
    pub fn new(scr: u32) -> (executor: Executor)
        ensures
            executor.scr() == scr | SEND_EVENT_ON_PENDING,
            bit(executor.scr(), SEND_EVENT_ON_PENDING_BIT),
            forall|index: u32|
                index < 32 && index != SEND_EVENT_ON_PENDING_BIT ==> bit(executor.scr(), index)
                    == bit(scr, index),
    {
        let word: u32 = with_send_event_on_pending(scr);
        assert(word & SEND_EVENT_ON_PENDING == SEND_EVENT_ON_PENDING) by (bit_vector)
            requires
                word == scr | SEND_EVENT_ON_PENDING,
        ;
        Executor { scr: word }
    }

    /// The system-control word that the hardware must hold while this
    /// executor runs a task.
    pub fn system_control(&self) -> (word: u32)
        ensures
            word == self.scr(),
            word & SEND_EVENT_ON_PENDING == SEND_EVENT_ON_PENDING,
    {
        proof {
            use_type_invariant(self);
        }
        self.scr
    }

    /// Decides what follows a poll of a task that may be moved between polls.
    ///
    /// A finished task ends the run with its value or its error, as the task
    /// gave it and without touching the hardware. A pending task suspends the
    /// run for one wake cycle.
    pub fn run<T, E>(self, polled: Result<Async<T>, E>) -> (step: Step<T, E>)
        ensures
            step@ == self.run_spec(polled),
    {
        match polled {
            Ok(Async::Pending) => {},
            Ok(Async::Ready(value)) => {
                return Step::Done(Ok(value));
            },
            Err(error) => {
                return Step::Done(Err(error));
            },
        }
        let ops: [HwOp; WAKE_CYCLE_OPS] = wake_cycle();
        Step::Suspend { executor: self, ops }
    }

    /// Decides what follows a poll of a task that stays at one address for
    /// the whole run. The decision is that of `run`.
    pub fn run_stable<T, E>(self, polled: Result<Async<T>, E>) -> (step: Step<T, E>)
        ensures
            step@ == self.run_stable_spec(polled),
    {
        match polled {
            Ok(Async::Pending) => {},
            Ok(Async::Ready(value)) => {
                return Step::Done(Ok(value));
            },
            Err(error) => {
                return Step::Done(Err(error));
            },
        }
        let ops: [HwOp; WAKE_CYCLE_OPS] = wake_cycle();
        Step::Suspend { executor: self, ops }
    }
}

} // verus!
