//! The wake handle that tasks are given.
//!
//! A task that cannot finish asks, through its wake handle, to be polled
//! again. This runner never learns of readiness that way: it polls again when
//! the hardware releases the core from its halt, and at no other time. So the
//! handle is inert. It holds no state, and none of its operations has any
//! effect.

use vstd::prelude::*;

verus! {

/// The inert wake handle. It has no fields, so every handle is the same
/// value and none owns anything.
#[derive(Debug, PartialEq, Eq)]
pub struct WFEWaker;

impl WFEWaker {
    /// Another handle, equal to this one. Nothing is copied or counted.
    pub fn clone_raw(&self) -> (handle: WFEWaker)
        ensures
            handle == *self,
    {
        WFEWaker
    }

    /// Gives the handle up. There is nothing to free.
    pub fn drop_raw(&self) {
    }

    /// Asks for the task to be polled again. Does nothing: the request
    /// reaches no executor and changes no schedule.
    pub fn wake(&self) {
    }
}

} // verus!
