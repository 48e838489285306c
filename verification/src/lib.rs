//! The deciding core of a wait-for-event task runner for single-core
//! microcontrollers.
//!
//! The runner drives one task to completion. Whenever the task is not yet
//! done the core is halted until the next hardware event, every pending
//! interrupt flag is cleared, and the task is polled again. This crate holds
//! the decisions of that loop as plain values, so that they can be proved:
//! which register word configures the hardware, what follows each poll
//! outcome, and in which order the hardware is touched. The code that owns
//! the registers performs what these functions hand back.

pub mod executor;
pub mod hardware;
pub mod poll;
pub mod registers;
pub mod schedule;
pub mod waker;
