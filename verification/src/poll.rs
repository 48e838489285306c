//! What one poll of the task reports.

use vstd::prelude::*;

verus! {

/// Whether a value is there yet.
#[derive(Debug, PartialEq, Eq)]
pub enum Async<T> {
    /// The task has finished with this value.
    Ready(T),
    /// The task cannot finish yet and has to be polled again later.
    Pending,
}

/// The final result that a poll outcome carries: none while the task is
/// pending, its value or its error once it has finished.
pub open spec fn resolution<T, E>(polled: Result<Async<T>, E>) -> Option<Result<T, E>> {
    match polled {
        Ok(Async::Pending) => None,
        Ok(Async::Ready(value)) => Some(Ok(value)),
        Err(error) => Some(Err(error)),
    }
}

/// Whether a poll outcome says that the task has not finished.
pub open spec fn is_pending<T, E>(polled: Result<Async<T>, E>) -> bool {
    resolution(polled) is None
}

} // verus!
