//! The operations on the hardware that the runner asks for.

use vstd::prelude::*;
use crate::registers::{CLEAR_ALL, CLEAR_PENDING_BANKS};

verus! {

/// One operation on the hardware.
#[derive(Clone, Copy, Debug, PartialEq, Eq)]
pub enum HwOp {
    /// Halt the core until the next hardware event.
    WaitForEvent,
    /// Write `mask` to clear-pending register number `bank` of the interrupt
    /// controller. A set bit clears the pending flag of one interrupt line.
    ClearPending { bank: usize, mask: u32 },
}

/// Number of operations in one wake cycle: the halt, and one write for each
/// bank.
pub const WAKE_CYCLE_OPS: usize = CLEAR_PENDING_BANKS + 1;

/// The writes that clear every pending flag of the first `banks` banks, in
/// rising order of bank.
pub open spec fn clear_pending_writes(banks: nat) -> Seq<HwOp> {
    Seq::new(banks, |bank: int| HwOp::ClearPending { bank: bank as usize, mask: CLEAR_ALL })
}

/// What happens between a poll that found the task pending and the next
/// poll: the core halts until an event arrives, and only then every bank of
/// pending flags is cleared.
pub open spec fn wake_cycle_spec() -> Seq<HwOp> {
    seq![HwOp::WaitForEvent] + clear_pending_writes(CLEAR_PENDING_BANKS as nat)
}

/// The operations of one wake cycle, in the order in which they are due.
///
/// All flags are cleared, whichever interrupt fired: this is only right where
/// the application reaches its peripherals by polling alone and runs no
/// interrupt handler of its own.
pub fn wake_cycle() -> (ops: [HwOp; WAKE_CYCLE_OPS])
    ensures
        ops@ == wake_cycle_spec(),
{
    let mut ops: [HwOp; WAKE_CYCLE_OPS] = [HwOp::WaitForEvent; WAKE_CYCLE_OPS];
    for bank in 0..CLEAR_PENDING_BANKS
        invariant
            ops@.len() == WAKE_CYCLE_OPS,
            ops@[0] == HwOp::WaitForEvent,
            forall|at: int|
                1 <= at <= bank ==> #[trigger] ops@[at] == (HwOp::ClearPending {
                    bank: (at - 1) as usize,
                    mask: CLEAR_ALL,
                }),
    {
        ops[bank + 1] = HwOp::ClearPending { bank, mask: CLEAR_ALL };
    }
    assert(ops@ =~= wake_cycle_spec());
    ops
}

} // verus!
