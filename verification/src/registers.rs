//! Register words of the system-control block and the interrupt controller.

use vstd::prelude::*;

verus! {

/// Position of the send-event-on-pending bit in the system-control register.
pub const SEND_EVENT_ON_PENDING_BIT: u32 = 4;

/// The send-event-on-pending bit as a mask. While it is set, an interrupt
/// line that becomes pending raises a wake-up event even when the line is
/// disabled, so a halted core is always released.
pub const SEND_EVENT_ON_PENDING: u32 = 0x10;

/// Number of clear-pending registers of the interrupt controller. Each covers
/// 32 interrupt lines.
pub const CLEAR_PENDING_BANKS: usize = 16;

/// The word that clears every pending flag of one bank.
pub const CLEAR_ALL: u32 = 0xFFFF_FFFF;

/// Whether bit `index` of `word` is set.
pub open spec fn bit(word: u32, index: u32) -> bool {
    (word >> index) & 1 == 1
}

/// The mask is the single bit at its position.
pub proof fn lemma_mask_is_single_bit()
    ensures
        SEND_EVENT_ON_PENDING == 1u32 << SEND_EVENT_ON_PENDING_BIT,
{
    assert(0x10u32 == 1u32 << 4u32) by (bit_vector);
}

/// Setting the send-event-on-pending mask sets that bit and leaves the other
/// 31 bits of the word as they were.
pub proof fn lemma_only_send_event_bit_changes(scr: u32)
    ensures
        bit(scr | SEND_EVENT_ON_PENDING, SEND_EVENT_ON_PENDING_BIT),
        forall|index: u32|
            index < 32 && index != SEND_EVENT_ON_PENDING_BIT ==> bit(
                scr | SEND_EVENT_ON_PENDING,
                index,
            ) == bit(scr, index),
{
    assert(((scr | 0x10u32) >> 4u32) & 1 == 1) by (bit_vector);
    assert forall|index: u32| index < 32 && index != SEND_EVENT_ON_PENDING_BIT implies bit(
        scr | SEND_EVENT_ON_PENDING,
        index,
    ) == bit(scr, index) by {
        assert(((scr | 0x10u32) >> index) & 1 == (scr >> index) & 1) by (bit_vector)
            requires
                index < 32,
                index != 4u32,
        ;
    }
}

/// The system-control word with send-event-on-pending switched on and every
/// other bit as it was.
pub fn with_send_event_on_pending(scr: u32) -> (word: u32)
    ensures
        word == scr | SEND_EVENT_ON_PENDING,
        bit(word, SEND_EVENT_ON_PENDING_BIT),
        forall|index: u32|
            index < 32 && index != SEND_EVENT_ON_PENDING_BIT ==> bit(word, index) == bit(
                scr,
                index,
            ),
{
    proof {
        lemma_only_send_event_bit_changes(scr);
    }
    scr | SEND_EVENT_ON_PENDING
}

} // verus!
