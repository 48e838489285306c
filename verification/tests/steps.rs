use wfe_executor::executor::{Executor, Step};
use wfe_executor::hardware::{wake_cycle, HwOp, WAKE_CYCLE_OPS};
use wfe_executor::poll::Async;
use wfe_executor::registers::{
    with_send_event_on_pending, CLEAR_ALL, CLEAR_PENDING_BANKS, SEND_EVENT_ON_PENDING,
    SEND_EVENT_ON_PENDING_BIT,
};
use wfe_executor::waker::WFEWaker;

#[derive(Debug, PartialEq)]
enum Fault {
    Bus,
    Timeout(u8),
}

fn expected_cycle() -> Vec<HwOp> {
    let mut ops = vec![HwOp::WaitForEvent];
    for bank in 0..16usize {
        ops.push(HwOp::ClearPending { bank, mask: 0xFFFF_FFFF });
    }
    ops
}

#[test]
fn constants_match_the_register_layout() {
    assert_eq!(SEND_EVENT_ON_PENDING_BIT, 4);
    assert_eq!(SEND_EVENT_ON_PENDING, 1u32 << SEND_EVENT_ON_PENDING_BIT);
    assert_eq!(SEND_EVENT_ON_PENDING, 0b0001_0000);
    assert_eq!(CLEAR_PENDING_BANKS, 16);
    assert_eq!(CLEAR_ALL, u32::MAX);
    assert_eq!(WAKE_CYCLE_OPS, 17);
}

#[test]
fn send_event_bit_is_set_in_an_empty_word() {
    assert_eq!(with_send_event_on_pending(0), 0x10);
}

#[test]
fn send_event_bit_leaves_other_bits_alone() {
    assert_eq!(with_send_event_on_pending(0x0000_0006), 0x0000_0016);
    assert_eq!(with_send_event_on_pending(0xFFFF_FFEF), 0xFFFF_FFFF);
    assert_eq!(with_send_event_on_pending(0x8000_0001), 0x8000_0011);
    for index in 0..32u32 {
        let word = 1u32 << index;
        let configured = with_send_event_on_pending(word);
        for other in 0..32u32 {
            let was = (word >> other) & 1;
            let is = (configured >> other) & 1;
            if other == 4 {
                assert_eq!(is, 1);
            } else {
                assert_eq!(is, was);
            }
        }
    }
}

#[test]
fn send_event_bit_stays_set() {
    assert_eq!(with_send_event_on_pending(0x10), 0x10);
    assert_eq!(with_send_event_on_pending(u32::MAX), u32::MAX);
    let once = with_send_event_on_pending(0x0000_0102);
    assert_eq!(with_send_event_on_pending(once), once);
}

#[test]
fn new_executor_holds_the_configured_word() {
    assert_eq!(Executor::new(0).system_control(), 0x10);
    assert_eq!(Executor::new(0x6).system_control(), 0x16);
    assert_eq!(Executor::new(0x10).system_control(), 0x10);
    assert_eq!(Executor::new(0xFFFF_FFEF).system_control(), 0xFFFF_FFFF);
    assert_ne!(Executor::new(0x6).system_control(), 0x6);
}

#[test]
fn wake_cycle_waits_then_clears_sixteen_banks() {
    let ops = wake_cycle();
    assert_eq!(ops.len(), 17);
    assert_eq!(ops[0], HwOp::WaitForEvent);
    for bank in 0..16usize {
        assert_eq!(ops[bank + 1], HwOp::ClearPending { bank, mask: u32::MAX });
    }
    assert_eq!(ops.to_vec(), expected_cycle());
}

#[test]
fn run_ends_with_the_value_of_a_ready_task() {
    let step: Step<u32, Fault> = Executor::new(0).run(Ok(Async::Ready(42)));
    match step {
        Step::Done(result) => assert_eq!(result, Ok(42)),
        Step::Suspend { .. } => panic!("a finished task must end the run"),
    }
}

#[test]
fn run_ends_with_the_error_of_a_failed_task() {
    let step: Step<u32, Fault> = Executor::new(0).run(Err(Fault::Timeout(3)));
    match step {
        Step::Done(result) => assert_eq!(result, Err(Fault::Timeout(3))),
        Step::Suspend { .. } => panic!("a failed task must end the run"),
    }
}

#[test]
fn run_suspends_a_pending_task_for_one_wake_cycle() {
    let step: Step<u32, Fault> = Executor::new(0x6).run(Ok(Async::Pending));
    match step {
        Step::Suspend { executor, ops } => {
            assert_eq!(executor.system_control(), 0x16);
            assert_eq!(ops.to_vec(), expected_cycle());
        }
        Step::Done(_) => panic!("a pending task must not end the run"),
    }
}

#[test]
fn run_stable_ends_with_the_value_of_a_ready_task() {
    let step: Step<u32, Fault> = Executor::new(0).run_stable(Ok(Async::Ready(42)));
    match step {
        Step::Done(result) => assert_eq!(result, Ok(42)),
        Step::Suspend { .. } => panic!("a finished task must end the run"),
    }
}

#[test]
fn run_stable_ends_with_the_error_of_a_failed_task() {
    let step: Step<u32, Fault> = Executor::new(0).run_stable(Err(Fault::Bus));
    match step {
        Step::Done(result) => assert_eq!(result, Err(Fault::Bus)),
        Step::Suspend { .. } => panic!("a failed task must end the run"),
    }
}

#[test]
fn run_stable_waits_before_it_clears() {
    let step: Step<u32, Fault> = Executor::new(0x6).run_stable(Ok(Async::Pending));
    match step {
        Step::Suspend { executor, ops } => {
            assert_eq!(executor.system_control(), 0x16);
            assert_eq!(ops[0], HwOp::WaitForEvent);
            assert_eq!(ops[16], HwOp::ClearPending { bank: 15, mask: u32::MAX });
            assert_eq!(ops.to_vec(), expected_cycle());
        }
        Step::Done(_) => panic!("a pending task must not end the run"),
    }
}

#[test]
fn async_values_compare_by_what_they_hold() {
    let ready: Async<u32> = Async::Ready(7);
    let pending: Async<u32> = Async::Pending;
    assert_eq!(ready, Async::Ready(7));
    assert_ne!(ready, Async::Ready(8));
    assert_ne!(ready, pending);
    assert_eq!(pending, Async::Pending);
}

#[test]
fn wake_handle_operations_have_no_effect() {
    let handle = WFEWaker;
    let copy = handle.clone_raw();
    assert_eq!(copy, handle);
    copy.wake();
    copy.drop_raw();
    handle.wake();
    assert_eq!(handle, WFEWaker);
}
