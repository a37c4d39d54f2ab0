use rust_os::interrupts::{
    install, Handler, InterruptIndex, BREAKPOINT_VECTOR, DOUBLE_FAULT_IST_INDEX,
    DOUBLE_FAULT_VECTOR, PAGE_FAULT_VECTOR, PIC_1_OFFSET, PIC_2_OFFSET,
};
use rust_os::QemuExitCode;

#[test]
fn hardware_interrupts_start_above_the_exception_vectors() {
    assert_eq!(PIC_1_OFFSET, 32);
    assert_eq!(PIC_2_OFFSET, 40);
}

#[test]
fn timer_and_keyboard_occupy_the_first_two_vectors() {
    assert_eq!(InterruptIndex::Timer.as_u8(), 32);
    assert_eq!(InterruptIndex::Keyboard.as_u8(), 33);
    assert_eq!(InterruptIndex::Timer.as_usize(), 32);
    assert_eq!(InterruptIndex::Keyboard.as_usize(), 33);
}

#[test]
fn debug_exit_codes_are_distinct_from_ordinary_statuses() {
    assert_eq!(QemuExitCode::Success.code(), 0x10);
    assert_eq!(QemuExitCode::Failed.code(), 0x11);
}

#[test]
fn dispatch_table_routes_the_five_handled_vectors() {
    let t = install();
    assert_eq!(t.dispatch(BREAKPOINT_VECTOR), Handler::Breakpoint);
    assert_eq!(t.dispatch(DOUBLE_FAULT_VECTOR), Handler::DoubleFault);
    assert_eq!(t.dispatch(PAGE_FAULT_VECTOR), Handler::PageFault);
    assert_eq!(t.dispatch(32), Handler::Timer);
    assert_eq!(t.dispatch(33), Handler::Keyboard);
}

#[test]
fn unset_vectors_trap_to_the_default_handler() {
    let t = install();
    for v in 0u16..=255 {
        let v = v as u8;
        if ![3u8, 8, 14, 32, 33].contains(&v) {
            assert_eq!(t.dispatch(v), Handler::Default);
        }
    }
}

#[test]
fn only_the_double_fault_uses_the_dedicated_stack() {
    let t = install();
    assert_eq!(t.dedicated_stack_index(DOUBLE_FAULT_VECTOR), Some(DOUBLE_FAULT_IST_INDEX));
    assert_eq!(t.dedicated_stack_index(BREAKPOINT_VECTOR), None);
    assert_eq!(t.dedicated_stack_index(32), None);
}
