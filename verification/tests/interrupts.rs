use rust_os::interrupts::InterruptIndex;
use rust_os::interrupts::PIC_1_OFFSET;
use rust_os::interrupts::PIC_2_OFFSET;

#[test]
fn the_controllers_follow_the_cpu_exceptions() {
    assert_eq!(PIC_1_OFFSET, 32);
    assert_eq!(PIC_2_OFFSET, 40);
}

#[test]
fn the_timer_is_the_first_line_and_the_keyboard_the_second() {
    assert_eq!(InterruptIndex::Timer.as_u8(), 32);
    assert_eq!(InterruptIndex::Keyboard.as_u8(), 33);
    assert_eq!(InterruptIndex::Timer.as_usize(), 32);
    assert_eq!(InterruptIndex::Keyboard.as_usize(), 33);
}

#[test]
fn an_interrupt_index_converts_to_its_number() {
    assert_eq!(u8::from(InterruptIndex::Timer), 32);
    assert_eq!(u8::from(InterruptIndex::Keyboard), 33);
    assert_eq!(usize::from(InterruptIndex::Timer), 32);
    let keyboard: usize = InterruptIndex::Keyboard.into();
    assert_eq!(keyboard, 33);
}
