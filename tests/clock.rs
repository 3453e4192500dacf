use tictactoe_kernel::interrupts::{
    divisor_bytes, get_ticks, sleep, ticks_for, timer_divisor, InterruptIndex, TickClock,
    PIC_1_OFFSET, PIC_2_OFFSET,
};

#[test]
fn ticks_count_each_interrupt() {
    let mut clock = TickClock::new();
    assert_eq!(get_ticks(&clock), 0);
    let mut last = 0;
    for n in 1..=250u64 {
        clock.on_timer_interrupt();
        let now = get_ticks(&clock);
        assert_eq!(now, n);
        assert!(now >= last);
        last = now;
    }
}

#[test]
fn sleep_waits_for_the_rounded_up_ticks() {
    let mut clock = TickClock::new();
    for _ in 0..5 {
        clock.on_timer_interrupt();
    }
    let wait = sleep(&clock, 3000);
    assert!(!wait.is_done(5));
    assert!(!wait.is_done(7));
    assert!(wait.is_done(8));
    assert!(wait.is_done(100));
    assert!(!wait.is_done(2));
}

#[test]
fn half_a_millisecond_rounds_up_to_one_tick() {
    let mut clock = TickClock::new();
    clock.on_timer_interrupt();
    let wait = sleep(&clock, 500);
    assert!(!wait.is_done(1));
    assert!(wait.is_done(2));
}

#[test]
fn zero_sleep_is_done_at_once() {
    let clock = TickClock::new();
    let wait = sleep(&clock, 0);
    assert!(wait.is_done(0));
}

#[test]
fn ticks_for_durations() {
    assert_eq!(ticks_for(0), 0);
    assert_eq!(ticks_for(1), 1);
    assert_eq!(ticks_for(999), 1);
    assert_eq!(ticks_for(1000), 1);
    assert_eq!(ticks_for(1001), 2);
    assert_eq!(ticks_for(500_000), 500);
    assert_eq!(ticks_for(u64::MAX), 18_446_744_073_709_552);
}

#[test]
fn timer_programming_values() {
    assert_eq!(timer_divisor(1000), 1193);
    assert_eq!(timer_divisor(1), 1193180);
    assert_eq!(divisor_bytes(1193), (0xa9, 0x04));
    assert_eq!(divisor_bytes(0x1_2345), (0x45, 0x23));
}

#[test]
fn interrupt_vectors_follow_the_reserved_ones() {
    assert_eq!(PIC_1_OFFSET, 32);
    assert_eq!(PIC_2_OFFSET, 40);
    assert_eq!(InterruptIndex::Timer.as_u8(), 32);
    assert_eq!(InterruptIndex::Keyboard.as_u8(), 33);
}
