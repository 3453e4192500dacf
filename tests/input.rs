use tictactoe_kernel::game::Play;
use tictactoe_kernel::keyboard::{
    handle_keyboard_interrupt, play_for_key, queue_key, EventQueue, KeyInput, KeyboardDecoder,
};

#[test]
fn drain_returns_pushes_in_order() {
    let mut queue = EventQueue::new();
    assert!(queue.is_empty());
    queue.push(Play::Three);
    queue.push(Play::One);
    queue.push(Play::Nine);
    assert!(!queue.is_empty());
    assert_eq!(queue.drain_all(), vec![Play::Three, Play::One, Play::Nine]);
    assert!(queue.is_empty());
    assert_eq!(queue.drain_all(), Vec::<Play>::new());
}

#[test]
fn push_around_a_drain_is_seen_once() {
    let mut before = EventQueue::new();
    before.push(Play::One);
    before.push(Play::Two);
    let first = before.drain_all();
    before.push(Play::Three);
    let second = before.drain_all();
    assert_eq!(first, vec![Play::One, Play::Two]);
    assert_eq!(second, vec![Play::Three]);

    let mut after = EventQueue::new();
    after.push(Play::One);
    after.push(Play::Two);
    after.push(Play::Three);
    let first = after.drain_all();
    let second = after.drain_all();
    assert_eq!(first, vec![Play::One, Play::Two, Play::Three]);
    assert!(second.is_empty());
}

#[test]
fn key_five_down_selects_cell_five() {
    let mut decoder = KeyboardDecoder::new();
    let mut queue = EventQueue::new();
    handle_keyboard_interrupt(&mut decoder, &mut queue, 0x06);
    assert_eq!(queue.drain_all(), vec![Play::Five]);
}

#[test]
fn key_release_selects_nothing() {
    let mut decoder = KeyboardDecoder::new();
    let mut queue = EventQueue::new();
    handle_keyboard_interrupt(&mut decoder, &mut queue, 0x86);
    assert!(queue.is_empty());
}

#[test]
fn unknown_code_is_dropped_and_decoding_goes_on() {
    let mut decoder = KeyboardDecoder::new();
    let mut queue = EventQueue::new();
    handle_keyboard_interrupt(&mut decoder, &mut queue, 0x55);
    assert!(queue.is_empty());
    handle_keyboard_interrupt(&mut decoder, &mut queue, 0x06);
    assert_eq!(queue.drain_all(), vec![Play::Five]);
}

#[test]
fn extended_sequence_selects_nothing_and_decoding_goes_on() {
    let mut decoder = KeyboardDecoder::new();
    let mut queue = EventQueue::new();
    handle_keyboard_interrupt(&mut decoder, &mut queue, 0xe0);
    assert!(queue.is_empty());
    handle_keyboard_interrupt(&mut decoder, &mut queue, 0x48);
    assert!(queue.is_empty());
    handle_keyboard_interrupt(&mut decoder, &mut queue, 0x06);
    assert_eq!(queue.drain_all(), vec![Play::Five]);
}

#[test]
fn letters_and_zero_select_nothing() {
    let mut decoder = KeyboardDecoder::new();
    let mut queue = EventQueue::new();
    for byte in [0x1e, 0x0b, 0x39] {
        handle_keyboard_interrupt(&mut decoder, &mut queue, byte);
    }
    assert!(queue.is_empty());
}

#[test]
fn each_digit_key_down_selects_its_cell() {
    let mut decoder = KeyboardDecoder::new();
    let mut queue = EventQueue::new();
    for byte in 0x02..=0x0au8 {
        handle_keyboard_interrupt(&mut decoder, &mut queue, byte);
    }
    let all = vec![
        Play::One, Play::Two, Play::Three, Play::Four, Play::Five, Play::Six, Play::Seven,
        Play::Eight, Play::Nine,
    ];
    assert_eq!(queue.drain_all(), all);
}

#[test]
fn repeated_down_queues_one_event_each() {
    let mut decoder = KeyboardDecoder::new();
    let mut queue = EventQueue::new();
    handle_keyboard_interrupt(&mut decoder, &mut queue, 0x06);
    handle_keyboard_interrupt(&mut decoder, &mut queue, 0x06);
    assert_eq!(queue.drain_all(), vec![Play::Five, Play::Five]);
}

#[test]
fn decoder_reports_digit_and_direction() {
    let mut decoder = KeyboardDecoder::new();
    assert_eq!(decoder.on_scancode_byte(0x03), Some(KeyInput { digit: Some(2), down: true }));
    assert_eq!(decoder.on_scancode_byte(0x83), Some(KeyInput { digit: Some(2), down: false }));
    assert_eq!(decoder.on_scancode_byte(0x1e), Some(KeyInput { digit: None, down: true }));
}

#[test]
fn key_events_map_to_cells() {
    assert_eq!(play_for_key(Some(KeyInput { digit: Some(4), down: true })), Some(Play::Four));
    assert_eq!(play_for_key(Some(KeyInput { digit: Some(4), down: false })), None);
    assert_eq!(play_for_key(Some(KeyInput { digit: None, down: true })), None);
    assert_eq!(play_for_key(None), None);
    let mut queue = EventQueue::new();
    queue_key(&mut queue, Some(KeyInput { digit: Some(8), down: true }));
    queue_key(&mut queue, None);
    assert_eq!(queue.len(), 1);
    assert_eq!(queue.drain_all(), vec![Play::Eight]);
}

#[test]
fn unknown_extended_code_is_dropped_then_key_five_decodes() {
    let mut decoder = KeyboardDecoder::new();
    let mut queue = EventQueue::new();
    handle_keyboard_interrupt(&mut decoder, &mut queue, 0xe0);
    handle_keyboard_interrupt(&mut decoder, &mut queue, 0x06);
    assert!(queue.is_empty());
    handle_keyboard_interrupt(&mut decoder, &mut queue, 0x06);
    assert_eq!(queue.drain_all(), vec![Play::Five]);
}

#[test]
fn keys_one_two_three_queue_in_order() {
    let mut decoder = KeyboardDecoder::new();
    let mut queue = EventQueue::new();
    queue.push(Play::Nine);
    for byte in [0x02, 0x03, 0x04] {
        handle_keyboard_interrupt(&mut decoder, &mut queue, byte);
    }
    assert_eq!(queue.drain_all(), vec![Play::Nine, Play::One, Play::Two, Play::Three]);
}
