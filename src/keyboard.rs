//! The keyboard decoder and the queue of cell selections it feeds.

use vstd::prelude::*;
use pc_keyboard::layouts::Us104Key;
use pc_keyboard::{HandleControl, KeyCode, KeyState, PS2Keyboard, ScancodeSet1};
use crate::game::Play;

verus! {

/// A decoded key transition, as far as this runtime reads it: the digit of a
/// digit key 1 to 9 (none for any other key) and whether it went down.
#[derive(Clone, Copy, PartialEq, Eq, Structural, Debug)]
pub struct KeyInput {
    pub digit: Option<u8>,
    pub down: bool,
}

/// pc_keyboard's PS2Keyboard for scancode set 1 and the US 104-key layout,
/// held as an opaque value.
#[verifier::external_body]
struct ScancodeMachine {
    keyboard: PS2Keyboard<Us104Key, ScancodeSet1>,
}

/// The scancode decoder. `pending` records whether an extended prefix
/// (0xE0 or 0xE1) waits for the byte that completes it.
pub struct KeyboardDecoder {
    machine: ScancodeMachine,
    pending: Ghost<bool>,
}

/// Whether a prefix waits after `byte` is fed to a decoder whose prefix
/// state was `pending`: a prefix byte on an idle decoder starts one, and any
/// byte after a prefix completes it.
pub open spec fn next_pending(pending: bool, byte: u8) -> bool {
    !pending && (byte == 0xe0 || byte == 0xe1)
}

/// What feeding `byte` to a decoder with prefix state `pending` yields, as
/// far as digit keys go: on an idle decoder, byte `d + 1` is digit key `d`
/// going down and byte `d + 0x81` is it going up, and a prefix byte yields
/// nothing; no event that completes a prefix is a digit key, and no other
/// byte gives a digit key.
pub open spec fn decodes_to(pending: bool, byte: u8, r: Option<KeyInput>) -> bool {
    &&& !pending && 0x02 <= byte <= 0x0a ==> r == Some(
        KeyInput { digit: Some((byte - 1) as u8), down: true },
    )
    &&& !pending && 0x82 <= byte <= 0x8a ==> r == Some(
        KeyInput { digit: Some((byte - 0x81) as u8), down: false },
    )
    &&& !pending && (byte == 0xe0 || byte == 0xe1) ==> r is None
    &&& r matches Some(k) ==> (k.digit matches Some(d) ==> !pending && digit_code(d, k.down, byte))
}

/// Relies on pc_keyboard::PS2Keyboard::new: a decoder for scancode set 1
/// and the US 104-key layout, with the Ctrl keys passed through as keys,
/// in its idle state (no prefix waiting).
#[verifier::external_body]
fn new_ps2_keyboard() -> (r: ScancodeMachine) {
    ScancodeMachine { keyboard: PS2Keyboard::new(ScancodeSet1::new(), Us104Key, HandleControl::Ignore) }
}

/// Relies on pc_keyboard::PS2Keyboard::add_byte, which runs scancode set 1's
/// advance_state: on an idle decoder 0xE0 and 0xE1 start a prefix and yield
/// nothing, and any other byte is a one-byte make code (below 0x80) or break
/// code (its make code plus 0x80); the byte after a prefix is looked up in
/// the extended tables and the decoder is idle again. Digit keys 1 to 9
/// have the one-byte make codes 0x02 to 0x0A; no extended code names one.
#[verifier::external_body]
fn ps2_add_byte(decoder: &mut KeyboardDecoder, byte: u8) -> (r: Option<KeyInput>)
    ensures
        final(decoder).pending() == next_pending(old(decoder).pending(), byte),
        decodes_to(old(decoder).pending(), byte, r),
{
    match decoder.machine.keyboard.add_byte(byte) {
        Ok(Some(ev)) => Some(KeyInput {
            digit: match ev.code {
                KeyCode::Key1 => Some(1), KeyCode::Key2 => Some(2), KeyCode::Key3 => Some(3),
                KeyCode::Key4 => Some(4), KeyCode::Key5 => Some(5), KeyCode::Key6 => Some(6),
                KeyCode::Key7 => Some(7), KeyCode::Key8 => Some(8), KeyCode::Key9 => Some(9),
                _ => None,
            },
            down: ev.state == KeyState::Down,
        }),
        _ => None,
    }
}

/// Byte `byte` is the scancode set 1 code of digit key `d` (1 to 9) going
/// down, or else going up.
pub open spec fn digit_code(d: u8, down: bool, byte: u8) -> bool {
    &&& 1 <= d <= 9
    &&& down ==> byte == d + 1
    &&& !down ==> byte == d + 0x81
}

/// The cell that a key event selects: a digit key 1 to 9 going down.
pub open spec fn selection(key: Option<KeyInput>) -> Option<Play> {
    match key {
        Some(k) => match k.digit {
            Some(d) => if k.down && 1 <= d <= 9 {
                Some(play_of(d))
            } else {
                None
            },
            None => None,
        },
        None => None,
    }
}

pub open spec fn play_of(d: u8) -> Play {
    if d == 1 { Play::One }
    else if d == 2 { Play::Two }
    else if d == 3 { Play::Three }
    else if d == 4 { Play::Four }
    else if d == 5 { Play::Five }
    else if d == 6 { Play::Six }
    else if d == 7 { Play::Seven }
    else if d == 8 { Play::Eight }
    else { Play::Nine }
}

/// The cell selected by a decoded key event, if any.
pub fn play_for_key(key: Option<KeyInput>) -> (r: Option<Play>)
    ensures
        r == selection(key),
{
    match key {
        Some(k) => {
            if !k.down {
                return None;
            }
            match k.digit {
                Some(d) => {
                    let p = Play::from_digit(d);
                    proof {
                        if 1 <= d <= 9 {
                            assert(p == Some(play_of(d)));
                        }
                    }
                    p
                },
                None => None,
            }
        },
        None => None,
    }
}

/// The queue's contents after `play` is pushed: it joins the tail.
pub open spec fn pushed(contents: Seq<Play>, play: Play) -> Seq<Play> {
    contents.push(play)
}

/// A drain: what it hands out (everything, in order of arrival) and what it
/// leaves (nothing).
pub open spec fn drained(contents: Seq<Play>) -> (Seq<Play>, Seq<Play>) {
    (contents, Seq::empty())
}

/// The contents after each of `plays` is pushed in turn.
pub open spec fn pushed_all(contents: Seq<Play>, plays: Seq<Play>) -> Seq<Play>
    decreases plays.len(),
{
    if plays.len() == 0 {
        contents
    } else {
        pushed(pushed_all(contents, plays.drop_last()), plays.last())
    }
}

/// The ordered cell selections waiting for the game loop.
pub struct EventQueue {
    events: Vec<Play>,
}

impl View for EventQueue {
    type V = Seq<Play>;

    closed spec fn view(&self) -> Seq<Play> {
        self.events@
    }
}

impl EventQueue {
    pub fn new() -> (r: Self)
        ensures
            r@ == Seq::<Play>::empty(),
    {
        EventQueue { events: Vec::new() }
    }

    /// Appends an event at the tail.
    pub fn push(&mut self, play: Play)
        ensures
            final(self)@ == pushed(old(self)@, play),
    {
        self.events.push(play);
    }

    /// Takes every waiting event, in order of arrival, leaving the queue empty.
    pub fn drain_all(&mut self) -> (r: Vec<Play>)
        ensures
            (r@, final(self)@) == drained(old(self)@),
    {
        let mut taken: Vec<Play> = Vec::new();
        std::mem::swap(&mut taken, &mut self.events);
        taken
    }

    pub fn is_empty(&self) -> (r: bool)
        ensures
            r <==> self@.len() == 0,
    {
        self.events.len() == 0
    }

    pub fn len(&self) -> (r: usize)
        ensures
            r == self@.len(),
    {
        self.events.len()
    }
}

/// Appends the cell that a decoded key event selects, if any.
pub fn queue_key(queue: &mut EventQueue, key: Option<KeyInput>)
    ensures
        final(queue)@ == match selection(key) {
            Some(p) => old(queue)@.push(p),
            None => old(queue)@,
        },
{
    if let Some(play) = play_for_key(key) {
        queue.push(play);
    }
}

impl KeyboardDecoder {
    /// Whether an extended prefix waits for the byte that completes it.
    pub closed spec fn pending(&self) -> bool {
        self.pending@
    }

    /// An idle decoder.
    pub fn new() -> (r: Self)
        ensures
            !r.pending(),
    {
        KeyboardDecoder { machine: new_ps2_keyboard(), pending: Ghost(false) }
    }

    /// Feeds one raw byte and returns the key event it completes, if any.
    /// Malformed or unknown sequences are dropped, and the decoder is idle
    /// again after at most one more byte.
    pub fn on_scancode_byte(&mut self, byte: u8) -> (r: Option<KeyInput>)
        ensures
            final(self).pending() == next_pending(old(self).pending(), byte),
            decodes_to(old(self).pending(), byte, r),
    {
        ps2_add_byte(self, byte)
    }
}

/// The work of the keyboard interrupt: decode the byte and, when it is the
/// make code of digit key `d` (1 to 9) on an idle decoder, append cell `d`
/// to the queue. Every other byte leaves the queue as it was. Each make
/// code counts, so a key held down and repeated queues its cell each time.
pub fn handle_keyboard_interrupt(decoder: &mut KeyboardDecoder, queue: &mut EventQueue, scancode: u8)
    ensures
        final(decoder).pending() == next_pending(old(decoder).pending(), scancode),
        !old(decoder).pending() && 0x02 <= scancode <= 0x0a ==> final(queue)@ == old(queue)@.push(
            play_of((scancode - 1) as u8),
        ),
        !(!old(decoder).pending() && 0x02 <= scancode <= 0x0a) ==> final(queue)@ == old(queue)@,
{
    let key = decoder.on_scancode_byte(scancode);
    queue_key(queue, key);
}

/// Events pushed after a drain come out of the next drain in the order
/// they were pushed, and that drain leaves the queue empty.
pub proof fn lemma_pushes_then_drain(plays: Seq<Play>)
    ensures
        drained(pushed_all(drained(Seq::empty()).1, plays)).0 == plays,
        drained(pushed_all(drained(Seq::empty()).1, plays)).1 == Seq::<Play>::empty(),
    decreases plays.len(),
{
    if plays.len() > 0 {
        lemma_pushes_then_drain(plays.drop_last());
        assert(plays.drop_last().push(plays.last()) =~= plays);
    }
}

/// A push that races with a drain lands on one side of it: either the drain
/// takes it, or it waits for the next drain. Either way the two drains
/// together hand out the earlier contents and then the pushed event, so the
/// event is handed out exactly once.
pub proof fn lemma_push_during_drain(contents: Seq<Play>, play: Play)
    ensures
        ({
            let first = drained(pushed(contents, play));
            let second = drained(first.1);
            first.0 + second.0 == contents.push(play)
        }),
        ({
            let first = drained(contents);
            let second = drained(pushed(first.1, play));
            first.0 + second.0 == contents.push(play)
        }),
        ({
            let first = drained(pushed(contents, play));
            let second = drained(first.1);
            (first.0 + second.0).to_multiset().count(play) == contents.to_multiset().count(play) + 1
        }),
        ({
            let first = drained(contents);
            let second = drained(pushed(first.1, play));
            (first.0 + second.0).to_multiset().count(play) == contents.to_multiset().count(play) + 1
        }),
{
    assert(contents.push(play) + Seq::<Play>::empty() =~= contents.push(play));
    assert(contents + Seq::<Play>::empty().push(play) =~= contents.push(play));
    contents.to_multiset_ensures();
}

} // verus!
