//! Interrupt vector numbers, the timer's programming, the tick clock and the
//! decisions of the busy-wait `sleep`.

use vstd::prelude::*;

verus! {

/// Vector of the first hardware line on the primary controller, just past the
/// vectors that the CPU reserves for its faults.
pub const PIC_1_OFFSET: u8 = 32;
/// Vector of the first hardware line on the secondary controller.
pub const PIC_2_OFFSET: u8 = 40;

pub const TIMER_FREQUENCY_HZ: u64 = 1000;
pub const MS_PER_TICK: u64 = 1000 / TIMER_FREQUENCY_HZ;
/// One tick in microseconds, so that waits shorter than a millisecond round
/// up too.
pub const US_PER_TICK: u64 = MS_PER_TICK * 1000;

/// Input frequency of the programmable interval timer, in Hz.
pub const PIT_BASE_FREQUENCY: u32 = 1193180;

/// The hardware interrupts that this runtime handles, on the first two lines
/// of the primary controller.
#[derive(Clone, Copy, PartialEq, Eq, Structural, Debug)]
pub enum InterruptIndex {
    Timer,
    Keyboard,
}

impl InterruptIndex {
    pub open spec fn vector(self) -> u8 {
        match self {
            InterruptIndex::Timer => PIC_1_OFFSET,
            InterruptIndex::Keyboard => (PIC_1_OFFSET + 1) as u8,
        }
    }

    /// The interrupt vector number.
    pub fn as_u8(self) -> (r: u8)
        ensures
            r == self.vector(),
    {
        match self {
            InterruptIndex::Timer => PIC_1_OFFSET,
            InterruptIndex::Keyboard => PIC_1_OFFSET + 1,
        }
    }
}

/// The timer's reload divisor for a rate of `frequency_hz` interrupts per
/// second (integer division, so the true rate may differ slightly).
pub fn timer_divisor(frequency_hz: u16) -> (r: u32)
    requires
        frequency_hz > 0,
    ensures
        r == PIT_BASE_FREQUENCY / frequency_hz as u32,
{
    PIT_BASE_FREQUENCY / frequency_hz as u32
}

/// The two bytes sent to the timer's data port, low byte first.
pub fn divisor_bytes(divisor: u32) -> (r: (u8, u8))
    ensures
        r.0 == divisor % 256,
        r.1 == (divisor / 256) % 256,
{
    ((divisor % 256) as u8, ((divisor / 256) % 256) as u8)
}

/// The monotonic count of timer interrupts since boot.
pub struct TickClock {
    ticks: u64,
}

impl View for TickClock {
    type V = nat;

    closed spec fn view(&self) -> nat {
        self.ticks as nat
    }
}

/// `after` is the clock that one timer interrupt makes of `before`.
pub open spec fn timer_step(before: TickClock, after: TickClock) -> bool {
    after@ == before@ + 1
}

impl TickClock {
    pub fn new() -> (r: Self)
        ensures
            r@ == 0,
    {
        TickClock { ticks: 0 }
    }

    /// The work of the timer interrupt: one more tick.
    pub fn on_timer_interrupt(&mut self)
        requires
            old(self)@ < u64::MAX,
        ensures
            timer_step(*old(self), *final(self)),
    {
        self.ticks = self.ticks + 1;
    }
}

/// The current tick count.
pub fn get_ticks(clock: &TickClock) -> (r: u64)
    ensures
        r == clock@,
{
    clock.ticks
}

/// The number of whole ticks that cover `duration_us` microseconds:
/// `ceil(d_ms / ms_per_tick)` with `d_ms = duration_us / 1000`.
pub open spec fn ticks_needed(duration_us: nat) -> nat {
    ((duration_us + US_PER_TICK - 1) / (US_PER_TICK as int)) as nat
}

pub fn ticks_for(duration_us: u64) -> (r: u64)
    ensures
        r == ticks_needed(duration_us as nat),
{
    let whole = duration_us / US_PER_TICK;
    if duration_us % US_PER_TICK == 0 {
        whole
    } else {
        whole + 1
    }
}

/// A busy-wait in progress: when it began and how many ticks it lasts.
pub struct Sleep {
    start: u64,
    needed: u64,
}

impl Sleep {
    pub closed spec fn start(self) -> nat {
        self.start as nat
    }

    pub closed spec fn needed(self) -> nat {
        self.needed as nat
    }

    /// Whether the wait is over when the clock reads `now`: only once
    /// `now - start` covers the ticks needed.
    pub fn is_done(&self, now: u64) -> (r: bool)
        ensures
            r <==> now >= self.start() + self.needed(),
    {
        now >= self.start && now - self.start >= self.needed
    }
}

/// Begins a wait of `duration_us` microseconds on `clock`.
pub fn sleep(clock: &TickClock, duration_us: u64) -> (r: Sleep)
    ensures
        r.start() == clock@,
        r.needed() == ticks_needed(duration_us as nat),
{
    Sleep { start: get_ticks(clock), needed: ticks_for(duration_us) }
}

/// Over any run of timer interrupts, the count after the last is the count
/// before the first plus the number of interrupts, and it never decreases.
pub proof fn lemma_timer_run(run: Seq<TickClock>)
    requires
        run.len() >= 1,
        forall|i: int| 0 <= i < run.len() - 1 ==> #[trigger] timer_step(run[i], run[i + 1]),
    ensures
        run.last()@ == run[0]@ + (run.len() - 1),
        forall|i: int, j: int| 0 <= i <= j < run.len() ==> run[i]@ <= run[j]@,
    decreases run.len(),
{
    if run.len() > 1 {
        let prefix = run.drop_last();
        assert forall|i: int| 0 <= i < prefix.len() - 1 implies #[trigger] timer_step(
            prefix[i],
            prefix[i + 1],
        ) by {
            assert(timer_step(run[i], run[i + 1]));
        }
        lemma_timer_run(prefix);
        let k = run.len() - 2;
        assert(timer_step(run[k], run[k + 1]));
        assert forall|i: int, j: int| 0 <= i <= j < run.len() implies run[i]@ <= run[j]@ by {
            if i == j {
            } else if j == run.len() - 1 {
                assert(prefix[i]@ <= prefix[k]@);
            } else {
                assert(prefix[i]@ <= prefix[j]@);
            }
        }
    }
}

} // verus!
