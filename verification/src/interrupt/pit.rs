//! 8253/8254 programmable interval timer.
use vstd::prelude::*;
use crate::device::port::{PortWrite, pw};

verus! {

pub const PIT_CHANNEL0: u16 = 0x40;
pub const PIT_COMMAND: u16 = 0x43;
pub const PIT_BASE_FREQUENCY: u32 = 1_193_182;
pub const TICKS_PER_SECOND: u32 = 100;

/// The channel-0 reload value for `TICKS_PER_SECOND` interrupts a second.
pub open spec fn divisor() -> u32 {
    PIT_BASE_FREQUENCY / TICKS_PER_SECOND
}

/// Port writes that program channel 0 as a rate generator at
/// `TICKS_PER_SECOND` (mode 3, low then high byte of the divisor).
pub fn init() -> (r: Vec<PortWrite>)
    ensures
        r@ == seq![
            pw(PIT_COMMAND, 0x36),
            pw(PIT_CHANNEL0, (divisor() & 0xff) as u8),
            pw(PIT_CHANNEL0, ((divisor() >> 8) & 0xff) as u8),
        ],
        divisor() == 11931,
{
    let div: u32 = PIT_BASE_FREQUENCY / TICKS_PER_SECOND;
    let mut v: Vec<PortWrite> = Vec::new();
    v.push(PortWrite { port: PIT_COMMAND, value: 0b0011_0110 });
    v.push(PortWrite { port: PIT_CHANNEL0, value: (div & 0xff) as u8 });
    v.push(PortWrite { port: PIT_CHANNEL0, value: ((div >> 8) & 0xff) as u8 });
    assert(v@ =~= seq![
        pw(PIT_COMMAND, 0x36),
        pw(PIT_CHANNEL0, (divisor() & 0xff) as u8),
        pw(PIT_CHANNEL0, ((divisor() >> 8) & 0xff) as u8),
    ]);
    v
}

/// Ticks that busy-waiting `ms` milliseconds waits: rounded up.
pub fn ticks_to_wait(ms: u64) -> (r: u64)
    requires
        ms * 100 + 999 <= u64::MAX,
    ensures
        r == (ms * 100 + 999) / 1000,
        r * 1000 >= ms * TICKS_PER_SECOND,
        r == 0 || (r - 1) * 1000 < ms * TICKS_PER_SECOND,
{
    (ms * TICKS_PER_SECOND as u64 + 999) / 1000
}

/// Whether a busy wait that started at tick `start` for `wait` ticks is
/// over at tick `now` (the tick counter wraps).
pub fn wait_over(now: u64, start: u64, wait: u64) -> (r: bool)
    ensures
        r == ((if now >= start {
            now - start
        } else {
            now + 0x1_0000_0000_0000_0000 - start
        }) >= wait),
{
    now.wrapping_sub(start) >= wait
}

/// The tick counter after one more timer interrupt (it wraps).
pub fn next_tick(count: u64) -> (r: u64)
    ensures
        r == if count == u64::MAX {
            0
        } else {
            count + 1
        },
{
    count.wrapping_add(1)
}

} // verus!
