//! The machine timer: reading the time and arming the next tick.
use vstd::prelude::*;

verus! {

/// Ticks of the time register per second.
pub const CLOCK_FREQ: usize = 12500000;
/// Timer interrupts per second.
pub const TICKS_PER_SEC: usize = 100;
pub const MSEC_PER_SEC: usize = 1000;

/// Reads the `time` register through `riscv::register::time::try_read`.
/// Nothing is claimed of the value: it is whatever the clock shows, or
/// `None` where the register cannot be read (off a RISC-V machine).
#[verifier::external_body]
fn read_time_register() -> (ret: Option<usize>) {
    riscv::register::time::try_read().ok()
}

/// The time register, in ticks.
pub fn get_time() -> (ret: Option<usize>) {
    read_time_register()
}

/// `ticks` in milliseconds.
pub fn ticks_to_ms(ticks: usize) -> (ret: usize)
    ensures
        ret == ticks / (CLOCK_FREQ / MSEC_PER_SEC),
{
    ticks / (CLOCK_FREQ / MSEC_PER_SEC)
}

/// The time register in milliseconds.
pub fn get_time_ms() -> (ret: Option<usize>)
    ensures
        ret is Some ==> ret->0 <= usize::MAX / (CLOCK_FREQ / MSEC_PER_SEC),
{
    match get_time() {
        Some(ticks) => {
            proof {
                vstd::arithmetic::div_mod::lemma_div_is_ordered(ticks as int, usize::MAX as int, 12500);
            }
            Some(ticks_to_ms(ticks))
        },
        None => None,
    }
}

/// One tick period (`CLOCK_FREQ / TICKS_PER_SEC`) after `now`, wrapping
/// round at the top of the counter.
pub open spec fn next_trigger_spec(now: usize) -> int {
    if now + CLOCK_FREQ / TICKS_PER_SEC <= usize::MAX {
        now + CLOCK_FREQ / TICKS_PER_SEC
    } else {
        now + CLOCK_FREQ / TICKS_PER_SEC - usize::MAX - 1
    }
}

/// When the next timer interrupt is due after `now`.
pub fn next_trigger(now: usize) -> (ret: usize)
    ensures
        ret == next_trigger_spec(now),
{
    now.wrapping_add(CLOCK_FREQ / TICKS_PER_SEC)
}

/// The reading with the deadline one tick period after it; `None` for an
/// unreadable clock.
pub open spec fn trigger_for(reading: Option<usize>) -> Option<(usize, usize)> {
    match reading {
        Some(now) => Some((now, next_trigger_spec(now) as usize)),
        None => None,
    }
}

/// The clock reading `reading` with the deadline of the next timer
/// interrupt after it.
pub fn trigger_from_reading(reading: Option<usize>) -> (ret: Option<(usize, usize)>)
    ensures
        ret == trigger_for(reading),
{
    match reading {
        Some(now) => Some((now, next_trigger(now))),
        None => None,
    }
}

/// Reads the clock and gives the reading with the deadline to program into
/// the timer for the next interrupt, one tick period later; `None` where the
/// clock cannot be read.
pub fn set_next_trigger() -> (ret: Option<(usize, usize)>)
    ensures
        ret matches Some((now, deadline)) ==> deadline == next_trigger_spec(now),
{
    trigger_from_reading(get_time())
}

} // verus!
