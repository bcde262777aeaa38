use vstd::prelude::*;

pub mod app;
pub mod debounce;
pub mod filters;
pub mod lines;
pub mod reprocess;

verus! {

/// Number of milliseconds between two redraw ticks of the application loop.
pub const TICK_RATE_MS: u64 = 100;

/// Number of milliseconds of the trailing debounce window for change events.
pub const DEBOUNCE_MS: u64 = 100;

/// Remaining time, in milliseconds, until the next tick boundary: the input
/// wait never exceeds the tick budget.
pub fn remaining_timeout(tick_ms: u64, elapsed_ms: u64) -> (r: u64)
    ensures
        r == if elapsed_ms < tick_ms { (tick_ms - elapsed_ms) as u64 } else { 0u64 },
{
    if elapsed_ms < tick_ms {
        tick_ms - elapsed_ms
    } else {
        0
    }
}

} // verus!
