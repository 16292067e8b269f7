//! The value that travels from the interrupt handler to the output task.
use vstd::prelude::*;

verus! {

/// One sampled edge interrupt.
///
/// `time` is the monotonic clock reading in ticks taken when the handler ran;
/// `gpios` is the selector: bit `i` is set when input line `i` was active.
#[derive(Debug, Clone, Copy, PartialEq, Eq, Structural)]
pub struct InEvent {
    pub time: u64,
    pub gpios: u32,
}

impl InEvent {
    pub fn new(time: u64, gpios: u32) -> (r: InEvent)
        ensures
            r.time == time,
            r.gpios == gpios,
    {
        InEvent { time, gpios }
    }
}

} // verus!
