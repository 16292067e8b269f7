//! The interrupt side: turning sampled input levels into an event and
//! offering it to the queue without blocking.
//!
//! Inputs are pulled up and armed for falling edges, so a pressed line reads
//! low: bit `i` of a selector is set when input line `i` reads low.
use vstd::prelude::*;

use crate::channel::{send_step, Channel, EnqueueFull};
use crate::event::InEvent;

verus! {

/// Most input lines a selector can describe, one bit each.
pub const MAX_INPUTS: usize = 32;

/// Whether bit `k` of selector `sel` is set.
pub open spec fn selects(sel: u32, k: u8) -> bool {
    k < 32 && (sel >> (k as u32)) & 1u32 == 1u32
}

/// The selector for input levels `levels` (true = high): bit `i` set exactly
/// when line `i` reads low.
pub open spec fn selector_of(levels: Seq<bool>) -> u32
    decreases levels.len(),
{
    if levels.len() == 0 {
        0u32
    } else if levels.last() {
        selector_of(levels.drop_last())
    } else {
        selector_of(levels.drop_last()) | (1u32 << ((levels.len() - 1) as u32))
    }
}

proof fn lemma_bit_set(x: u32, i: u32, j: u32)
    requires
        i < 32,
        j < 32,
    ensures
        ((x | (1u32 << i)) >> j) & 1u32 == (if j == i {
            1u32
        } else {
            (x >> j) & 1u32
        }),
{
    assert(((x | (1u32 << i)) >> j) & 1u32 == (if j == i {
        1u32
    } else {
        (x >> j) & 1u32
    })) by (bit_vector)
        requires
            i < 32,
            j < 32,
    ;
}

proof fn lemma_bit_zero(j: u32)
    ensures
        (0u32 >> j) & 1u32 == 0u32,
{
    assert((0u32 >> j) & 1u32 == 0u32) by (bit_vector);
}

/// Bit `k` of the selector of `levels` is set exactly when line `k` exists and reads low.
pub proof fn lemma_selector_bits(levels: Seq<bool>, k: u8)
    requires
        levels.len() <= MAX_INPUTS,
    ensures
        selects(selector_of(levels), k) == (k < levels.len() && !levels[k as int]),
    decreases levels.len(),
{
    if levels.len() == 0 {
        lemma_bit_zero(k as u32);
    } else {
        let init = levels.drop_last();
        lemma_selector_bits(init, k);
        let n = (levels.len() - 1) as u32;
        if k < 32 && !levels.last() {
            lemma_bit_set(selector_of(init), n, k as u32);
        }
    }
}

/// Packs the input levels (true = high) into a selector.
pub fn sample_selector(levels: &Vec<bool>) -> (r: u32)
    requires
        levels@.len() <= MAX_INPUTS,
    ensures
        r == selector_of(levels@),
        forall|k: u8| selects(r, k) == (k < levels@.len() && !levels@[k as int]),
{
    let mut r: u32 = 0;
    let mut i: usize = 0;
    while i < levels.len()
        invariant
            i <= levels@.len(),
            levels@.len() <= MAX_INPUTS,
            r == selector_of(levels@.take(i as int)),
        decreases levels@.len() - i,
    {
        assert(levels@.take(i as int + 1).drop_last() =~= levels@.take(i as int));
        if !levels[i] {
            r = r | (1u32 << (i as u32));
        }
        i = i + 1;
    }
    assert(levels@.take(i as int) =~= levels@);
    assert forall|k: u8| selects(r, k) == (k < levels@.len() && !levels@[k as int]) by {
        lemma_selector_bits(levels@, k);
    }
    r
}

/// The interrupt handler's decision: stamp the sampled levels with `time`
/// and try to enqueue the event. A full queue is left as it was and the new
/// event is the one dropped.
pub fn on_edge(ch: &mut Channel, time: u64, levels: &Vec<bool>) -> (r: Result<(), EnqueueFull>)
    requires
        old(ch).wf(),
        levels@.len() <= MAX_INPUTS,
    ensures
        final(ch).wf(),
        (final(ch)@, r is Ok) == send_step(
            old(ch)@,
            InEvent { time, gpios: selector_of(levels@) },
        ),
        r matches Err(f) ==> f.event == (InEvent { time, gpios: selector_of(levels@) }),
{
    let gpios = sample_selector(levels);
    ch.try_send(InEvent::new(time, gpios))
}

} // verus!
