//! Verified core of a button-to-LED controller: edge interrupts are sampled into
//! events, passed through a bounded single-producer/single-consumer queue, and
//! turned into toggles of a fixed set of output lines.
//!
//! The interrupt side owns only the input levels it samples and offers events
//! to the queue (`input`); the task side owns the `OutputBank` and takes
//! events from the queue (`task`). No function here touches both line sets.

pub mod event;
pub mod channel;
pub mod input;
pub mod outputs;
pub mod task;
