//! One pass of the output task's loop: receive, decode, toggle.
use vstd::prelude::*;

use crate::channel::Channel;
use crate::event::InEvent;
use crate::outputs::{apply_selector, resolved, OutputBank};

verus! {

/// An event taken from the queue and the keys of the lines it toggled.
pub struct Delivery {
    pub event: InEvent,
    pub toggled: Vec<u8>,
}

/// Takes the oldest queued event, if any, and toggles the lines it selects.
/// With an empty queue nothing changes and `None` comes back.
pub fn pin_setter_step(ch: &mut Channel, bank: &mut OutputBank) -> (r: Option<Delivery>)
    requires
        old(ch).wf(),
        old(bank).wf(),
    ensures
        final(ch).wf(),
        final(bank).wf(),
        old(ch)@.len() == 0 ==> r is None && final(ch)@ == old(ch)@ && final(bank)@ == old(bank)@,
        old(ch)@.len() > 0 ==> final(ch)@ == old(ch)@.drop_first() && (r matches Some(d) && d.event
            == old(ch)@[0] && final(bank)@ == apply_selector(old(bank)@, d.event.gpios)
            && d.toggled@ == resolved(old(bank)@, d.event.gpios, 32)),
{
    match ch.try_recv() {
        Some(event) => {
            let toggled = bank.handle(&event);
            Some(Delivery { event, toggled })
        },
        None => None,
    }
}

} // verus!
