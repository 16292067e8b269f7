use blinkenbox::channel::{Channel, EnqueueFull, CAPACITY};
use blinkenbox::event::InEvent;
use blinkenbox::input::{on_edge, sample_selector};
use blinkenbox::outputs::OutputBank;
use blinkenbox::task::pin_setter_step;

fn levels_of(bank: &OutputBank, keys: &[u8]) -> Vec<Option<bool>> {
    keys.iter().map(|k| bank.level(*k)).collect()
}

#[test]
fn scenario_a_edge_on_line0_toggles_only_its_output() {
    let mut ch = Channel::new();
    let mut bank = OutputBank::new(&vec![0, 1, 2]);
    // line0 pulled low by the press, the others idle high
    assert_eq!(on_edge(&mut ch, 1000, &vec![false, true, true]), Ok(()));
    assert_eq!(ch.len(), 1);
    let d = pin_setter_step(&mut ch, &mut bank).unwrap();
    assert_eq!(d.event, InEvent::new(1000, 0b1));
    assert_eq!(d.toggled, vec![0]);
    assert_eq!(levels_of(&bank, &[0, 1, 2]), vec![Some(true), Some(false), Some(false)]);
    assert!(pin_setter_step(&mut ch, &mut bank).is_none());
}

#[test]
fn scenario_b_five_edges_three_delivered() {
    let mut ch = Channel::new();
    let mut bank = OutputBank::new(&vec![0, 1, 2]);
    let line1_low = vec![true, false, true];
    let mut outcomes = Vec::new();
    for t in 0..5u64 {
        outcomes.push(on_edge(&mut ch, t, &line1_low));
    }
    assert_eq!(outcomes[0], Ok(()));
    assert_eq!(outcomes[1], Ok(()));
    assert_eq!(outcomes[2], Ok(()));
    assert_eq!(outcomes[3], Err(EnqueueFull { event: InEvent::new(3, 0b10) }));
    assert_eq!(outcomes[4], Err(EnqueueFull { event: InEvent::new(4, 0b10) }));
    assert_eq!(ch.len(), CAPACITY);
    assert!(ch.is_full());

    let mut times = Vec::new();
    while let Some(d) = pin_setter_step(&mut ch, &mut bank) {
        assert_eq!(d.toggled, vec![1]);
        times.push(d.event.time);
    }
    assert_eq!(times, vec![0, 1, 2]);
    // three toggles of line 1 leave it high
    assert_eq!(levels_of(&bank, &[0, 1, 2]), vec![Some(false), Some(true), Some(false)]);
}

#[test]
fn scenario_c_unmapped_selector_toggles_nothing() {
    let mut ch = Channel::new();
    let mut bank = OutputBank::new(&vec![0, 1, 2]);
    assert_eq!(ch.try_send(InEvent::new(7, 1 << 7)), Ok(()));
    let d = pin_setter_step(&mut ch, &mut bank).unwrap();
    assert_eq!(d.event.time, 7);
    assert!(d.toggled.is_empty());
    assert_eq!(levels_of(&bank, &[0, 1, 2]), vec![Some(false), Some(false), Some(false)]);
}

#[test]
fn fifo_order_kept_under_capacity() {
    let mut ch = Channel::new();
    let sent = vec![InEvent::new(5, 1), InEvent::new(6, 4), InEvent::new(9, 2)];
    for e in &sent {
        assert_eq!(ch.try_send(*e), Ok(()));
    }
    assert_eq!(ch.drain(), sent);
    assert_eq!(ch.len(), 0);
    assert_eq!(ch.try_recv(), None);
}

#[test]
fn full_queue_keeps_oldest_events() {
    let mut ch = Channel::new();
    for t in 0..3u64 {
        assert_eq!(ch.try_send(InEvent::new(t, 1)), Ok(()));
    }
    assert_eq!(ch.try_send(InEvent::new(99, 1)), Err(EnqueueFull { event: InEvent::new(99, 1) }));
    assert_eq!(ch.try_recv(), Some(InEvent::new(0, 1)));
    assert_eq!(ch.try_send(InEvent::new(100, 1)), Ok(()));
    let times: Vec<u64> = ch.drain().iter().map(|e| e.time).collect();
    assert_eq!(times, vec![1, 2, 100]);
}

#[test]
fn empty_queue_receives_nothing() {
    let mut ch = Channel::new();
    let mut bank = OutputBank::new(&vec![3]);
    assert_eq!(ch.try_recv(), None);
    assert!(ch.drain().is_empty());
    assert!(pin_setter_step(&mut ch, &mut bank).is_none());
    assert_eq!(bank.level(3), Some(false));
}

#[test]
fn toggle_twice_restores_level() {
    let mut bank = OutputBank::new(&vec![4, 9]);
    assert!(bank.toggle(9));
    assert_eq!(bank.level(9), Some(true));
    assert_eq!(bank.level(4), Some(false));
    assert!(bank.toggle(9));
    assert_eq!(bank.level(9), Some(false));
}

#[test]
fn toggle_of_missing_line_is_a_no_op() {
    let mut bank = OutputBank::new(&vec![4, 9]);
    assert!(!bank.toggle(5));
    assert_eq!(bank.level(5), None);
    assert_eq!(levels_of(&bank, &[4, 9]), vec![Some(false), Some(false)]);
}

#[test]
fn same_event_twice_restores_all_levels() {
    let mut bank = OutputBank::new(&vec![0, 2, 5]);
    let ev = InEvent::new(1, 0b100101);
    assert_eq!(bank.handle(&ev), vec![0, 2, 5]);
    assert_eq!(levels_of(&bank, &[0, 2, 5]), vec![Some(true), Some(true), Some(true)]);
    assert_eq!(bank.handle(&ev), vec![0, 2, 5]);
    assert_eq!(levels_of(&bank, &[0, 2, 5]), vec![Some(false), Some(false), Some(false)]);
}

#[test]
fn handle_toggles_only_mapped_bits() {
    let mut bank = OutputBank::new(&vec![1, 31]);
    let ev = InEvent::new(0, 0x8000_0003);
    assert_eq!(bank.handle(&ev), vec![1, 31]);
    assert_eq!(levels_of(&bank, &[0, 1, 31]), vec![None, Some(true), Some(true)]);
}

#[test]
fn bank_holds_eight_lines() {
    let keys: Vec<u8> = (0..8).collect();
    let mut bank = OutputBank::new(&keys);
    assert_eq!(bank.handle(&InEvent::new(0, 0xff)), keys);
    for k in 0..8u8 {
        assert_eq!(bank.level(k), Some(true));
    }
    assert_eq!(bank.level(8), None);
}

#[test]
fn empty_bank_has_no_lines() {
    let mut bank = OutputBank::new(&vec![]);
    assert_eq!(bank.level(0), None);
    assert!(bank.handle(&InEvent::new(0, u32::MAX)).is_empty());
}

#[test]
fn duplicate_keys_give_one_line() {
    let mut bank = OutputBank::new(&vec![2, 2]);
    assert_eq!(bank.handle(&InEvent::new(0, 0b100)), vec![2]);
    assert_eq!(bank.level(2), Some(true));
}

#[test]
fn selector_sets_bits_of_low_lines() {
    assert_eq!(sample_selector(&vec![]), 0);
    assert_eq!(sample_selector(&vec![true, true, true]), 0);
    assert_eq!(sample_selector(&vec![false, true, false]), 0b101);
    assert_eq!(sample_selector(&vec![false; 32]), u32::MAX);
    let mut last_low = vec![true; 32];
    last_low[31] = false;
    assert_eq!(sample_selector(&last_low), 1 << 31);
}

#[test]
fn event_keeps_its_fields() {
    let e = InEvent::new(u64::MAX, 42);
    assert_eq!(e.time, u64::MAX);
    assert_eq!(e.gpios, 42);
}
