use pfengine::buttons;
use pfengine::{Input, Slots};

fn jump() -> Input {
    Input {
        buttons: buttons::JUMP,
        ..Input::default()
    }
}

fn walk() -> Input {
    Input {
        stick_x: 100,
        ..Input::default()
    }
}

/// Every slot local, as local play has it.
fn all_local(n: usize) -> Vec<usize> {
    (0..n).collect()
}

#[test]
fn slots_start_empty_and_emit_default_input() {
    let polled = vec![Input::default(); 2];
    let mut slots = Slots::new(2, &all_local(2));
    let mut out = vec![walk(); 2]; // stale data must be overwritten
    slots.tick(&polled, &mut out);
    assert_eq!(slots.source_of(0), None);
    assert_eq!(slots.source_of(1), None);
    assert_eq!(out, vec![Input::default(); 2]);
}

#[test]
fn pressing_jump_joins_the_lowest_free_slot() {
    let mut polled = vec![Input::default(); 3];
    let mut slots = Slots::new(2, &all_local(2));
    let mut out = vec![Input::default(); 2];
    polled[2] = jump(); // the *third* source joins first
    slots.tick(&polled, &mut out);
    assert_eq!(slots.source_of(0), Some(2));
    assert_eq!(slots.source_of(1), None);
}

#[test]
fn the_joining_press_does_not_jump() {
    let mut polled = vec![Input::default(); 1];
    let mut slots = Slots::new(1, &all_local(1));
    let mut out = vec![Input::default(); 1];
    polled[0] = jump();
    slots.tick(&polled, &mut out);
    assert_eq!(out[0], Input::default());
}

#[test]
fn an_assigned_source_drives_its_slot() {
    let mut polled = vec![Input::default(); 2];
    let mut slots = Slots::new(2, &all_local(2));
    let mut out = vec![Input::default(); 2];
    polled[1] = jump();
    slots.tick(&polled, &mut out); // source 1 -> slot 0
    polled[1] = walk();
    slots.tick(&polled, &mut out);
    assert_eq!(out[0], walk());
    assert_eq!(out[1], Input::default());
}

#[test]
fn holding_jump_is_not_a_second_join() {
    let mut polled = vec![Input::default(); 1];
    let mut slots = Slots::new(2, &all_local(2));
    let mut out = vec![Input::default(); 2];
    polled[0] = jump();
    slots.tick(&polled, &mut out); // edge: joins slot 0
    slots.tick(&polled, &mut out); // still held: no edge
    assert_eq!(slots.source_of(0), Some(0));
    assert_eq!(slots.source_of(1), None);
    assert_eq!(out[0], jump()); // the held jump now flows through
}

#[test]
fn an_assigned_source_cannot_claim_a_second_slot() {
    let mut polled = vec![Input::default(); 1];
    let mut slots = Slots::new(2, &all_local(2));
    let mut out = vec![Input::default(); 2];
    polled[0] = jump();
    slots.tick(&polled, &mut out);
    polled[0] = Input::default();
    slots.tick(&polled, &mut out);
    polled[0] = jump(); // a fresh edge from an already-assigned source
    slots.tick(&polled, &mut out);
    assert_eq!(slots.source_of(0), Some(0));
    assert_eq!(slots.source_of(1), None);
    assert_eq!(out[0], jump()); // ...is an ordinary jump
}

#[test]
fn a_full_roster_ignores_further_joins() {
    let mut polled = vec![Input::default(); 2];
    let mut slots = Slots::new(1, &all_local(1));
    let mut out = vec![Input::default(); 1];
    polled[0] = jump();
    slots.tick(&polled, &mut out); // source 0 takes the only slot
    polled[0] = Input::default();
    polled[1] = jump();
    slots.tick(&polled, &mut out); // nowhere for source 1 to go
    polled[1] = walk();
    slots.tick(&polled, &mut out);
    assert_eq!(slots.source_of(0), Some(0));
    assert_eq!(out[0], Input::default()); // source 1's walk goes nowhere
}

#[test]
fn remote_slots_are_never_claimed() {
    let mut polled = vec![Input::default(); 1];
    let mut slots = Slots::new(2, &[1]); // slot 0 belongs to another machine
    let mut out = vec![Input::default(); 2];
    polled[0] = jump();
    slots.tick(&polled, &mut out);
    assert!(!slots.is_local(0));
    assert!(slots.is_local(1));
    assert_eq!(slots.source_of(0), None);
    assert_eq!(slots.source_of(1), Some(0));
    assert_eq!(out[0], Input::default()); // a remote slot's input comes over the wire
}

#[test]
fn the_joiner_takes_the_lowest_free_local_slot() {
    let mut polled = vec![Input::default(); 2];
    let mut slots = Slots::new(3, &[0, 2]);
    let mut out = vec![Input::default(); 3];
    polled[0] = jump();
    slots.tick(&polled, &mut out); // source 0 -> slot 0
    polled[0] = Input::default();
    polled[1] = jump();
    slots.tick(&polled, &mut out); // source 1 skips remote slot 1
    assert_eq!(slots.source_of(0), Some(0));
    assert_eq!(slots.source_of(1), None);
    assert_eq!(slots.source_of(2), Some(1));
}

#[test]
fn two_sources_joining_on_one_tick_fill_slots_in_source_order() {
    let polled = vec![jump(), jump()];
    let mut slots = Slots::new(3, &all_local(3));
    let mut out = vec![walk(); 3];
    slots.tick(&polled, &mut out);
    assert_eq!(slots.source_of(0), Some(0));
    assert_eq!(slots.source_of(1), Some(1));
    assert_eq!(slots.source_of(2), None);
    assert_eq!(out, vec![Input::default(); 3]);
}

#[test]
fn a_source_added_later_can_join() {
    let mut slots = Slots::new(2, &all_local(2));
    let mut out = vec![Input::default(); 2];
    slots.tick(&[Input::default()], &mut out);
    // A second source appears with jump already held: that is a fresh edge.
    slots.tick(&[Input::default(), jump()], &mut out);
    assert_eq!(slots.source_of(0), Some(1));
}
