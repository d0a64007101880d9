//! The call stack of the machine.
use std::sync::Arc;

use javm::callstack::{short_hex, CallStack, Entry, EntryStatus, InstanceEntry};
use javm::cap::{CNodeCap, CapHashOrRef};
use javm::error::VmError;
use javm::exec::{GasCounter, Program, Regs};
use javm::mem::Mem;

fn make_entry(tag: u8) -> InstanceEntry {
    let prog = Arc::new(Program::new(vec![0u8], 25));
    let cnode = CNodeCap::new(8).unwrap();
    InstanceEntry {
        instance_ref: CapHashOrRef::Hash([tag; 32]),
        image_hash_chain: [tag; 32],
        image_hash: [tag.wrapping_add(0x10); 32],
        program: prog,
        root_cnode: cnode,
        yield_marker_slot: None,
        pinned_slots: Vec::new(),
        regs: Regs::new(),
        mem: Mem::new(),
        gas: GasCounter::new(1000),
        status: EntryStatus::Waiting,
    }
}

#[test]
fn empty_stack_invariants_hold() {
    let s = CallStack::with_default_depth();
    assert!(s.is_empty());
    assert!(s.running().is_none());
    s.enforce_invariants().unwrap();
}

#[test]
fn push_instance_makes_it_running() {
    let mut s = CallStack::with_default_depth();
    s.push_instance(make_entry(1)).unwrap();
    assert_eq!(s.len(), 1);
    assert_eq!(s.running().unwrap().status(), EntryStatus::Running);
    s.enforce_invariants().unwrap();
}

#[test]
fn push_two_instances_top_running_rest_waiting() {
    let mut s = CallStack::with_default_depth();
    s.push_instance(make_entry(1)).unwrap();
    s.push_instance(make_entry(2)).unwrap();
    assert_eq!(s.len(), 2);
    assert_eq!(s.entries()[0].status(), EntryStatus::Waiting);
    assert_eq!(s.entries()[1].status(), EntryStatus::Running);
    s.enforce_invariants().unwrap();
}

#[test]
fn pop_promotes_next() {
    let mut s = CallStack::with_default_depth();
    s.push_instance(make_entry(1)).unwrap();
    s.push_instance(make_entry(2)).unwrap();
    let popped = s.pop().unwrap();
    assert_eq!(popped.status(), EntryStatus::Running);
    assert_eq!(s.running().unwrap().status(), EntryStatus::Running);
    s.enforce_invariants().unwrap();
}

#[test]
fn pop_last_leaves_empty() {
    let mut s = CallStack::with_default_depth();
    s.push_instance(make_entry(1)).unwrap();
    s.pop().unwrap();
    assert!(s.is_empty());
    s.enforce_invariants().unwrap();
}

#[test]
fn push_reference_targets_earlier_instance() {
    let mut s = CallStack::with_default_depth();
    s.push_instance(make_entry(1)).unwrap();
    s.push_instance(make_entry(2)).unwrap();
    s.push_reference(0).unwrap();
    assert_eq!(s.len(), 3);
    assert!(matches!(s.entries()[0].status(), EntryStatus::Waiting));
    assert!(matches!(s.entries()[1].status(), EntryStatus::Waiting));
    assert!(matches!(s.entries()[2].status(), EntryStatus::Running));
    s.enforce_invariants().unwrap();
}

#[test]
fn push_reference_out_of_range_rejected() {
    let mut s = CallStack::with_default_depth();
    s.push_instance(make_entry(1)).unwrap();
    let res = s.push_reference(5);
    assert!(matches!(res, Err(VmError::ReferenceOutOfRange(5))));
}

#[test]
fn push_reference_targeting_reference_rejected() {
    let mut s = CallStack::with_default_depth();
    s.push_instance(make_entry(1)).unwrap();
    s.push_reference(0).unwrap();
    let res = s.push_reference(1);
    assert!(matches!(res, Err(VmError::ReferenceNonInstance(1))));
}

#[test]
fn push_beyond_max_depth_rejected() {
    let mut s = CallStack::new(2);
    s.push_instance(make_entry(1)).unwrap();
    s.push_instance(make_entry(2)).unwrap();
    let res = s.push_instance(make_entry(3));
    assert!(matches!(res, Err(VmError::CallStackFull)));
}

#[test]
fn running_instance_resolves_through_reference() {
    let mut s = CallStack::with_default_depth();
    s.push_instance(make_entry(1)).unwrap();
    s.push_reference(0).unwrap();
    let ic = s.running_instance().unwrap();
    assert_eq!(ic.image_hash_chain, [1u8; 32]);
}

#[test]
fn push_reference_beyond_max_depth_rejected() {
    let mut s = CallStack::new(1);
    s.push_instance(make_entry(1)).unwrap();
    assert!(matches!(s.push_reference(0), Err(VmError::CallStackFull)));
}

#[test]
fn popping_what_was_pushed_leaves_the_rest_as_it_was() {
    let mut s = CallStack::with_default_depth();
    s.push_instance(make_entry(1)).unwrap();
    s.push_reference(0).unwrap();
    match s.pop().unwrap() {
        Entry::Reference(r) => assert_eq!(r.target_position, 0),
        Entry::Instance(_) => panic!("a reference was on top"),
    }
    assert_eq!(s.len(), 1);
    assert_eq!(s.running_instance().unwrap().image_hash, [0x11u8; 32]);
    s.enforce_invariants().unwrap();
}

#[test]
fn running_instance_can_be_changed_through_a_reference() {
    let mut s = CallStack::with_default_depth();
    s.push_instance(make_entry(1)).unwrap();
    s.push_instance(make_entry(2)).unwrap();
    s.push_reference(0).unwrap();
    s.running_instance_mut().unwrap().image_hash = [0x77; 32];
    assert_eq!(s.entries()[0].as_instance().unwrap().image_hash, [0x77; 32]);
    assert_eq!(s.entries()[1].as_instance().unwrap().image_hash, [0x12; 32]);
    s.enforce_invariants().unwrap();
}

#[test]
fn broken_statuses_are_reported() {
    let mut s = CallStack::with_default_depth();
    s.push_instance(make_entry(1)).unwrap();
    s.entries_mut()[0].set_status(EntryStatus::Waiting);
    assert!(matches!(s.enforce_invariants(), Err(VmError::Invariant(_))));
}

#[test]
fn short_hex_shows_four_bytes() {
    assert_eq!(short_hex(&[0xAB, 0x01, 0x00, 0xFF, 0x99]), "ab0100ff");
    assert_eq!(short_hex(&[0x0F]), "0f");
    assert_eq!(short_hex(&[]), "");
}
