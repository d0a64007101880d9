//! Views of a running instance's cap table.
use javm::cache::CacheDirectory;
use javm::cap::{CNodeCap, Cap, CapHashOrRef, SlotIdx, SlotPath};
use javm::error::{CapError, VmError};
use javm::frame::{BareFrame, MainFrame};
use javm::hash::{Blake2b256, CapHash};

fn content_hash(cap: &Cap) -> CapHash {
    Blake2b256::hash(format!("{:?}", cap).as_bytes())
}

fn empty_cache() -> CacheDirectory<fn(&Cap) -> CapHash> {
    CacheDirectory::new(content_hash as fn(&Cap) -> CapHash)
}

#[test]
fn mainframe_get_root_slot() {
    let mut cn = CNodeCap::new(8).unwrap();
    cn.set(SlotIdx(5), Some(CapHashOrRef::Hash([1u8; 32]))).unwrap();
    let cache = empty_cache();
    let m = MainFrame::new(&cn, &[], &cache);
    assert!(m.get(SlotIdx(5)).is_some());
    assert!(m.get(SlotIdx(6)).is_none());
}

#[test]
fn mainframe_is_pinned_reads_pinned_list() {
    let cn = CNodeCap::new(8).unwrap();
    let cache = empty_cache();
    let pinned = vec![SlotIdx(2), SlotIdx(5)];
    let m = MainFrame::new(&cn, &pinned, &cache);
    assert!(m.is_pinned(SlotIdx(2)));
    assert!(!m.is_pinned(SlotIdx(3)));
    assert!(m.is_pinned(SlotIdx(5)));
}

#[test]
fn mainframe_resolve_root_path() {
    let mut cn = CNodeCap::new(8).unwrap();
    cn.set(SlotIdx(9), Some(CapHashOrRef::Hash([7u8; 32]))).unwrap();
    let cache = empty_cache();
    let m = MainFrame::new(&cn, &[], &cache);
    let p = SlotPath::root(SlotIdx(9));
    let got = m.resolve(&p).unwrap();
    assert_eq!(got, Some(CapHashOrRef::Hash([7u8; 32])));
}

#[test]
fn mainframe_resolve_empty_intermediate_errors() {
    let cn = CNodeCap::new(8).unwrap();
    let cache = empty_cache();
    let m = MainFrame::new(&cn, &[], &cache);
    let p = SlotPath::new(vec![SlotIdx(7), SlotIdx(0)]).unwrap();
    let res = m.resolve(&p);
    assert!(matches!(res, Err(VmError::SlotEmpty(7))));
}

#[test]
fn bareframe_only_reads_pinned() {
    let mut cn = CNodeCap::new(8).unwrap();
    cn.set(SlotIdx(2), Some(CapHashOrRef::Hash([3u8; 32]))).unwrap();
    cn.set(SlotIdx(3), Some(CapHashOrRef::Hash([4u8; 32]))).unwrap();
    let cache = empty_cache();
    let pinned = vec![SlotIdx(2)];
    let b = BareFrame::new(&cn, &pinned, &cache);
    assert!(b.get(SlotIdx(2)).is_some());
    assert!(b.get(SlotIdx(3)).is_none());
    assert_eq!(b.pinned_slots(), &[SlotIdx(2)]);
}

#[test]
fn mainframe_resolve_walks_nested_tables() {
    let mut cache = empty_cache();
    let mut inner = CNodeCap::new(2).unwrap();
    inner.set(SlotIdx(1), Some(CapHashOrRef::Hash([9u8; 32]))).unwrap();
    let inner_hash = cache.put_cap(Cap::CNode(inner)).unwrap();
    let mut cn = CNodeCap::new(8).unwrap();
    cn.set(SlotIdx(4), Some(CapHashOrRef::Hash(inner_hash))).unwrap();
    let m = MainFrame::new(&cn, &[], &cache);
    let p = SlotPath::new(vec![SlotIdx(4), SlotIdx(1)]).unwrap();
    assert_eq!(m.resolve(&p).unwrap(), Some(CapHashOrRef::Hash([9u8; 32])));
    assert_eq!(m.size_log(), 8);
}

#[test]
fn mainframe_resolve_through_something_else_errors() {
    let cache = empty_cache();
    let mut cn = CNodeCap::new(8).unwrap();
    cn.set(SlotIdx(4), Some(CapHashOrRef::Hash([5u8; 32]))).unwrap();
    let m = MainFrame::new(&cn, &[], &cache);
    let p = SlotPath::new(vec![SlotIdx(4), SlotIdx(1)]).unwrap();
    assert!(matches!(m.resolve(&p), Err(VmError::SlotKindMismatch(4))));
}

#[test]
fn slot_paths_have_a_length_limit() {
    assert!(matches!(SlotPath::new(Vec::new()), Err(CapError::BadPathLength(0))));
    assert!(matches!(SlotPath::new(vec![SlotIdx(0); 9]), Err(CapError::BadPathLength(9))));
    assert!(SlotPath::new(vec![SlotIdx(0); 8]).is_ok());
}

#[test]
fn cnodes_refuse_slots_that_they_do_not_have() {
    assert!(matches!(CNodeCap::new(9), Err(CapError::CNodeTooLarge(9))));
    let mut cn = CNodeCap::new(2).unwrap();
    assert_eq!(cn.slots.len(), 4);
    assert!(matches!(cn.set(SlotIdx(4), None), Err(CapError::SlotOutOfRange(4))));
    assert!(matches!(cn.take(SlotIdx(5)), Err(CapError::SlotOutOfRange(5))));
    cn.set(SlotIdx(3), Some(CapHashOrRef::Hash([1u8; 32]))).unwrap();
    assert_eq!(cn.take(SlotIdx(3)).unwrap(), Some(CapHashOrRef::Hash([1u8; 32])));
    assert!(cn.get(SlotIdx(3)).is_none());
}
