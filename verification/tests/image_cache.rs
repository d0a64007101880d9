//! The cache of decoded programs.
use std::sync::Arc;

use javm::image_cache::ImageCache;

fn trivial_blob() -> Vec<u8> {
    vec![0x0B, 0x00, 0x00, 0x00]
}

#[test]
fn miss_then_hit() {
    let mut cache = ImageCache::new();
    let h = [1u8; 32];
    assert!(cache.get(&h).is_none());

    let p = cache.get_or_decode(h, trivial_blob(), 0);
    assert_eq!(cache.len(), 1);
    assert!(Arc::ptr_eq(&p, &cache.get(&h).unwrap()));
}

#[test]
fn get_or_decode_reuses_existing_entry() {
    let mut cache = ImageCache::new();
    let h = [2u8; 32];
    let p1 = cache.get_or_decode(h, trivial_blob(), 0);
    let p2 = cache.get_or_decode(h, trivial_blob(), 0);
    assert!(Arc::ptr_eq(&p1, &p2));
    assert_eq!(cache.len(), 1);
}

#[test]
fn clear_drops_entries() {
    let mut cache = ImageCache::new();
    cache.get_or_decode([3u8; 32], trivial_blob(), 0);
    assert_eq!(cache.len(), 1);
    cache.clear();
    assert!(cache.is_empty());
}

#[test]
fn decoded_program_has_the_code_and_where_it_starts() {
    let mut cache = ImageCache::new();
    let p = cache.get_or_decode([4u8; 32], trivial_blob(), 0x1_0000);
    assert_eq!(p.code, trivial_blob());
    assert_eq!(p.code_base, 0x1_0000);
    let again = cache.get_or_decode([4u8; 32], vec![1, 2, 3], 7);
    assert_eq!(again.code, trivial_blob());
}
