//! Meters, quotas, catchers and kernel images.
use javm::cap::CapHashOrRef;
use javm::hash::Blake2b256;
use javm::kernel_assist::{
    const_kernel_image_label, kernel_image_hash, recognize_kernel_image, InProcessKernelAssist,
    KernelAssist, KernelImage,
};

#[test]
fn gas_meter_get_missing_returns_zero() {
    let k = InProcessKernelAssist::new();
    assert_eq!(k.gas_meter_get(42), 0);
}

#[test]
fn gas_meter_set_returns_previous() {
    let mut k = InProcessKernelAssist::new();
    assert_eq!(k.gas_meter_set(1, 100), 0);
    assert_eq!(k.gas_meter_set(1, 200), 100);
    assert_eq!(k.gas_meter_get(1), 200);
}

#[test]
fn storage_quota_round_trip() {
    let mut k = InProcessKernelAssist::new();
    assert_eq!(k.storage_quota_set(7, 1024), 0);
    assert_eq!(k.storage_quota_get(7), 1024);
    assert_eq!(k.storage_quota_set(7, 2048), 1024);
}

#[test]
fn yield_catcher_add_and_read_markers() {
    let mut k = InProcessKernelAssist::new();
    let yc = k.yield_catcher_new();
    let m1 = [1u8; 32];
    let m2 = [2u8; 32];
    k.yield_catcher_add(yc, m1);
    k.yield_catcher_add(yc, m2);
    assert_eq!(k.yield_catcher_markers(yc), vec![m1, m2]);
}

#[test]
fn yield_catcher_add_is_set_semantics() {
    let mut k = InProcessKernelAssist::new();
    let yc = k.yield_catcher_new();
    let m = [9u8; 32];
    k.yield_catcher_add(yc, m);
    k.yield_catcher_add(yc, m);
    assert_eq!(k.yield_catcher_markers(yc).len(), 1);
}

#[test]
fn yield_catcher_remove() {
    let mut k = InProcessKernelAssist::new();
    let yc = k.yield_catcher_new();
    let m = [3u8; 32];
    k.yield_catcher_add(yc, m);
    k.yield_catcher_remove(yc, m);
    assert!(k.yield_catcher_markers(yc).is_empty());
    k.yield_catcher_remove(yc, [9u8; 32]);
}

#[test]
fn yield_catcher_new_returns_distinct_hashes() {
    let mut k = InProcessKernelAssist::new();
    let a = k.yield_catcher_new();
    let b = k.yield_catcher_new();
    assert_ne!(a, b);
}

#[test]
fn reset_block_state_clears_meters_and_catchers() {
    let mut k = InProcessKernelAssist::new();
    k.gas_meter_set(1, 100);
    k.storage_quota_set(2, 200);
    let yc = k.yield_catcher_new();
    k.yield_catcher_add(yc, [4u8; 32]);

    k.reset_block_state();

    assert_eq!(k.gas_meter_get(1), 0);
    assert_eq!(k.storage_quota_get(2), 0);
    assert!(k.yield_catcher_markers(yc).is_empty());
}

#[test]
fn kernel_image_hash_is_deterministic() {
    assert_eq!(
        kernel_image_hash(KernelImage::GasMeter),
        kernel_image_hash(KernelImage::GasMeter)
    );
}

#[test]
fn kernel_images_have_distinct_hashes() {
    let all = [
        KernelImage::GasMeter,
        KernelImage::StorageQuota,
        KernelImage::YieldCatcher,
        KernelImage::Gas,
        KernelImage::Quota,
        KernelImage::SetGasMeter,
        KernelImage::SetStorageQuota,
        KernelImage::MintGas,
        KernelImage::MintQuota,
        KernelImage::CreateYieldCatcher,
        KernelImage::OogMarker,
        KernelImage::StorageExhaustedMarker,
        KernelImage::File,
        KernelImage::HostOpen,
        KernelImage::HostSave,
    ];
    for (i, a) in all.iter().enumerate() {
        for b in &all[i + 1..] {
            assert_ne!(kernel_image_hash(*a), kernel_image_hash(*b), "{:?} vs {:?}", a, b);
        }
    }
}

#[test]
fn recognize_known_image() {
    let h = kernel_image_hash(KernelImage::OogMarker);
    assert_eq!(recognize_kernel_image(h), Some(KernelImage::OogMarker));
}

#[test]
fn recognize_unknown_image_is_none() {
    let h = Blake2b256::hash(b"user:my-cool-image");
    assert_eq!(recognize_kernel_image(h), None);
}

#[test]
fn kernel_images_are_the_hashes_of_their_labels() {
    assert_eq!(const_kernel_image_label(KernelImage::Gas), "kernel:gas");
    assert_eq!(const_kernel_image_label(KernelImage::OogMarker), "kernel:oog_marker");
    assert_eq!(kernel_image_hash(KernelImage::Gas), Blake2b256::hash(b"kernel:gas"));
}

#[test]
fn digest_of_a_known_message() {
    let abc: [u8; 32] = [
        0xbd, 0xdd, 0x81, 0x3c, 0x63, 0x42, 0x39, 0x72, 0x31, 0x71, 0xef, 0x3f, 0xee, 0x98, 0x57,
        0x9b, 0x94, 0x96, 0x4e, 0x3b, 0xb1, 0xcb, 0x3e, 0x42, 0x72, 0x62, 0xc8, 0xc0, 0x68, 0xd5,
        0x23, 0x19,
    ];
    assert_eq!(Blake2b256::hash(b"abc"), abc);
    let empty: [u8; 32] = [
        0x0e, 0x57, 0x51, 0xc0, 0x26, 0xe5, 0x43, 0xb2, 0xe8, 0xab, 0x2e, 0xb0, 0x60, 0x99, 0xda,
        0xa1, 0xd1, 0xe5, 0xdf, 0x47, 0x77, 0x8f, 0x77, 0x87, 0xfa, 0xab, 0x45, 0xcd, 0xf1, 0x2f,
        0xe3, 0xa8,
    ];
    assert_eq!(Blake2b256::hash(b""), empty);
}

#[test]
fn digest_of_a_pair_is_that_of_both_in_order() {
    let a = [1u8; 32];
    let b = [2u8; 32];
    let mut joined = a.to_vec();
    joined.extend_from_slice(&b);
    assert_eq!(Blake2b256::hash_pair(&a, &b), Blake2b256::hash(&joined));
    assert_ne!(Blake2b256::hash_pair(&a, &b), Blake2b256::hash_pair(&b, &a));
}

#[test]
fn saving_a_file_costs_its_size_and_it_opens() {
    let mut k = InProcessKernelAssist::new();
    let target = CapHashOrRef::Hash([7u8; 32]);
    k.storage_quota_set(3, 100);
    assert_eq!(k.host_save(target, 3, 101), None);
    assert_eq!(k.storage_quota_get(3), 100);
    let id = k.host_save(target, 3, 60).unwrap();
    assert_eq!(k.storage_quota_get(3), 40);
    assert_eq!(k.host_open(id), Some(target));
    assert_eq!(k.host_open(id + 1), None);
}

#[test]
fn stored_data_is_found_under_its_digest() {
    let mut k = InProcessKernelAssist::new();
    let h = k.data_store(b"bytes");
    assert_eq!(h, Blake2b256::hash(b"bytes"));
    assert_eq!(k.data_lookup(h).unwrap(), b"bytes".to_vec());
    assert!(k.data_lookup([0u8; 32]).is_none());
}

#[test]
fn saved_files_take_no_id_that_is_in_use() {
    let mut k = InProcessKernelAssist::new();
    let first = CapHashOrRef::Hash([1u8; 32]);
    let second = CapHashOrRef::Hash([2u8; 32]);
    k.register_file(9, first);
    k.storage_quota_set(0, 10);
    assert_eq!(k.host_save(second, 0, 4), Some(10));
    assert_eq!(k.host_save(second, 0, 4), Some(11));
    assert_eq!(k.host_open(9), Some(first));
    assert_eq!(k.host_open(10), Some(second));
    k.register_file(5, second);
    assert_eq!(k.host_save(first, 0, 2), Some(12));
}

#[test]
fn minted_catchers_are_new_also_after_a_reset() {
    let mut k = InProcessKernelAssist::default();
    let a = k.yield_catcher_new();
    k.yield_catcher_add(a, [1u8; 32]);
    let b = k.yield_catcher_new();
    assert_ne!(a, b);
    assert!(k.yield_catcher_markers(b).is_empty());
    assert_eq!(k.yield_catcher_markers(a), vec![[1u8; 32]]);
    k.reset_block_state();
    let c = k.yield_catcher_new();
    assert!(c != a && c != b);
    assert_eq!(a, Blake2b256::hash(&0u64.to_le_bytes()));
}

#[test]
fn every_kernel_image_is_recognized() {
    for kind in [
        KernelImage::GasMeter,
        KernelImage::StorageQuota,
        KernelImage::YieldCatcher,
        KernelImage::Gas,
        KernelImage::Quota,
        KernelImage::SetGasMeter,
        KernelImage::SetStorageQuota,
        KernelImage::MintGas,
        KernelImage::MintQuota,
        KernelImage::CreateYieldCatcher,
        KernelImage::OogMarker,
        KernelImage::StorageExhaustedMarker,
        KernelImage::File,
        KernelImage::HostOpen,
        KernelImage::HostSave,
    ] {
        assert_eq!(recognize_kernel_image(kernel_image_hash(kind)), Some(kind));
    }
}

#[test]
fn chains_tell_what_was_added() {
    let a = [1u8; 32];
    let b = [2u8; 32];
    assert_eq!(Blake2b256::hash_pair(&a, &b), Blake2b256::hash_pair(&a, &b));
    assert_ne!(Blake2b256::hash_pair(&a, &b), Blake2b256::hash_pair(&a, &a));
    assert_ne!(Blake2b256::hash_pair(&a, &b), Blake2b256::hash_pair(&b, &b));
}
