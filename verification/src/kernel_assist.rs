//! Kernel-assisted state: gas meters, storage quotas, yield catchers and files,
//! and the registry of the images that the kernel recognizes.
use vstd::bytes::{spec_u64_to_le_bytes, u64_to_le_bytes};
use vstd::prelude::*;
use vstd::string::StringSliceAdditionalSpecFns;
use vstd::utf8::encode_utf8;

use std::collections::HashMap;
use std::sync::Arc;

use crate::cap::{copy_bytes, CapHashOrRef, ImageCap};
use crate::hash::{blake2b256, contains_hash, no_collision, same_hash, Blake2b256, CapHash};
use crate::table::HashTable;

verus! {

/// Identifies a gas meter. Chosen by the chain.
pub type MeterId = u64;

/// Identifies a storage quota.
pub type QuotaId = u64;

/// `markers` with `marker` appended, unless it is there already.
pub open spec fn marker_added(markers: Seq<CapHash>, marker: CapHash) -> Seq<CapHash> {
    if markers.contains(marker) {
        markers
    } else {
        markers.push(marker)
    }
}

/// `markers` without `marker`, the rest in order.
pub open spec fn marker_removed(markers: Seq<CapHash>, marker: CapHash) -> Seq<CapHash>
    decreases markers.len(),
{
    if markers.len() == 0 {
        markers
    } else if markers.last() == marker {
        marker_removed(markers.drop_last(), marker)
    } else {
        marker_removed(markers.drop_last(), marker).push(markers.last())
    }
}

/// Kernel-assisted state: gas meters, storage quotas and yield catchers.
#[verifier::ext_equal]
pub struct AssistView {
    pub meters: Map<MeterId, u64>,
    pub quotas: Map<QuotaId, u64>,
    pub catchers: Map<CapHash, Seq<CapHash>>,
}

impl AssistView {
    /// Gas left in a meter; zero where there is none.
    pub open spec fn meter(self, id: MeterId) -> u64 {
        if self.meters.contains_key(id) {
            self.meters[id]
        } else {
            0
        }
    }

    /// What is left of a quota; zero where there is none.
    pub open spec fn quota(self, id: QuotaId) -> u64 {
        if self.quotas.contains_key(id) {
            self.quotas[id]
        } else {
            0
        }
    }

    /// The markers that a catcher catches, in routing order.
    pub open spec fn markers(self, catcher: CapHash) -> Seq<CapHash> {
        if self.catchers.contains_key(catcher) {
            self.catchers[catcher]
        } else {
            Seq::empty()
        }
    }

    /// With meter `id` set.
    pub open spec fn with_meter(self, id: MeterId, value: u64) -> AssistView {
        AssistView { meters: self.meters.insert(id, value), ..self }
    }

    /// With quota `id` set.
    pub open spec fn with_quota(self, id: QuotaId, value: u64) -> AssistView {
        AssistView { quotas: self.quotas.insert(id, value), ..self }
    }

    /// With the markers of `catcher` set.
    pub open spec fn with_markers(self, catcher: CapHash, markers: Seq<CapHash>) -> AssistView {
        AssistView { catchers: self.catchers.insert(catcher, markers), ..self }
    }
}

/// Where the machine asks for kernel-assisted state.
pub trait KernelAssist: Sized {
    /// The state.
    spec fn assist(&self) -> AssistView;

    /// The data behind a file, if there is such a file.
    spec fn file(&self, file_id: u64) -> Option<CapHashOrRef>;

    /// The id that a file of `target`, of `size` bytes, paid for from `quota_id`, would
    /// get; none if it would be refused.
    spec fn id_for(&self, target: CapHashOrRef, quota_id: QuotaId, size: u64) -> Option<u64>;

    /// Gas left in a meter; zero where there is none.
    fn gas_meter_get(&self, meter_id: MeterId) -> (left: u64)
        ensures
            left == self.assist().meter(meter_id),
    ;

    /// Set a meter and return its previous value.
    fn gas_meter_set(&mut self, meter_id: MeterId, value: u64) -> (previous: u64)
        ensures
            previous == old(self).assist().meter(meter_id),
            final(self).assist() == old(self).assist().with_meter(meter_id, value),
            forall|id: u64| #[trigger] final(self).file(id) == old(self).file(id),
    ;

    /// What is left of a quota; zero where there is none.
    fn storage_quota_get(&self, quota_id: QuotaId) -> (left: u64)
        ensures
            left == self.assist().quota(quota_id),
    ;

    /// Set a quota and return its previous value.
    fn storage_quota_set(&mut self, quota_id: QuotaId, value: u64) -> (previous: u64)
        ensures
            previous == old(self).assist().quota(quota_id),
            final(self).assist() == old(self).assist().with_quota(quota_id, value),
            forall|id: u64| #[trigger] final(self).file(id) == old(self).file(id),
    ;

    /// The markers that a catcher catches, in routing order.
    fn yield_catcher_markers(&self, catcher_hash: CapHash) -> (markers: Vec<CapHash>)
        ensures
            markers@ == self.assist().markers(catcher_hash),
    ;

    /// Add a marker to a catcher; a marker that it already catches is not added
    /// again.
    fn yield_catcher_add(&mut self, catcher_hash: CapHash, marker_instance_hash: CapHash)
        ensures
            final(self).assist() == old(self).assist().with_markers(
                catcher_hash,
                marker_added(old(self).assist().markers(catcher_hash), marker_instance_hash),
            ),
            forall|id: u64| #[trigger] final(self).file(id) == old(self).file(id),
    ;

    /// Remove a marker from a catcher, if it catches it.
    fn yield_catcher_remove(&mut self, catcher_hash: CapHash, marker_instance_hash: CapHash)
        ensures
            final(self).assist() == (if old(self).assist().catchers.contains_key(catcher_hash) {
                old(self).assist().with_markers(
                    catcher_hash,
                    marker_removed(old(self).assist().markers(catcher_hash), marker_instance_hash),
                )
            } else {
                old(self).assist()
            }),
            forall|id: u64| #[trigger] final(self).file(id) == old(self).file(id),
    ;

    /// Mint a catcher that catches nothing and return its hash.
    fn yield_catcher_new(&mut self) -> (catcher: CapHash)
        ensures
            final(self).assist() == old(self).assist().with_markers(catcher, Seq::empty()),
            forall|id: u64| #[trigger] final(self).file(id) == old(self).file(id),
    ;

    /// The image registered under a content hash. Without a registry, none.
    fn image_lookup(&self, _content_hash: CapHash) -> (image: Option<Arc<ImageCap>>)
        default_ensures
            image is None,
    {
        None
    }

    /// The bytes stored under a content hash. Without a store, none.
    fn data_lookup(&self, _content_hash: CapHash) -> (bytes: Option<Vec<u8>>)
        default_ensures
            bytes is None,
    {
        None
    }

    /// Store `bytes` and return their content hash. Without a store the bytes
    /// are not kept.
    fn data_store(&mut self, bytes: &[u8]) -> (hash: CapHash)
        ensures
            hash@ == blake2b256(bytes@),
            final(self).assist() == old(self).assist(),
            forall|id: u64| #[trigger] final(self).file(id) == old(self).file(id),
    {
        Blake2b256::hash(bytes)
    }

    /// The data behind a file; none where there is no such file.
    fn host_open(&mut self, file_id: u64) -> (target: Option<CapHashOrRef>)
        ensures
            target == old(self).file(file_id),
            final(self).assist() == old(self).assist(),
            forall|id: u64| #[trigger] final(self).file(id) == old(self).file(id),
    ;

    /// Make a file of `target`, of `size` bytes, paid for from `quota_id`; nothing
    /// changes where that is refused.
    fn host_save(&mut self, target: CapHashOrRef, quota_id: QuotaId, size: u64) -> (file_id: Option<
        u64,
    >)
        ensures
            file_id == old(self).id_for(target, quota_id, size),
            forall|id: u64| #[trigger]
                final(self).file(id) == if file_id == Some(id) {
                    Some(target)
                } else {
                    old(self).file(id)
                },
            file_id is None ==> final(self).assist() == old(self).assist(),
            file_id is Some ==> old(self).assist().quota(quota_id) >= size && final(
                self).assist() == old(self).assist().with_quota(
                quota_id,
                (old(self).assist().quota(quota_id) - size) as u64,
            ),
    ;
}

/// The hash of the catcher that is made from a number.
pub open spec fn catcher_digest(nonce: u64) -> Seq<u8> {
    blake2b256(spec_u64_to_le_bytes(nonce))
}

/// Whether a hash is that of a catcher made from a number below `nonce`.
pub open spec fn minted_before(nonce: u64, hash: Seq<u8>) -> bool {
    exists|n: u64| n < nonce && hash == #[trigger] catcher_digest(n)
}

/// No meters, quotas or catchers.
pub open spec fn no_assist() -> AssistView {
    AssistView { meters: Map::empty(), quotas: Map::empty(), catchers: Map::empty() }
}

/// Files by their ids, and the id of the next.
#[derive(Debug)]
struct FileTable {
    files: HashMap<u64, CapHashOrRef>,
    next_id: u64,
}

impl FileTable {
    /// The next id is above all that are in use, until the last id there is was used.
    #[verifier::type_invariant]
    spec fn ids_are_ahead(self) -> bool {
        self.files@.contains_key(u64::MAX) || forall|id: u64| #[trigger]
            self.files@.contains_key(id) ==> id < self.next_id
    }

    fn new() -> (table: FileTable)
        ensures
            table.files@ == Map::<u64, CapHashOrRef>::empty(),
            table.next_id == 1,
    {
        broadcast use vstd::std_specs::hash::group_hash_axioms;

        FileTable { files: HashMap::new(), next_id: 1 }
    }

    fn get(&self, id: u64) -> (target: Option<CapHashOrRef>)
        ensures
            target == (if self.files@.contains_key(id) {
                Some(self.files@[id])
            } else {
                None
            }),
    {
        broadcast use vstd::std_specs::hash::group_hash_axioms;

        match self.files.get(&id) {
            Some(t) => Some(*t),
            None => None,
        }
    }

    /// Put a file under an id, and keep the next id ahead of it.
    fn register(&mut self, id: u64, target: CapHashOrRef)
        ensures
            final(self).files@ == old(self).files@.insert(id, target),
            final(self).next_id == if id >= old(self).next_id {
                id.wrapping_add(1)
            } else {
                old(self).next_id
            },
    {
        broadcast use vstd::std_specs::hash::group_hash_axioms;

        proof {
            use_type_invariant(&*self);
        }
        let mut files: HashMap<u64, CapHashOrRef> = HashMap::new();
        std::mem::swap(&mut files, &mut self.files);
        files.insert(id, target);
        if id >= self.next_id {
            self.next_id = id.wrapping_add(1);
        }
        self.files = files;
    }

    /// Put a file under the next id.
    fn append(&mut self, target: CapHashOrRef) -> (id: u64)
        ensures
            id == old(self).next_id,
            final(self).files@ == old(self).files@.insert(id, target),
            final(self).next_id == id.wrapping_add(1),
            !old(self).files@.contains_key(u64::MAX) ==> !old(self).files@.contains_key(id),
    {
        proof {
            use_type_invariant(&*self);
        }
        let id: u64 = self.next_id;
        self.register(id, target);
        id
    }
}

/// Kernel-assisted state in memory. It persists until `reset_block_state`.
#[derive(Debug)]
pub struct InProcessKernelAssist {
    gas_meters: HashMap<u64, u64>,
    storage_quotas: HashMap<u64, u64>,
    yield_catchers: HashTable<Vec<CapHash>>,
    next_yc_nonce: u64,
    images: HashTable<Arc<ImageCap>>,
    data_blobs: HashTable<Vec<u8>>,
    files: FileTable,
}

impl InProcessKernelAssist {
    /// The number that the next minted catcher is made from.
    pub closed spec fn nonce(&self) -> u64 {
        self.next_yc_nonce
    }

    /// The registered images.
    pub closed spec fn images(&self) -> Map<CapHash, Arc<ImageCap>> {
        self.images@
    }

    /// The stored bytes under `hash`.
    pub closed spec fn stored(&self, hash: CapHash) -> Option<Seq<u8>> {
        if self.data_blobs@.contains_key(hash) {
            Some(self.data_blobs@[hash]@)
        } else {
            None
        }
    }

    /// The registered files.
    pub closed spec fn files(&self) -> Map<u64, CapHashOrRef> {
        self.files.files@
    }

    /// The id of the next saved file.
    pub closed spec fn next_file_id(&self) -> u64 {
        self.files.next_id
    }

    /// Whether registries and counters are those of `before`.
    pub open spec fn registries_kept(&self, before: &Self) -> bool {
        &&& self.nonce() == before.nonce()
        &&& self.images() == before.images()
        &&& forall|h: CapHash| #[trigger] self.stored(h) == before.stored(h)
        &&& self.files() == before.files()
        &&& self.next_file_id() == before.next_file_id()
    }

    pub fn new() -> (k: Self)
        ensures
            k.assist() == no_assist(),
            k.nonce() == 0,
            k.images() == Map::<CapHash, Arc<ImageCap>>::empty(),
            forall|h: CapHash| #[trigger] k.stored(h) is None,
            k.files() == Map::<u64, CapHashOrRef>::empty(),
            k.next_file_id() == 1,
    {
        broadcast use vstd::std_specs::hash::group_hash_axioms;

        InProcessKernelAssist {
            gas_meters: HashMap::new(),
            storage_quotas: HashMap::new(),
            yield_catchers: HashTable::new(),
            next_yc_nonce: 0,
            images: HashTable::new(),
            data_blobs: HashTable::new(),
            files: FileTable::new(),
        }
    }

    /// Forget all meters, quotas and catchers. The catcher numbering goes on,
    /// so that catchers minted later are made from other numbers.
    pub fn reset_block_state(&mut self)
        ensures
            final(self).assist() == no_assist(),
            final(self).registries_kept(old(self)),
    {
        broadcast use vstd::std_specs::hash::group_hash_axioms;

        self.gas_meters.clear();
        self.storage_quotas.clear();
        self.yield_catchers.clear();
    }

    /// Register an image under its content hash.
    pub fn register_image(&mut self, content_hash: CapHash, image: Arc<ImageCap>)
        ensures
            final(self).images() == old(self).images().insert(content_hash, image),
            final(self).assist() == old(self).assist(),
            final(self).files() == old(self).files(),
            final(self).next_file_id() == old(self).next_file_id(),
            final(self).nonce() == old(self).nonce(),
            forall|h: CapHash| #[trigger] final(self).stored(h) == old(self).stored(h),
    {
        self.images.insert(content_hash, image);
    }

    /// Register bytes under a hash.
    pub fn register_data(&mut self, content_hash: CapHash, bytes: Vec<u8>)
        ensures
            forall|h: CapHash| #[trigger]
                final(self).stored(h) == if h == content_hash {
                    Some(bytes@)
                } else {
                    old(self).stored(h)
                },
            final(self).assist() == old(self).assist(),
            final(self).images() == old(self).images(),
            final(self).files() == old(self).files(),
            final(self).next_file_id() == old(self).next_file_id(),
            final(self).nonce() == old(self).nonce(),
    {
        self.data_blobs.insert(content_hash, bytes);
    }

    /// Register the data behind a file. Ids handed out later are above it,
    /// counting modulo 2^64.
    pub fn register_file(&mut self, file_id: u64, data: CapHashOrRef)
        ensures
            final(self).files() == old(self).files().insert(file_id, data),
            final(self).next_file_id() == if file_id >= old(self).next_file_id() {
                file_id.wrapping_add(1)
            } else {
                old(self).next_file_id()
            },
            final(self).assist() == old(self).assist(),
            final(self).images() == old(self).images(),
            final(self).nonce() == old(self).nonce(),
            forall|h: CapHash| #[trigger] final(self).stored(h) == old(self).stored(h),
    {
        self.files.register(file_id, data);
    }
}

impl Default for InProcessKernelAssist {
    fn default() -> (k: Self)
        ensures
            k.assist() == no_assist(),
            k.nonce() == 0,
            k.images() == Map::<CapHash, Arc<ImageCap>>::empty(),
            forall|h: CapHash| #[trigger] k.stored(h) is None,
            k.files() == Map::<u64, CapHashOrRef>::empty(),
            k.next_file_id() == 1,
    {
        InProcessKernelAssist::new()
    }
}

impl KernelAssist for InProcessKernelAssist {
    closed spec fn assist(&self) -> AssistView {
        AssistView {
            meters: self.gas_meters@,
            quotas: self.storage_quotas@,
            catchers: self.yield_catchers@.map_values(|v: Vec<CapHash>| v@),
        }
    }

    open spec fn file(&self, file_id: u64) -> Option<CapHashOrRef> {
        if self.files().contains_key(file_id) {
            Some(self.files()[file_id])
        } else {
            None
        }
    }

    open spec fn id_for(&self, target: CapHashOrRef, quota_id: QuotaId, size: u64) -> Option<u64> {
        if self.assist().quota(quota_id) >= size {
            Some(self.next_file_id())
        } else {
            None
        }
    }

    fn gas_meter_get(&self, meter_id: MeterId) -> u64 {
        broadcast use vstd::std_specs::hash::group_hash_axioms;

        match self.gas_meters.get(&meter_id) {
            Some(v) => *v,
            None => 0,
        }
    }

    fn gas_meter_set(&mut self, meter_id: MeterId, value: u64) -> (previous: u64)
        ensures
            final(self).registries_kept(old(self)),
    {
        broadcast use vstd::std_specs::hash::group_hash_axioms;

        match self.gas_meters.insert(meter_id, value) {
            Some(v) => v,
            None => 0,
        }
    }

    fn storage_quota_get(&self, quota_id: QuotaId) -> u64 {
        broadcast use vstd::std_specs::hash::group_hash_axioms;

        match self.storage_quotas.get(&quota_id) {
            Some(v) => *v,
            None => 0,
        }
    }

    fn storage_quota_set(&mut self, quota_id: QuotaId, value: u64) -> (previous: u64)
        ensures
            final(self).registries_kept(old(self)),
    {
        broadcast use vstd::std_specs::hash::group_hash_axioms;

        match self.storage_quotas.insert(quota_id, value) {
            Some(v) => v,
            None => 0,
        }
    }

    fn yield_catcher_markers(&self, catcher_hash: CapHash) -> Vec<CapHash> {
        let mut copy: Vec<CapHash> = Vec::new();
        match self.yield_catchers.get(&catcher_hash) {
            Some(markers) => {
                let mut i: usize = 0;
                while i < markers.len()
                    invariant
                        i <= markers@.len(),
                        copy@ == markers@.take(i as int),
                    decreases markers@.len() - i,
                {
                    copy.push(markers[i]);
                    i = i + 1;
                }
                assert(copy@ =~= markers@);
            },
            None => {},
        }
        copy
    }

    fn yield_catcher_add(&mut self, catcher_hash: CapHash, marker_instance_hash: CapHash)
        ensures
            final(self).registries_kept(old(self)),
    {
        let mut markers: Vec<CapHash> = match self.yield_catchers.remove(&catcher_hash) {
            Some(m) => m,
            None => Vec::new(),
        };
        if !contains_hash(markers.as_slice(), &marker_instance_hash) {
            markers.push(marker_instance_hash);
        }
        self.yield_catchers.insert(catcher_hash, markers);
        assert(self.assist().catchers =~= old(self).assist().with_markers(
            catcher_hash,
            marker_added(old(self).assist().markers(catcher_hash), marker_instance_hash),
        ).catchers);
    }

    fn yield_catcher_remove(&mut self, catcher_hash: CapHash, marker_instance_hash: CapHash)
        ensures
            final(self).registries_kept(old(self)),
    {
        match self.yield_catchers.remove(&catcher_hash) {
            Some(markers) => {
                let mut kept: Vec<CapHash> = Vec::new();
                let mut i: usize = 0;
                while i < markers.len()
                    invariant
                        i <= markers@.len(),
                        kept@ == marker_removed(markers@.take(i as int), marker_instance_hash),
                    decreases markers@.len() - i,
                {
                    assert(markers@.take(i + 1).drop_last() =~= markers@.take(i as int));
                    if !same_hash(&markers[i], &marker_instance_hash) {
                        kept.push(markers[i]);
                    }
                    i = i + 1;
                }
                assert(markers@.take(i as int) =~= markers@);
                self.yield_catchers.insert(catcher_hash, kept);
                assert(self.assist().catchers =~= old(self).assist().with_markers(
                    catcher_hash,
                    marker_removed(old(self).assist().markers(catcher_hash), marker_instance_hash),
                ).catchers);
            },
            None => {
                assert(self.assist().catchers =~= old(self).assist().catchers);
            },
        }
    }

    fn yield_catcher_new(&mut self) -> (catcher: CapHash)
        ensures
            catcher@ == catcher_digest(old(self).nonce()),
            final(self).nonce() == old(self).nonce().wrapping_add(1),
            final(self).images() == old(self).images(),
            final(self).files() == old(self).files(),
            final(self).next_file_id() == old(self).next_file_id(),
            forall|h: CapHash| #[trigger] final(self).stored(h) == old(self).stored(h),
    {
        let nonce: u64 = self.next_yc_nonce;
        self.next_yc_nonce = nonce.wrapping_add(1);
        let bytes = u64_to_le_bytes(nonce);
        let hash = Blake2b256::hash(bytes.as_slice());
        self.yield_catchers.insert(hash, Vec::new());
        assert(self.assist().catchers =~= old(self).assist().with_markers(
            hash,
            Seq::empty(),
        ).catchers);
        hash
    }

    fn image_lookup(&self, content_hash: CapHash) -> (image: Option<Arc<ImageCap>>)
        ensures
            image == (if self.images().contains_key(content_hash) {
                Some(self.images()[content_hash])
            } else {
                None
            }),
    {
        match self.images.get(&content_hash) {
            Some(i) => Some(Arc::clone(i)),
            None => None,
        }
    }

    fn data_lookup(&self, content_hash: CapHash) -> (bytes: Option<Vec<u8>>)
        ensures
            bytes is Some <==> self.stored(content_hash) is Some,
            bytes matches Some(b) ==> Some(b@) == self.stored(content_hash),
    {
        match self.data_blobs.get(&content_hash) {
            Some(b) => Some(copy_bytes(b.as_slice())),
            None => None,
        }
    }

    fn data_store(&mut self, bytes: &[u8]) -> (hash: CapHash)
        ensures
            forall|h: CapHash| #[trigger]
                final(self).stored(h) == if h == hash {
                    Some(bytes@)
                } else {
                    old(self).stored(h)
                },
            final(self).images() == old(self).images(),
            final(self).files() == old(self).files(),
            final(self).next_file_id() == old(self).next_file_id(),
            final(self).nonce() == old(self).nonce(),
    {
        let hash = Blake2b256::hash(bytes);
        self.data_blobs.insert(hash, copy_bytes(bytes));
        hash
    }

    fn host_open(&mut self, file_id: u64) -> (target: Option<CapHashOrRef>)
        ensures
            *final(self) == *old(self),
    {
        self.files.get(file_id)
    }

    fn host_save(&mut self, target: CapHashOrRef, quota_id: QuotaId, size: u64) -> (file_id: Option<
        u64,
    >)
        ensures
            file_id is None ==> final(self).registries_kept(old(self)),
            file_id matches Some(id) ==> {
                &&& !old(self).files().contains_key(u64::MAX) ==> !old(self).files().contains_key(id)
                &&& final(self).files() == old(self).files().insert(id, target)
                &&& final(self).next_file_id() == id.wrapping_add(1)
                &&& final(self).nonce() == old(self).nonce()
                &&& final(self).images() == old(self).images()
                &&& forall|h: CapHash| #[trigger] final(self).stored(h) == old(self).stored(h)
            },
    {
        broadcast use vstd::std_specs::hash::group_hash_axioms;

        let left: u64 = match self.storage_quotas.get(&quota_id) {
            Some(v) => *v,
            None => 0,
        };
        if left < size {
            return None;
        }
        self.storage_quotas.insert(quota_id, left - size);
        let id: u64 = self.files.append(target);
        Some(id)
    }
}

/// The images that the kernel recognizes by their hash.
#[derive(Clone, Copy, Debug, PartialEq, Eq, Hash, Structural)]
pub enum KernelImage {
    GasMeter,
    StorageQuota,
    YieldCatcher,
    /// Handle to a gas meter.
    Gas,
    /// Handle to a storage quota.
    Quota,
    SetGasMeter,
    SetStorageQuota,
    MintGas,
    MintQuota,
    CreateYieldCatcher,
    OogMarker,
    StorageExhaustedMarker,
    /// Handle to a file.
    File,
    HostOpen,
    HostSave,
}

/// The label that stands for a kernel image.
pub open spec fn kernel_label(kind: KernelImage) -> Seq<char> {
    match kind {
        KernelImage::GasMeter => "kernel:gasmeter"@,
        KernelImage::StorageQuota => "kernel:storagequota"@,
        KernelImage::YieldCatcher => "kernel:yieldcatcher"@,
        KernelImage::Gas => "kernel:gas"@,
        KernelImage::Quota => "kernel:quota"@,
        KernelImage::SetGasMeter => "kernel:set_gas_meter"@,
        KernelImage::SetStorageQuota => "kernel:set_storage_quota"@,
        KernelImage::MintGas => "kernel:mint_gas"@,
        KernelImage::MintQuota => "kernel:mint_quota"@,
        KernelImage::CreateYieldCatcher => "kernel:create_yield_catcher"@,
        KernelImage::OogMarker => "kernel:oog_marker"@,
        KernelImage::StorageExhaustedMarker => "kernel:storage_exhausted_marker"@,
        KernelImage::File => "kernel:file"@,
        KernelImage::HostOpen => "kernel:host_open"@,
        KernelImage::HostSave => "kernel:host_save"@,
    }
}

/// The label of a kernel image.
pub fn const_kernel_image_label(kind: KernelImage) -> (label: &'static str)
    ensures
        label@ == kernel_label(kind),
{
    match kind {
        KernelImage::GasMeter => "kernel:gasmeter",
        KernelImage::StorageQuota => "kernel:storagequota",
        KernelImage::YieldCatcher => "kernel:yieldcatcher",
        KernelImage::Gas => "kernel:gas",
        KernelImage::Quota => "kernel:quota",
        KernelImage::SetGasMeter => "kernel:set_gas_meter",
        KernelImage::SetStorageQuota => "kernel:set_storage_quota",
        KernelImage::MintGas => "kernel:mint_gas",
        KernelImage::MintQuota => "kernel:mint_quota",
        KernelImage::CreateYieldCatcher => "kernel:create_yield_catcher",
        KernelImage::OogMarker => "kernel:oog_marker",
        KernelImage::StorageExhaustedMarker => "kernel:storage_exhausted_marker",
        KernelImage::File => "kernel:file",
        KernelImage::HostOpen => "kernel:host_open",
        KernelImage::HostSave => "kernel:host_save",
    }
}

/// The hash of a kernel image: the digest of its label.
pub open spec fn kernel_hash(kind: KernelImage) -> Seq<u8> {
    blake2b256(encode_utf8(kernel_label(kind)))
}

/// The hash by which a kernel image is recognized.
pub fn kernel_image_hash(kind: KernelImage) -> (hash: CapHash)
    ensures
        hash@ == kernel_hash(kind),
{
    Blake2b256::hash(const_kernel_image_label(kind).as_bytes())
}

/// The kernel images in the order in which they are tried.
pub open spec fn kernel_images() -> Seq<KernelImage> {
    seq![
        KernelImage::GasMeter,
        KernelImage::StorageQuota,
        KernelImage::YieldCatcher,
        KernelImage::Gas,
        KernelImage::Quota,
        KernelImage::SetGasMeter,
        KernelImage::SetStorageQuota,
        KernelImage::MintGas,
        KernelImage::MintQuota,
        KernelImage::CreateYieldCatcher,
        KernelImage::OogMarker,
        KernelImage::StorageExhaustedMarker,
        KernelImage::File,
        KernelImage::HostOpen,
        KernelImage::HostSave,
    ]
}

/// The first of `kinds` with the given hash.
pub open spec fn first_with_hash(kinds: Seq<KernelImage>, hash: Seq<u8>) -> Option<KernelImage>
    decreases kinds.len(),
{
    if kinds.len() == 0 {
        None
    } else if kernel_hash(kinds.first()) == hash {
        Some(kinds.first())
    } else {
        first_with_hash(kinds.drop_first(), hash)
    }
}

/// The kernel image with the given hash, if it is one.
pub fn recognize_kernel_image(hash: CapHash) -> (kind: Option<KernelImage>)
    ensures
        kind == first_with_hash(kernel_images(), hash@),
        kind is None <==> forall|other: KernelImage| #[trigger] kernel_hash(other) != hash@,
        kind matches Some(k) ==> kernel_hash(k) == hash@,
{
    proof {
        lemma_recognized(hash@);
    }
    let kinds: [KernelImage; 15] = [
        KernelImage::GasMeter,
        KernelImage::StorageQuota,
        KernelImage::YieldCatcher,
        KernelImage::Gas,
        KernelImage::Quota,
        KernelImage::SetGasMeter,
        KernelImage::SetStorageQuota,
        KernelImage::MintGas,
        KernelImage::MintQuota,
        KernelImage::CreateYieldCatcher,
        KernelImage::OogMarker,
        KernelImage::StorageExhaustedMarker,
        KernelImage::File,
        KernelImage::HostOpen,
        KernelImage::HostSave,
    ];
    assert(kinds@ =~= kernel_images());
    assert(kinds@.skip(0) =~= kinds@);
    let mut i: usize = 0;
    while i < 15
        invariant
            i <= 15,
            kinds@ == kernel_images(),
            first_with_hash(kinds@, hash@) == first_with_hash(kinds@.skip(i as int), hash@),
        decreases 15 - i,
    {
        assert(kinds@.skip(i as int).first() == kinds@[i as int]);
        assert(kinds@.skip(i as int).drop_first() =~= kinds@.skip(i + 1));
        let candidate = kernel_image_hash(kinds[i]);
        if same_hash(&candidate, &hash) {
            return Some(kinds[i]);
        }
        i = i + 1;
    }
    None
}

proof fn lemma_first_with_hash(kinds: Seq<KernelImage>, hash: Seq<u8>, at: int)
    requires
        0 <= at < kinds.len(),
        kernel_hash(kinds[at]) == hash,
    ensures
        first_with_hash(kinds, hash) is Some,
        kernel_hash(first_with_hash(kinds, hash)->0) == hash,
    decreases kinds.len(),
{
    if kernel_hash(kinds.first()) != hash {
        assert(kinds.drop_first()[at - 1] == kinds[at]);
        lemma_first_with_hash(kinds.drop_first(), hash, at - 1);
    }
}

/// Where a kernel image stands among those that are tried.
spec fn place_of(kind: KernelImage) -> int {
    match kind {
        KernelImage::GasMeter => 0,
        KernelImage::StorageQuota => 1,
        KernelImage::YieldCatcher => 2,
        KernelImage::Gas => 3,
        KernelImage::Quota => 4,
        KernelImage::SetGasMeter => 5,
        KernelImage::SetStorageQuota => 6,
        KernelImage::MintGas => 7,
        KernelImage::MintQuota => 8,
        KernelImage::CreateYieldCatcher => 9,
        KernelImage::OogMarker => 10,
        KernelImage::StorageExhaustedMarker => 11,
        KernelImage::File => 12,
        KernelImage::HostOpen => 13,
        KernelImage::HostSave => 14,
    }
}

proof fn lemma_found_has_hash(kinds: Seq<KernelImage>, hash: Seq<u8>)
    ensures
        first_with_hash(kinds, hash) matches Some(k) ==> kernel_hash(k) == hash,
    decreases kinds.len(),
{
    if kinds.len() > 0 && kernel_hash(kinds.first()) != hash {
        lemma_found_has_hash(kinds.drop_first(), hash);
    }
}

proof fn lemma_recognized(hash: Seq<u8>)
    ensures
        first_with_hash(kernel_images(), hash) is None <==> forall|other: KernelImage| #[trigger]
            kernel_hash(other) != hash,
        first_with_hash(kernel_images(), hash) matches Some(k) ==> kernel_hash(k) == hash,
{
    lemma_found_has_hash(kernel_images(), hash);
    assert forall|kind: KernelImage| #[trigger] kernel_hash(kind) == hash implies first_with_hash(
        kernel_images(),
        hash,
    ) is Some by {
        assert(kernel_images()[place_of(kind)] == kind);
        lemma_first_with_hash(kernel_images(), hash, place_of(kind));
    }
}

/// No two kernel images have the same label.
proof fn lemma_labels_differ(a: KernelImage, b: KernelImage)
    requires
        kernel_label(a) == kernel_label(b),
    ensures
        a == b,
{
    reveal_strlit("kernel:gasmeter");
    reveal_strlit("kernel:storagequota");
    reveal_strlit("kernel:yieldcatcher");
    reveal_strlit("kernel:gas");
    reveal_strlit("kernel:quota");
    reveal_strlit("kernel:set_gas_meter");
    reveal_strlit("kernel:set_storage_quota");
    reveal_strlit("kernel:mint_gas");
    reveal_strlit("kernel:mint_quota");
    reveal_strlit("kernel:create_yield_catcher");
    reveal_strlit("kernel:oog_marker");
    reveal_strlit("kernel:storage_exhausted_marker");
    reveal_strlit("kernel:file");
    reveal_strlit("kernel:host_open");
    reveal_strlit("kernel:host_save");
    let x = kernel_label(a);
    let y = kernel_label(b);
    assert(x.len() == y.len());
    assert(x[7] == y[7]);
    assert(x[8] == y[8]);
    assert(x[12] == y[12]);
}

/// Every kernel image is recognized from its hash, where the digests of the labels do
/// not collide; a hash that no kernel image has is not recognized.
pub proof fn law_kernel_images_are_recognized(kind: KernelImage, hash: Seq<u8>)
    requires
        forall|other: KernelImage|
            no_collision(
                #[trigger] encode_utf8(kernel_label(other)),
                encode_utf8(kernel_label(kind)),
            ),
    ensures
        first_with_hash(kernel_images(), kernel_hash(kind)) == Some(kind),
        first_with_hash(kernel_images(), hash) is None <==> forall|other: KernelImage| #[trigger]
            kernel_hash(other) != hash,
{
    lemma_recognized(hash);
    lemma_recognized(kernel_hash(kind));
    assert(kernel_hash(kind) == kernel_hash(kind));
    let found = first_with_hash(kernel_images(), kernel_hash(kind))->0;
    assert(kernel_hash(found) == kernel_hash(kind));
    assert(no_collision(encode_utf8(kernel_label(found)), encode_utf8(kernel_label(kind))));
    vstd::utf8::encode_utf8_decode_utf8(kernel_label(found));
    vstd::utf8::encode_utf8_decode_utf8(kernel_label(kind));
    lemma_labels_differ(found, kind);
}

/// A minted catcher is new: where the digests of numbers do not collide, no catcher made
/// from an earlier number has its hash. What was minted stays minted as the numbers go
/// on. The new catcher catches nothing, and the others catch what they did.
pub proof fn law_minted_catcher_is_new(nonce: u64, later: u64, a: AssistView, catcher: CapHash)
    requires
        forall|n: u64|
            no_collision(#[trigger] spec_u64_to_le_bytes(n), spec_u64_to_le_bytes(nonce)),
        nonce < later,
        catcher@ == catcher_digest(nonce),
    ensures
        !minted_before(nonce, catcher@),
        minted_before(later, catcher@),
        forall|h: Seq<u8>| minted_before(nonce, h) ==> #[trigger] minted_before(later, h),
        a.with_markers(catcher, Seq::empty()).markers(catcher) == Seq::<CapHash>::empty(),
        forall|other: CapHash|
            other != catcher ==> #[trigger] a.with_markers(catcher, Seq::empty()).markers(other)
                == a.markers(other),
{
    vstd::bytes::lemma_auto_spec_u64_to_from_le_bytes();
    if minted_before(nonce, catcher@) {
        let n = choose|n: u64| n < nonce && catcher@ == #[trigger] catcher_digest(n);
        assert(no_collision(spec_u64_to_le_bytes(n), spec_u64_to_le_bytes(nonce)));
        assert(vstd::bytes::spec_u64_from_le_bytes(spec_u64_to_le_bytes(n)) == n);
        assert(vstd::bytes::spec_u64_from_le_bytes(spec_u64_to_le_bytes(nonce)) == nonce);
    }
    assert forall|h: Seq<u8>| minted_before(nonce, h) implies #[trigger] minted_before(
        later,
        h,
    ) by {
        let n = choose|n: u64| n < nonce && h == #[trigger] catcher_digest(n);
        assert(n < later && h == catcher_digest(n));
    }
}

/// Adding a marker twice is adding it once.
pub proof fn law_marker_add_is_idempotent(markers: Seq<CapHash>, marker: CapHash)
    ensures
        marker_added(marker_added(markers, marker), marker) == marker_added(markers, marker),
        marker_added(markers, marker).contains(marker),
        forall|other: CapHash|
            other != marker ==> (#[trigger] marker_added(markers, marker).contains(other)
                <==> markers.contains(other)),
{
    if !markers.contains(marker) {
        let added = marker_added(markers, marker);
        assert(markers.push(marker).last() == marker);
        assert forall|other: CapHash| other != marker implies (#[trigger] added.contains(other)
            <==> markers.contains(other)) by {
            lemma_contains_drop_last(added, other);
            assert(added.drop_last() =~= markers);
        }
    }
}

proof fn lemma_contains_drop_last(s: Seq<CapHash>, m: CapHash)
    requires
        s.len() > 0,
    ensures
        s.contains(m) <==> s.drop_last().contains(m) || s.last() == m,
{
    if s.contains(m) && s.last() != m {
        let i = choose|i: int| 0 <= i < s.len() && s[i] == m;
        assert(s.drop_last()[i] == m);
    }
    if s.drop_last().contains(m) {
        let i = choose|i: int| 0 <= i < s.drop_last().len() && s.drop_last()[i] == m;
        assert(s[i] == m);
    }
}

/// After a marker was removed it is no longer caught; every other marker is
/// caught as before.
pub proof fn law_marker_remove(markers: Seq<CapHash>, marker: CapHash)
    ensures
        !marker_removed(markers, marker).contains(marker),
        forall|other: CapHash|
            other != marker ==> (#[trigger] marker_removed(markers, marker).contains(other)
                <==> markers.contains(other)),
    decreases markers.len(),
{
    if markers.len() > 0 {
        law_marker_remove(markers.drop_last(), marker);
        let rest = marker_removed(markers.drop_last(), marker);
        let removed = marker_removed(markers, marker);
        assert forall|m: CapHash| #[trigger] removed.contains(m) <==> m != marker
            && markers.contains(m) by {
            lemma_contains_drop_last(markers, m);
            if markers.last() != marker {
                assert(removed.drop_last() =~= rest);
                lemma_contains_drop_last(removed, m);
            }
            assert(rest.contains(m) <==> m != marker && markers.drop_last().contains(m));
        }
    }
}

/// A meter reads as what it was last set to, and setting it leaves every other
/// meter, every quota and every catcher as it was; quotas likewise.
pub proof fn law_meters_and_quotas(a: AssistView, id: u64, other: u64, value: u64)
    ensures
        a.with_meter(id, value).meter(id) == value,
        other != id ==> a.with_meter(id, value).meter(other) == a.meter(other),
        a.with_meter(id, value).quotas == a.quotas,
        a.with_meter(id, value).catchers == a.catchers,
        a.with_quota(id, value).quota(id) == value,
        other != id ==> a.with_quota(id, value).quota(other) == a.quota(other),
        a.with_quota(id, value).meters == a.meters,
        a.with_quota(id, value).catchers == a.catchers,
{
}

} // verus!
