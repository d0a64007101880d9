//! 32-byte content hashes and the Blake2b-256 digest behind them.
use vstd::prelude::*;

verus! {

/// Content hash of a published cap.
pub type CapHash = [u8; 32];

/// The Blake2b digest with a 32-byte output.
pub uninterp spec fn blake2b256(bytes: Seq<u8>) -> Seq<u8>;

/// Calls `blake2::Digest::digest` for `Blake2b<U32>`. Claims that the output
/// depends on the input bytes alone, and names it `blake2b256`; the
/// compression function itself is not spelled out.
#[verifier::external_body]
fn blake2b256_digest(bytes: &[u8]) -> (digest: [u8; 32])
    ensures
        digest@ == blake2b256(bytes@),
{
    <blake2::Blake2b<blake2::digest::consts::U32> as blake2::Digest>::digest(bytes).into()
}

/// The hash function of the cap system.
pub struct Blake2b256;

impl Blake2b256 {
    /// Digest of `bytes`.
    pub fn hash(bytes: &[u8]) -> (digest: CapHash)
        ensures
            digest@ == blake2b256(bytes@),
    {
        blake2b256_digest(bytes)
    }

    /// Digest of `left` followed by `right`: the step that extends an
    /// image-hash chain.
    pub fn hash_pair(left: &CapHash, right: &CapHash) -> (digest: CapHash)
        ensures
            digest@ == hash_pair_of(left@, right@),
    {
        let mut joined: Vec<u8> = Vec::new();
        let mut i: usize = 0;
        while i < 32
            invariant
                i <= 32,
                joined@ == left@.take(i as int),
            decreases 32 - i,
        {
            joined.push(left[i]);
            i = i + 1;
        }
        let mut j: usize = 0;
        while j < 32
            invariant
                j <= 32,
                joined@ == left@ + right@.take(j as int),
            decreases 32 - j,
        {
            joined.push(right[j]);
            j = j + 1;
        }
        assert(joined@ =~= left@ + right@);
        blake2b256_digest(joined.as_slice())
    }
}

/// Whether the digests of two byte strings tell them apart.
pub open spec fn no_collision(a: Seq<u8>, b: Seq<u8>) -> bool {
    blake2b256(a) == blake2b256(b) ==> a == b
}

/// What `Blake2b256::hash_pair` returns.
pub open spec fn hash_pair_of(left: Seq<u8>, right: Seq<u8>) -> Seq<u8> {
    blake2b256(left + right)
}

/// The hash with the given bytes.
pub open spec fn hash_of_bytes(bytes: Seq<u8>) -> CapHash {
    choose|h: CapHash| h@ == bytes
}

/// A hash is determined by its bytes.
pub proof fn lemma_hash_of_bytes(h: CapHash)
    ensures
        hash_of_bytes(h@) == h,
{
    let g = hash_of_bytes(h@);
    assert(g@ == h@);
    assert(g =~= h);
}

/// Byte-wise equality of two hashes.
pub fn same_hash(a: &CapHash, b: &CapHash) -> (same: bool)
    ensures
        same == (*a == *b),
        same == (a@ == b@),
{
    let mut i: usize = 0;
    while i < 32
        invariant
            i <= 32,
            forall|j: int| 0 <= j < i ==> a@[j] == b@[j],
        decreases 32 - i,
    {
        if a[i] != b[i] {
            return false;
        }
        i = i + 1;
    }
    assert(*a =~= *b);
    true
}

/// Whether `hash` occurs in `hashes`.
pub fn contains_hash(hashes: &[CapHash], hash: &CapHash) -> (found: bool)
    ensures
        found == hashes@.contains(*hash),
{
    let mut i: usize = 0;
    while i < hashes.len()
        invariant
            i <= hashes@.len(),
            forall|j: int| 0 <= j < i ==> hashes@[j] != *hash,
        decreases hashes@.len() - i,
    {
        if same_hash(&hashes[i], hash) {
            return true;
        }
        i = i + 1;
    }
    false
}

/// A chain tells its whole history: where digests do not collide, two extended chains
/// are equal exactly if the chains were and the same image was added.
pub proof fn law_chains_tell_their_history(a: CapHash, b: CapHash, added: CapHash, other: CapHash)
    requires
        no_collision(a@ + added@, b@ + other@),
    ensures
        hash_pair_of(a@, added@) == hash_pair_of(b@, other@) <==> a == b && added == other,
{
    if hash_pair_of(a@, added@) == hash_pair_of(b@, other@) {
        assert((a@ + added@).take(32) =~= a@);
        assert((b@ + other@).take(32) =~= b@);
        assert((a@ + added@).skip(32) =~= added@);
        assert((b@ + other@).skip(32) =~= other@);
        assert(a =~= b);
        assert(added =~= other);
    }
}

} // verus!
