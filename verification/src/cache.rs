//! The directory of published caps.
use vstd::prelude::*;

use std::collections::HashMap;

use crate::cap::{CNodeCap, Cap, CapHashOrRef, CapRef};
use crate::error::CacheError;
use crate::hash::CapHash;
use crate::table::HashTable;

verus! {

/// Published caps by content hash, and live caps by reference. `content_hash`
/// computes the content hash of a cap; every statement below holds of any such
/// function.
pub struct CacheDirectory<H> {
    content_hash: H,
    blobs: HashTable<Cap>,
    live: HashMap<u64, Cap>,
}

/// Whether a cap can be content-hashed: it holds no live reference.
pub open spec fn settled(cap: Cap) -> bool {
    match cap {
        Cap::CNode(c) => forall|i: int|
            0 <= i < c.slots@.len() ==> !(#[trigger] c.slots@[i] matches Some(CapHashOrRef::Ref(_))),
        Cap::Instance(i) => i.root_cnode is Hash,
        _ => true,
    }
}

/// Whether the content of a data cap is complete.
pub open spec fn cap_wf(cap: Cap) -> bool {
    cap matches Cap::Data(d) ==> d.wf()
}

/// Whether every data cap of a table is complete.
pub open spec fn caps_wf<Key>(caps: Map<Key, Cap>) -> bool {
    forall|k: Key| #[trigger] caps.contains_key(k) ==> cap_wf(caps[k])
}

/// What `target` names among published caps and live caps.
pub open spec fn cap_at(
    blobs: Map<CapHash, Cap>,
    live: Map<u64, Cap>,
    target: CapHashOrRef,
) -> Option<Cap> {
    match target {
        CapHashOrRef::Hash(h) => if blobs.contains_key(h) {
            Some(blobs[h])
        } else {
            None
        },
        CapHashOrRef::Ref(r) => if live.contains_key(r.0) {
            Some(live[r.0])
        } else {
            None
        },
    }
}

/// Whether a content-hash function may be called on any cap.
pub open spec fn callable<H: Fn(&Cap) -> CapHash>(content_hash: H) -> bool {
    forall|cap: &Cap| call_requires(content_hash, (cap,))
}

impl<H: Fn(&Cap) -> CapHash> CacheDirectory<H> {
    /// The content-hash function.
    pub closed spec fn hasher(&self) -> H {
        self.content_hash
    }

    /// The content-hash function may be called on any cap, and the data caps in
    /// the directory are complete.
    pub open spec fn wf(&self) -> bool {
        &&& callable(self.hasher())
        &&& caps_wf(self.blobs())
        &&& caps_wf(self.live())
    }

    /// The published caps.
    pub closed spec fn blobs(&self) -> Map<CapHash, Cap> {
        self.blobs@
    }

    /// The live caps.
    pub closed spec fn live(&self) -> Map<u64, Cap> {
        self.live@
    }

    /// Whether `hash` is a content hash of `cap`.
    pub open spec fn addresses(&self, cap: Cap, hash: CapHash) -> bool {
        call_ensures(self.hasher(), (&cap,), hash)
    }

    /// The cap that `target` names.
    pub open spec fn at(&self, target: CapHashOrRef) -> Option<Cap> {
        cap_at(self.blobs(), self.live(), target)
    }

    /// Whether `self` is `before` with `cap` published under `hash`.
    pub open spec fn published(&self, before: &Self, cap: Cap, hash: CapHash) -> bool {
        &&& self.blobs() == before.blobs().insert(hash, cap)
        &&& self.live() == before.live()
        &&& self.hasher() == before.hasher()
    }

    /// Whether `self` holds what `before` held.
    pub open spec fn same(&self, before: &Self) -> bool {
        &&& self.blobs() == before.blobs()
        &&& self.live() == before.live()
        &&& self.hasher() == before.hasher()
    }

    /// An empty directory.
    pub fn new(content_hash: H) -> (cache: Self)
        requires
            callable(content_hash),
        ensures
            cache.wf(),
            cache.hasher() == content_hash,
            cache.blobs() == Map::<CapHash, Cap>::empty(),
            cache.live() == Map::<u64, Cap>::empty(),
    {
        broadcast use vstd::std_specs::hash::group_hash_axioms;

        CacheDirectory { content_hash, blobs: HashTable::new(), live: HashMap::new() }
    }

    /// The cap that `target` names.
    pub fn get(&self, target: CapHashOrRef) -> (cap: Option<&Cap>)
        ensures
            cap == (match self.at(target) {
                Some(c) => Some(&c),
                None => None,
            }),
    {
        broadcast use vstd::std_specs::hash::group_hash_axioms;

        match target {
            CapHashOrRef::Hash(h) => self.blobs.get(&h),
            CapHashOrRef::Ref(r) => self.live.get(&r.0),
        }
    }

    /// Whether `cap` holds no live reference.
    fn is_settled(cap: &Cap) -> (ok: bool)
        ensures
            ok == settled(*cap),
    {
        match cap {
            Cap::CNode(c) => Self::cnode_settled(c),
            Cap::Instance(i) => match i.root_cnode {
                CapHashOrRef::Hash(_) => true,
                CapHashOrRef::Ref(_) => false,
            },
            _ => true,
        }
    }

    fn cnode_settled(c: &CNodeCap) -> (ok: bool)
        ensures
            ok == (forall|i: int|
                0 <= i < c.slots@.len() ==> !(#[trigger] c.slots@[i] matches Some(
                    CapHashOrRef::Ref(_),
                ))),
    {
        let mut i: usize = 0;
        while i < c.slots.len()
            invariant
                i <= c.slots@.len(),
                forall|j: int|
                    0 <= j < i ==> !(#[trigger] c.slots@[j] matches Some(CapHashOrRef::Ref(_))),
            decreases c.slots@.len() - i,
        {
            match c.slots[i] {
                Some(CapHashOrRef::Ref(_)) => {
                    assert(c.slots@[i as int] matches Some(CapHashOrRef::Ref(_)));
                    return false;
                },
                _ => {},
            }
            i = i + 1;
        }
        true
    }

    /// The content hash of `cap`.
    pub fn hash_of(&self, cap: &Cap) -> (hash: CapHash)
        requires
            self.wf(),
        ensures
            self.addresses(*cap, hash),
    {
        (self.content_hash)(cap)
    }

    /// Publish `cap` under its content hash. Refused, with nothing changed,
    /// while the cap still holds a live reference.
    pub fn put_cap(&mut self, cap: Cap) -> (r: Result<CapHash, CacheError>)
        requires
            old(self).wf(),
            cap_wf(cap),
        ensures
            final(self).wf(),
            r is Ok <==> settled(cap),
            r matches Ok(h) ==> old(self).addresses(cap, h) && final(self).published(
                old(self),
                cap,
                h,
            ),
            r matches Err(e) ==> e == CacheError::HasRef && final(self).same(old(self)),
    {
        if !Self::is_settled(&cap) {
            return Err(CacheError::HasRef);
        }
        let hash = self.hash_of(&cap);
        self.blobs.insert(hash, cap);
        Ok(hash)
    }

    /// Publish `cap` under a hash that the caller computed.
    pub fn put_cap_with_hash(&mut self, hash: CapHash, cap: Cap) -> (r: Result<(), CacheError>)
        requires
            old(self).wf(),
            cap_wf(cap),
        ensures
            final(self).wf(),
            r is Ok <==> settled(cap),
            r is Ok ==> final(self).published(old(self), cap, hash),
            r matches Err(e) ==> e == CacheError::HasRef && final(self).same(old(self)),
    {
        if !Self::is_settled(&cap) {
            return Err(CacheError::HasRef);
        }
        self.blobs.insert(hash, cap);
        Ok(())
    }

    /// Keep `cap` under a live reference.
    pub fn put_live(&mut self, at: CapRef, cap: Cap)
        requires
            old(self).wf(),
            cap_wf(cap),
        ensures
            final(self).wf(),
            final(self).live() == old(self).live().insert(at.0, cap),
            final(self).blobs() == old(self).blobs(),
            final(self).hasher() == old(self).hasher(),
    {
        broadcast use vstd::std_specs::hash::group_hash_axioms;

        self.live.insert(at.0, cap);
    }

    /// The content hash that stands for `target`: a hash stands for itself, a
    /// live cap is published and leaves the live table.
    pub fn settle(&mut self, target: CapHashOrRef) -> (r: Result<CapHash, CacheError>)
        requires
            old(self).wf(),
        ensures
            final(self).wf(),
            target matches CapHashOrRef::Hash(h) ==> r == Ok::<CapHash, CacheError>(h) && final(self).same(old(self)),
            target matches CapHashOrRef::Ref(live) ==> match old(self).at(target) {
                None => r == Err::<CapHash, CacheError>(CacheError::UnknownRef(live.0)) && final(self).same(old(self)),
                Some(cap) => if settled(cap) {
                    &&& r is Ok
                    &&& old(self).addresses(cap, r->Ok_0)
                    &&& final(self).blobs() == old(self).blobs().insert(r->Ok_0, cap)
                    &&& final(self).live() == old(self).live().remove(live.0)
                    &&& final(self).hasher() == old(self).hasher()
                } else {
                    r == Err::<CapHash, CacheError>(CacheError::HasRef) && final(self).same(
                        old(self),
                    )
                },
            },
    {
        broadcast use vstd::std_specs::hash::group_hash_axioms;

        match target {
            CapHashOrRef::Hash(h) => Ok(h),
            CapHashOrRef::Ref(live) => {
                let ok: bool = match self.live.get(&live.0) {
                    Some(cap) => Self::is_settled(cap),
                    None => {
                        return Err(CacheError::UnknownRef(live.0));
                    },
                };
                if !ok {
                    return Err(CacheError::HasRef);
                }
                match self.live.remove(&live.0) {
                    Some(cap) => {
                        let hash = self.hash_of(&cap);
                        self.blobs.insert(hash, cap);
                        Ok(hash)
                    },
                    None => Err(CacheError::UnknownRef(live.0)),
                }
            },
        }
    }
}

/// What was published under a hash is what the directory gives back for it.
pub proof fn law_published_cap_reads_back<H: Fn(&Cap) -> CapHash>(
    before: CacheDirectory<H>,
    after: CacheDirectory<H>,
    cap: Cap,
    hash: CapHash,
)
    requires
        after.published(&before, cap, hash),
    ensures
        after.at(CapHashOrRef::Hash(hash)) == Some(cap),
        forall|other: CapHash|
            other != hash ==> #[trigger] after.at(CapHashOrRef::Hash(other)) == before.at(
                CapHashOrRef::Hash(other),
            ),
{
}

} // verus!
