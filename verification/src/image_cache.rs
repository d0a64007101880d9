//! Programs by image content hash, shared between invocations.
use vstd::prelude::*;

use std::sync::Arc;

use crate::exec::Program;
use crate::hash::CapHash;
use crate::table::HashTable;

verus! {

/// Map from image content hash to its program.
#[derive(Debug)]
pub struct ImageCache {
    entries: HashTable<Arc<Program>>,
}

impl View for ImageCache {
    type V = Map<CapHash, Arc<Program>>;

    closed spec fn view(&self) -> Map<CapHash, Arc<Program>> {
        self.entries@
    }
}

impl ImageCache {
    pub fn new() -> (cache: ImageCache)
        ensures
            cache@ == Map::<CapHash, Arc<Program>>::empty(),
    {
        ImageCache { entries: HashTable::new() }
    }

    /// Number of cached images.
    pub fn len(&self) -> (n: usize)
        ensures
            self@.dom().finite(),
            n == self@.len(),
    {
        self.entries.len()
    }

    pub fn is_empty(&self) -> (yes: bool)
        ensures
            yes == (self@ == Map::<CapHash, Arc<Program>>::empty()),
    {
        let n: usize = self.entries.len();
        proof {
            if n == 0 {
                assert(self@.dom() =~= Set::<CapHash>::empty());
                assert(self@ =~= Map::<CapHash, Arc<Program>>::empty());
            } else {
                assert(Map::<CapHash, Arc<Program>>::empty().len() == 0);
            }
        }
        n == 0
    }

    /// The program cached under `content_hash`.
    pub fn get(&self, content_hash: &CapHash) -> (program: Option<Arc<Program>>)
        ensures
            program == (if self@.contains_key(*content_hash) {
                Some(self@[*content_hash])
            } else {
                None
            }),
    {
        match self.entries.get(content_hash) {
            Some(p) => Some(Arc::clone(p)),
            None => None,
        }
    }

    /// Cache `program` under `content_hash`.
    pub fn insert(&mut self, content_hash: CapHash, program: Arc<Program>)
        ensures
            final(self)@ == old(self)@.insert(content_hash, program),
    {
        self.entries.insert(content_hash, program);
    }

    /// The cached program, or a new one of `code` at `code_base`, which is then
    /// cached.
    pub fn get_or_decode(
        &mut self,
        content_hash: CapHash,
        code: Vec<u8>,
        code_base: u32,
    ) -> (program: Arc<Program>)
        ensures
            old(self)@.contains_key(content_hash) ==> program == old(self)@[content_hash]
                && final(self)@ == old(self)@,
            !old(self)@.contains_key(content_hash) ==> program.code == code && program.code_base
                == code_base,
            final(self)@ == old(self)@.insert(content_hash, program),
    {
        match self.entries.get(&content_hash) {
            Some(p) => {
                let p = Arc::clone(p);
                assert(self@ =~= self@.insert(content_hash, p));
                return p;
            },
            None => {},
        }
        let program = Arc::new(Program::new(code, code_base));
        self.entries.insert(content_hash, Arc::clone(&program));
        program
    }

    /// Drop all cached programs.
    pub fn clear(&mut self)
        ensures
            final(self)@ == Map::<CapHash, Arc<Program>>::empty(),
    {
        self.entries.clear();
    }
}

/// Once a program is cached under a hash, a lookup under that hash finds it, and
/// programs under other hashes are found as before.
pub proof fn law_cached_program_is_found(
    start: Map<CapHash, Arc<Program>>,
    hash: CapHash,
    other: CapHash,
    program: Arc<Program>,
)
    ensures
        start.insert(hash, program).contains_key(hash),
        start.insert(hash, program)[hash] == program,
        other != hash ==> start.insert(hash, program).contains_key(other) == start.contains_key(
            other,
        ),
{
}

} // verus!
