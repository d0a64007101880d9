//! Views over the active instance's cap table.
use vstd::prelude::*;

use crate::cache::CacheDirectory;
use crate::cap::{is_pinned_slot, CNodeCap, Cap, CapHashOrRef, SlotIdx, SlotPath};
use crate::error::VmError;
use crate::hash::CapHash;

verus! {

/// Read-only view of an instance's cap table.
pub struct MainFrame<'a, H> {
    pub cnode: &'a CNodeCap,
    pub pinned: &'a [SlotIdx],
    pub cache: &'a CacheDirectory<H>,
}

/// Following `steps` from the slots `slots`: every step but the last must hold
/// a cnode.
pub open spec fn resolve_path<H: Fn(&Cap) -> CapHash>(
    cache: &CacheDirectory<H>,
    slots: Seq<Option<CapHashOrRef>>,
    steps: Seq<SlotIdx>,
) -> Result<Option<CapHashOrRef>, VmError>
    decreases steps.len(),
{
    let here = crate::cap::slot_at(slots, steps.first());
    if steps.len() <= 1 {
        Ok(here)
    } else {
        match here {
            None => Err(VmError::SlotEmpty(steps.first().0)),
            Some(target) => match cache.at(target) {
                Some(Cap::CNode(inner)) => resolve_path(cache, inner.slots@, steps.drop_first()),
                _ => Err(VmError::SlotKindMismatch(steps.first().0)),
            },
        }
    }
}

impl<'a, H: Fn(&Cap) -> CapHash> MainFrame<'a, H> {
    pub fn new(
        cnode: &'a CNodeCap,
        pinned: &'a [SlotIdx],
        cache: &'a CacheDirectory<H>,
    ) -> (frame: MainFrame<'a, H>)
        ensures
            frame.cnode == cnode,
            frame.pinned == pinned,
            frame.cache == cache,
    {
        MainFrame { cnode, pinned, cache }
    }

    /// Log2 of the number of slots.
    pub fn size_log(&self) -> (size_log: u8)
        ensures
            size_log == self.cnode.size_log,
    {
        self.cnode.size_log
    }

    /// Whether the image pins slot `idx`.
    pub fn is_pinned(&self, idx: SlotIdx) -> (yes: bool)
        ensures
            yes == self.pinned@.contains(idx),
    {
        is_pinned_slot(self.pinned, idx)
    }

    /// The target in root slot `idx`.
    pub fn get(&self, idx: SlotIdx) -> (target: Option<CapHashOrRef>)
        ensures
            target == self.cnode.at(idx),
    {
        self.cnode.get(idx)
    }

    /// Follow `path` through nested cnodes to the target in its last slot.
    pub fn resolve(&self, path: &SlotPath) -> (r: Result<Option<CapHashOrRef>, VmError>)
        requires
            path.wf(),
        ensures
            r == resolve_path(self.cache, self.cnode.slots@, path.steps@),
    {
        let n: usize = path.steps.len();
        let mut current: &CNodeCap = self.cnode;
        let mut i: usize = 0;
        assert(path.steps@.skip(0) =~= path.steps@);
        while i + 1 < n
            invariant
                n == path.steps@.len(),
                1 <= n <= 8,
                i < n,
                resolve_path(self.cache, self.cnode.slots@, path.steps@) == resolve_path(
                    self.cache,
                    current.slots@,
                    path.steps@.skip(i as int),
                ),
            decreases n - i,
        {
            let step: SlotIdx = path.steps[i];
            assert(path.steps@.skip(i as int).first() == step);
            assert(path.steps@.skip(i as int).drop_first() =~= path.steps@.skip(i + 1));
            match current.get(step) {
                None => {
                    return Err(VmError::SlotEmpty(step.get()));
                },
                Some(target) => match self.cache.get(target) {
                    Some(Cap::CNode(inner)) => {
                        current = inner;
                    },
                    _ => {
                        return Err(VmError::SlotKindMismatch(step.get()));
                    },
                },
            }
            i = i + 1;
        }
        assert(path.steps@.skip(i as int).first() == path.steps@[i as int]);
        Ok(current.get(path.steps[i]))
    }
}

/// Read-only view of the pinned slots of an instance's cap table.
pub struct BareFrame<'a, H> {
    pub main: MainFrame<'a, H>,
}

impl<'a, H: Fn(&Cap) -> CapHash> BareFrame<'a, H> {
    pub fn new(
        cnode: &'a CNodeCap,
        pinned: &'a [SlotIdx],
        cache: &'a CacheDirectory<H>,
    ) -> (frame: BareFrame<'a, H>)
        ensures
            frame.main.cnode == cnode,
            frame.main.pinned == pinned,
            frame.main.cache == cache,
    {
        BareFrame { main: MainFrame::new(cnode, pinned, cache) }
    }

    /// The target in slot `idx`, if the slot is pinned.
    pub fn get(&self, idx: SlotIdx) -> (target: Option<CapHashOrRef>)
        ensures
            target == (if self.main.pinned@.contains(idx) {
                self.main.cnode.at(idx)
            } else {
                None
            }),
    {
        if self.main.is_pinned(idx) {
            self.main.get(idx)
        } else {
            None
        }
    }

    /// The pinned slots.
    pub fn pinned_slots(&self) -> (slots: &[SlotIdx])
        ensures
            slots@ == self.main.pinned@,
    {
        self.main.pinned
    }
}

} // verus!
