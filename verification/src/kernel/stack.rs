//! The call stack of a task: frames, and the yields that are being handled.
use vstd::prelude::*;

use crate::kernel::frame::{origin_of, KernelFrame};
use crate::kernel::gas::FrameGas;
use crate::kernel::key::Key;

verus! {

/// A frame is missing a reservation that its bookkeeping says is there.
pub const ERR_PENDING_ORIGIN_INVARIANT: u32 = 74;

/// The callee has returned, or the yield was answered.
pub const STATUS_OK: u64 = 0;

/// The callee has yielded.
pub const STATUS_YIELDED: u64 = 1;

/// What an entry of the stack is.
#[derive(Debug)]
pub enum EntryKind {
    /// A frame of its own.
    Instance(Box<KernelFrame>),
    /// The frame of an earlier entry, which handles a yield.
    Reference,
}

/// An entry of the stack.
#[derive(Debug)]
pub struct StackEntry {
    pub kind: EntryKind,
    /// The entry whose frame runs: this one, or for a reference an earlier one.
    pub target: usize,
    pub instance_id: u64,
    /// The entry whose frame made the call.
    pub owner: Option<usize>,
    /// What the owner catches from this call.
    pub owner_catch_set: Vec<Key>,
    pub gas: FrameGas,
}

/// Whether an entry has a frame of its own.
pub open spec fn has_frame(e: StackEntry) -> bool {
    e.kind is Instance
}

/// The frame of an entry.
pub open spec fn own_frame(e: StackEntry) -> KernelFrame {
    *e.kind->Instance_0
}

/// The frame that entry `i` runs.
pub open spec fn frame_of(stack: Seq<StackEntry>, i: int) -> KernelFrame {
    own_frame(stack[stack[i].target as int])
}

/// The stack with another frame in entry `i`.
pub open spec fn with_frame(stack: Seq<StackEntry>, i: int, frame: KernelFrame) -> Seq<StackEntry> {
    stack.update(i, StackEntry { kind: EntryKind::Instance(Box::new(frame)), ..stack[i] })
}

/// Where the instance of entry `i` was moved from.
pub open spec fn origin_at(stack: Seq<StackEntry>, i: int) -> Option<(usize, Seq<u8>)> {
    if has_frame(stack[i]) {
        origin_of(own_frame(stack[i]).origin)
    } else {
        None
    }
}

/// Whether the entries are as calls and yields make them: the root first, and
/// every other frame called by the entry below it, from a slot that stays reserved.
pub open spec fn entry_wf(stack: Seq<StackEntry>, i: int) -> bool {
    let e = stack[i];
    &&& e.target <= i
    &&& has_frame(stack[e.target as int])
    &&& has_frame(e) <==> e.target == i
    &&& e.gas.wf()
    &&& e.owner matches Some(o) ==> o < i && o < stack.len() && has_frame(stack[o as int])
    &&& i == 0 ==> origin_at(stack, i) is None && e.owner is None
    &&& i > 0 && has_frame(e) ==> match origin_at(stack, i) {
        Some(o) => o.0 == stack[i - 1].target && frame_of(stack, i - 1).is_pending(o.1) && e.owner
            == Some(o.0),
        None => false,
    }
}

/// Whether each reserved slot of entry `i` is the origin of a later frame.
pub open spec fn reservations_wf(stack: Seq<StackEntry>, i: int) -> bool {
    forall|s: Seq<u8>|
        has_frame(stack[i]) && #[trigger] own_frame(stack[i]).is_pending(s) ==> exists|j: int|
            i < j < stack.len() && #[trigger] origin_at(stack, j) == Some((i as usize, s))
}

/// Whether entries `i` and `j` came from different slots.
pub open spec fn origins_differ(stack: Seq<StackEntry>, i: int, j: int) -> bool {
    origin_at(stack, i) is Some ==> origin_at(stack, i) != origin_at(stack, j)
}

/// Whether the stack is as calls and yields make it: an instance has one owner at
/// a time, a slot or a frame.
pub open spec fn stack_wf(stack: Seq<StackEntry>) -> bool {
    &&& stack.len() <= usize::MAX
    &&& forall|i: int| 0 <= i < stack.len() ==> #[trigger] entry_wf(stack, i)
    &&& forall|i: int| 0 <= i < stack.len() ==> #[trigger] reservations_wf(stack, i)
    &&& forall|i: int, j: int|
        #![trigger origin_at(stack, i), origin_at(stack, j)]
        0 <= i < j < stack.len() ==> origins_differ(stack, i, j)
}

/// The frame that entry `idx` runs.
pub fn frame_at(stack: &Vec<StackEntry>, idx: usize) -> (frame: &KernelFrame)
    requires
        idx < stack@.len(),
        stack@[idx as int].target < stack@.len(),
        has_frame(stack@[stack@[idx as int].target as int]),
    ensures
        *frame == frame_of(stack@, idx as int),
{
    match &stack[stack[idx].target].kind {
        EntryKind::Instance(f) => f,
        EntryKind::Reference => vstd::pervasive::unreached(),
    }
}

/// The frame that entry `idx` runs.
pub fn frame_at_mut(stack: &mut Vec<StackEntry>, idx: usize) -> (frame: &mut KernelFrame)
    requires
        idx < old(stack)@.len(),
        old(stack)@[idx as int].target < old(stack)@.len(),
        has_frame(old(stack)@[old(stack)@[idx as int].target as int]),
    ensures
        *frame == frame_of(old(stack)@, idx as int),
        final(stack)@ == with_frame(
            old(stack)@,
            old(stack)@[idx as int].target as int,
            *final(frame),
        ),
{
    let target: usize = stack[idx].target;
    match &mut stack[target].kind {
        EntryKind::Instance(f) => &mut **f,
        EntryKind::Reference => vstd::pervasive::unreached(),
    }
}

/// Changing a frame, but neither its reservations nor its origin, keeps the stack
/// as it should be.
pub proof fn lemma_frame_changed(stack: Seq<StackEntry>, t: int, frame: KernelFrame)
    requires
        stack_wf(stack),
        0 <= t < stack.len(),
        has_frame(stack[t]),
        frame.pending@ == own_frame(stack[t]).pending@,
        origin_of(frame.origin) == origin_at(stack, t),
    ensures
        stack_wf(with_frame(stack, t, frame)),
        forall|i: int|
            0 <= i < stack.len() ==> #[trigger] origin_at(with_frame(stack, t, frame), i)
                == origin_at(stack, i),
{
    let after = with_frame(stack, t, frame);
    assert forall|i: int| 0 <= i < stack.len() implies #[trigger] origin_at(after, i) == origin_at(
        stack,
        i,
    ) by {
    }
    assert forall|i: int| 0 <= i < after.len() implies #[trigger] entry_wf(after, i) by {
        assert(entry_wf(stack, i));
        assert(origin_at(after, i) == origin_at(stack, i));
        if i > 0 {
            assert(entry_wf(stack, i - 1));
        }
    }
    assert forall|i: int| 0 <= i < after.len() implies #[trigger] reservations_wf(after, i) by {
        assert(reservations_wf(stack, i));
        assert forall|s: Seq<u8>|
            has_frame(after[i]) && #[trigger] own_frame(after[i]).is_pending(s) implies exists|j: int|
            i < j < after.len() && #[trigger] origin_at(after, j) == Some((i as usize, s)) by {
            assert(own_frame(stack[i]).is_pending(s));
            let j = choose|j: int|
                i < j < stack.len() && #[trigger] origin_at(stack, j) == Some((i as usize, s));
            assert(origin_at(after, j) == origin_at(stack, j));
        }
    }
    assert forall|i: int, j: int|
        #![trigger origin_at(after, i), origin_at(after, j)]
        0 <= i < j < after.len() implies origins_differ(after, i, j) by {
        assert(origin_at(after, i) == origin_at(stack, i));
        assert(origin_at(after, j) == origin_at(stack, j));
        assert(origins_differ(stack, i, j));
    }
}

/// Putting a reference on top keeps the stack as it should be.
pub proof fn lemma_reference_pushed(stack: Seq<StackEntry>, e: StackEntry)
    requires
        stack_wf(stack),
        stack.len() < usize::MAX,
        !has_frame(e),
        e.target < stack.len(),
        has_frame(stack[e.target as int]),
        e.owner == stack[e.target as int].owner,
        e.gas.wf(),
    ensures
        stack_wf(stack.push(e)),
{
    let after = stack.push(e);
    let n = stack.len() as int;
    assert(entry_wf(stack, e.target as int));
    assert forall|i: int| 0 <= i < n implies #[trigger] origin_at(after, i) == origin_at(
        stack,
        i,
    ) by {
    }
    assert forall|i: int| 0 <= i < after.len() implies #[trigger] entry_wf(after, i) by {
        if i < n {
            assert(entry_wf(stack, i));
            assert(origin_at(after, i) == origin_at(stack, i));
        } else {
            assert(n > 0);
        }
    }
    assert forall|i: int| 0 <= i < after.len() implies #[trigger] reservations_wf(after, i) by {
        if i < n {
            assert(reservations_wf(stack, i));
            assert forall|s: Seq<u8>|
                has_frame(after[i]) && #[trigger] own_frame(after[i]).is_pending(
                    s,
                ) implies exists|j: int|
                i < j < after.len() && #[trigger] origin_at(after, j) == Some((i as usize, s)) by {
                assert(own_frame(stack[i]).is_pending(s));
                let j = choose|j: int|
                    i < j < stack.len() && #[trigger] origin_at(stack, j) == Some((i as usize, s));
                assert(origin_at(after, j) == origin_at(stack, j));
            }
        }
    }
    assert forall|i: int, j: int|
        #![trigger origin_at(after, i), origin_at(after, j)]
        0 <= i < j < after.len() implies origins_differ(after, i, j) by {
        assert(origin_at(after, i) == origin_at(stack, i));
        if j < n {
            assert(origin_at(after, j) == origin_at(stack, j));
            assert(origins_differ(stack, i, j));
        }
    }
}

/// Putting a called frame on top keeps the stack as it should be, where the caller
/// has reserved the slot.
pub proof fn lemma_call_pushed(
    stack: Seq<StackEntry>,
    caller: KernelFrame,
    slot: Seq<u8>,
    e: StackEntry,
)
    requires
        stack_wf(stack),
        0 < stack.len() < usize::MAX,
        has_frame(e),
        e.target == stack.len(),
        e.owner == Some(stack.last().target),
        e.gas.wf(),
        own_frame(e).pending@ == Map::<Seq<u8>, ()>::empty(),
        origin_of(own_frame(e).origin) == Some((stack.last().target, slot)),
        !frame_of(stack, stack.len() - 1).is_pending(slot),
        caller.pending@ == frame_of(stack, stack.len() - 1).pending@.insert(slot, ()),
        origin_of(caller.origin) == origin_at(stack, stack.last().target as int),
    ensures
        stack_wf(with_frame(stack, stack.last().target as int, caller).push(e)),
{
    let n = stack.len() as int;
    assert(entry_wf(stack, n - 1));
    let t = stack[n - 1].target as int;
    let touched = with_frame(stack, t, caller);
    let after = touched.push(e);
    assert forall|i: int| 0 <= i < n implies #[trigger] origin_at(after, i) == origin_at(
        stack,
        i,
    ) by {
    }
    assert(origin_at(after, n) == Some((t as usize, slot)));
    assert forall|i: int| 0 <= i < n implies origin_at(stack, i) != Some((t as usize, slot)) by {
        assert(entry_wf(stack, i));
        if origin_at(stack, i) == Some((t as usize, slot)) && i > 0 {
            assert(entry_wf(stack, i - 1));
            assert(frame_of(stack, i - 1) == own_frame(stack[t]));
        }
    }
    assert forall|i: int| 0 <= i < after.len() implies #[trigger] entry_wf(after, i) by {
        if i < n {
            assert(entry_wf(stack, i));
            assert(origin_at(after, i) == origin_at(stack, i));
            if i > 0 {
                assert(entry_wf(stack, i - 1));
            }
        }
    }
    assert forall|i: int| 0 <= i < after.len() implies #[trigger] reservations_wf(after, i) by {
        if i < n {
            assert(reservations_wf(stack, i));
            assert forall|s: Seq<u8>|
                has_frame(after[i]) && #[trigger] own_frame(after[i]).is_pending(
                    s,
                ) implies exists|j: int|
                i < j < after.len() && #[trigger] origin_at(after, j) == Some((i as usize, s)) by {
                if i == t && s == slot {
                    assert(origin_at(after, n) == Some((i as usize, s)));
                } else {
                    assert(own_frame(stack[i]).is_pending(s));
                    let j = choose|j: int|
                        i < j < stack.len() && #[trigger] origin_at(stack, j) == Some(
                            (i as usize, s),
                        );
                    assert(origin_at(after, j) == origin_at(stack, j));
                }
            }
        }
    }
    assert forall|i: int, j: int|
        #![trigger origin_at(after, i), origin_at(after, j)]
        0 <= i < j < after.len() implies origins_differ(after, i, j) by {
        assert(origin_at(after, i) == origin_at(stack, i));
        if j < n {
            assert(origin_at(after, j) == origin_at(stack, j));
            assert(origins_differ(stack, i, j));
        }
    }
}

/// Whether slot `s` of entry `i` is reserved for a frame at `start` or above.
pub open spec fn reserved_above(
    stack: Seq<StackEntry>,
    start: int,
    i: int,
    s: Seq<u8>,
) -> bool {
    exists|j: int|
        start <= j < stack.len() && #[trigger] origin_at(stack, j) == Some((i as usize, s))
}

/// Whether entry `i` has given up the reservations for the frames at `start` and
/// above, and is otherwise unchanged.
pub open spec fn entry_released(
    before: Seq<StackEntry>,
    after: Seq<StackEntry>,
    start: int,
    i: int,
) -> bool {
    &&& has_frame(after[i]) == has_frame(before[i])
    &&& if has_frame(before[i]) {
        &&& after[i] == (StackEntry { kind: after[i].kind, ..before[i] })
        &&& own_frame(after[i]) == (KernelFrame {
            pending: own_frame(after[i]).pending,
            ..own_frame(before[i])
        })
        &&& forall|s: Seq<u8>| #[trigger]
            own_frame(after[i]).is_pending(s) <==> own_frame(before[i]).is_pending(s)
                && !reserved_above(before, start, i, s)
    } else {
        after[i] == before[i]
    }
}

/// Whether the reservations for the frames at `start` and above are given up.
pub open spec fn released(before: Seq<StackEntry>, after: Seq<StackEntry>, start: int) -> bool {
    &&& after.len() == before.len()
    &&& forall|i: int| start <= i < before.len() ==> #[trigger] after[i] == before[i]
    &&& forall|i: int| 0 <= i < start ==> #[trigger] entry_released(before, after, start, i)
}

/// What is left of the stack once the reservations for what goes are given up is as
/// it should be.
pub proof fn lemma_released_prefix(before: Seq<StackEntry>, after: Seq<StackEntry>, start: int)
    requires
        stack_wf(before),
        0 <= start <= before.len(),
        released(before, after, start),
    ensures
        stack_wf(after.take(start)),
{
    let kept = after.take(start);
    assert forall|i: int| 0 <= i < start implies #[trigger] origin_at(kept, i) == origin_at(
        before,
        i,
    ) by {
        assert(entry_released(before, after, start, i));
    }
    assert forall|i: int| 0 <= i < kept.len() implies #[trigger] entry_wf(kept, i) by {
        assert(entry_wf(before, i));
        assert(entry_released(before, after, start, i));
        let t = before[i].target as int;
        assert(entry_released(before, after, start, t));
        assert(origin_at(kept, i) == origin_at(before, i));
        if let Some(o) = before[i].owner {
            assert(entry_released(before, after, start, o as int));
        }
        if i > 0 && has_frame(before[i]) {
            assert(entry_wf(before, i - 1));
            assert(entry_released(before, after, start, i - 1));
            let p = before[i - 1].target as int;
            assert(entry_released(before, after, start, p));
            let from = origin_at(before, i)->0;
            let s = from.1;
            assert(own_frame(before[p]).is_pending(s));
            if reserved_above(before, start, p, s) {
                let j = choose|j: int|
                    start <= j < before.len() && #[trigger] origin_at(before, j) == Some(
                        (p as usize, s),
                    );
                assert(origins_differ(before, i, j));
                assert(false);
            }
            assert(own_frame(after[p]).is_pending(s));
        }
    }
    assert forall|i: int| 0 <= i < kept.len() implies #[trigger] reservations_wf(kept, i) by {
        assert(reservations_wf(before, i));
        assert(entry_released(before, after, start, i));
        assert forall|s: Seq<u8>|
            has_frame(kept[i]) && #[trigger] own_frame(kept[i]).is_pending(s) implies exists|j: int|
            i < j < kept.len() && #[trigger] origin_at(kept, j) == Some((i as usize, s)) by {
            assert(own_frame(after[i]).is_pending(s));
            assert(own_frame(before[i]).is_pending(s));
            let j = choose|j: int|
                i < j < before.len() && #[trigger] origin_at(before, j) == Some((i as usize, s));
            if j >= start {
                assert(reserved_above(before, start, i, s));
            }
            assert(origin_at(kept, j) == origin_at(before, j));
        }
    }
    assert forall|i: int, j: int|
        #![trigger origin_at(kept, i), origin_at(kept, j)]
        0 <= i < j < kept.len() implies origins_differ(kept, i, j) by {
        assert(origin_at(kept, i) == origin_at(before, i));
        assert(origin_at(kept, j) == origin_at(before, j));
        assert(origins_differ(before, i, j));
    }
}

/// Give up the reservations for the frames at `start` and above.
pub fn release_pending_origins_for_dropped(stack: &mut Vec<StackEntry>, start: usize)
    requires
        stack_wf(old(stack)@),
        start <= old(stack)@.len(),
    ensures
        released(old(stack)@, final(stack)@, start as int),
{
    let ghost before = stack@;
    let n: usize = stack.len();
    let mut j: usize = start;
    while j < n
        invariant
            start <= j <= n,
            n == before.len(),
            stack_wf(before),
            stack@.len() == before.len(),
            forall|i: int| start <= i < before.len() ==> #[trigger] stack@[i] == before[i],
            forall|i: int|
                0 <= i < start ==> #[trigger] entry_partly_released(
                    before,
                    stack@,
                    start as int,
                    j as int,
                    i,
                ),
        decreases n - j,
    {
        let ghost earlier = stack@;
        assert(entry_wf(before, j as int));
        assert(stack@[j as int] == before[j as int]);
        let origin: Option<(usize, Key)> = match &stack[j].kind {
            EntryKind::Instance(f) => match &f.origin {
                Some(o) => Some((o.owner, o.slot.duplicate())),
                None => None,
            },
            EntryKind::Reference => None,
        };
        match origin {
            Some((owner, slot)) => {
                if owner < start {
                    assert(entry_wf(before, owner as int));
                    assert(entry_wf(before, j - 1));
                    assert(entry_partly_released(
                        before,
                        earlier,
                        start as int,
                        j as int,
                        owner as int,
                    ));
                    assert(has_frame(before[owner as int]));
                    let frame = frame_at_mut(stack, owner);
                    frame.pending.remove(&slot);
                    proof {
                        assert forall|i: int| 0 <= i < start implies #[trigger] entry_partly_released(
                            before,
                            stack@,
                            start as int,
                            j + 1,
                            i,
                        ) by {
                            assert(entry_partly_released(
                                before,
                                earlier,
                                start as int,
                                j as int,
                                i,
                            ));
                            lemma_reserved_step(before, start as int, j as int, i);
                            if has_frame(before[i]) {
                                assert forall|s: Seq<u8>| #[trigger] own_frame(
                                    stack@[i],
                                ).is_pending(s) <==> own_frame(before[i]).is_pending(s)
                                    && !reserved_between(before, start as int, j + 1, i, s) by {
                                    assert(own_frame(earlier[i]).is_pending(s) <==> own_frame(
                                        before[i],
                                    ).is_pending(s) && !reserved_between(
                                        before,
                                        start as int,
                                        j as int,
                                        i,
                                        s,
                                    ));
                                }
                            }
                        }
                    }
                } else {
                    proof {
                        assert forall|i: int| 0 <= i < start implies #[trigger] entry_partly_released(
                            before,
                            stack@,
                            start as int,
                            j + 1,
                            i,
                        ) by {
                            assert(entry_partly_released(
                                before,
                                earlier,
                                start as int,
                                j as int,
                                i,
                            ));
                            lemma_reserved_step(before, start as int, j as int, i);
                        }
                    }
                }
            },
            None => {
                proof {
                    assert forall|i: int| 0 <= i < start implies #[trigger] entry_partly_released(
                        before,
                        stack@,
                        start as int,
                        j + 1,
                        i,
                    ) by {
                        assert(entry_partly_released(before, earlier, start as int, j as int, i));
                        lemma_reserved_step(before, start as int, j as int, i);
                    }
                }
            },
        }
        j = j + 1;
    }
    proof {
        assert forall|i: int| 0 <= i < start implies #[trigger] entry_released(
            before,
            stack@,
            start as int,
            i,
        ) by {
            assert(entry_partly_released(before, stack@, start as int, n as int, i));
            assert forall|s: Seq<u8>| reserved_between(before, start as int, n as int, i, s)
                == #[trigger] reserved_above(before, start as int, i, s) by {
                if reserved_above(before, start as int, i, s) {
                    let k = choose|k: int|
                        start <= k < before.len() && #[trigger] origin_at(before, k) == Some(
                            (i as usize, s),
                        );
                    assert(origin_at(before, k) == Some((i as usize, s)));
                }
            }
        }
    }
}

/// Whether slot `s` of entry `i` is reserved for a frame from `start` up to `end`.
spec fn reserved_between(
    stack: Seq<StackEntry>,
    start: int,
    end: int,
    i: int,
    s: Seq<u8>,
) -> bool {
    exists|j: int| start <= j < end && #[trigger] origin_at(stack, j) == Some((i as usize, s))
}

spec fn entry_partly_released(
    before: Seq<StackEntry>,
    after: Seq<StackEntry>,
    start: int,
    end: int,
    i: int,
) -> bool {
    &&& has_frame(after[i]) == has_frame(before[i])
    &&& if has_frame(before[i]) {
        &&& after[i] == (StackEntry { kind: after[i].kind, ..before[i] })
        &&& own_frame(after[i]) == (KernelFrame {
            pending: own_frame(after[i]).pending,
            ..own_frame(before[i])
        })
        &&& forall|s: Seq<u8>| #[trigger]
            own_frame(after[i]).is_pending(s) <==> own_frame(before[i]).is_pending(s)
                && !reserved_between(before, start, end, i, s)
    } else {
        after[i] == before[i]
    }
}

proof fn lemma_reserved_step(stack: Seq<StackEntry>, start: int, j: int, i: int)
    requires
        start <= j,
    ensures
        forall|s: Seq<u8>| #[trigger]
            reserved_between(stack, start, j + 1, i, s) <==> reserved_between(stack, start, j, i, s)
                || origin_at(stack, j) == Some((i as usize, s)),
{
    assert forall|s: Seq<u8>| #[trigger]
        reserved_between(stack, start, j + 1, i, s) <==> reserved_between(stack, start, j, i, s)
            || origin_at(stack, j) == Some((i as usize, s)) by {
        if reserved_between(stack, start, j + 1, i, s) {
            let k = choose|k: int|
                start <= k < j + 1 && #[trigger] origin_at(stack, k) == Some((i as usize, s));
            if k < j {
                assert(origin_at(stack, k) == Some((i as usize, s)));
            }
        }
        if reserved_between(stack, start, j, i, s) {
            let k = choose|k: int|
                start <= k < j && #[trigger] origin_at(stack, k) == Some((i as usize, s));
            assert(origin_at(stack, k) == Some((i as usize, s)));
        }
    }
}

} // verus!
