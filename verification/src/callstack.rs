//! The kernel-internal call stack.
//!
//! An instance entry is pushed by a call and carries the state of that
//! invocation. A reference entry is pushed by a yield and points at an instance
//! entry earlier on the stack. Exactly one entry is running, the top; every
//! reference points at an earlier instance entry.
use vstd::prelude::*;

use std::sync::Arc;

use crate::cap::{CNodeCap, CapHashOrRef, SlotIdx};
use crate::error::VmError;
use crate::exec::{GasCounter, Program, Regs};
use crate::hash::CapHash;
use crate::mem::Mem;

verus! {

/// Depth limit unless another is asked for.
pub const DEFAULT_MAX_DEPTH: usize = 256;

/// Status of a stack entry.
#[derive(Clone, Copy, Debug, PartialEq, Eq, Structural)]
pub enum EntryStatus {
    Running,
    Waiting,
}

/// In-flight state of an instance on the call stack.
#[derive(Debug)]
pub struct InstanceEntry {
    /// The cap this invocation runs.
    pub instance_ref: CapHashOrRef,
    /// Type identity of the instance.
    pub image_hash_chain: CapHash,
    /// The bound image.
    pub image_hash: CapHash,
    /// The image's program, shared between invocations.
    pub program: Arc<Program>,
    /// The working cap table.
    pub root_cnode: CNodeCap,
    /// Slot of the yield catcher, if the image declares one.
    pub yield_marker_slot: Option<SlotIdx>,
    /// Slots that the image pins.
    pub pinned_slots: Vec<SlotIdx>,
    /// Saved registers.
    pub regs: Regs,
    /// Saved memory.
    pub mem: Mem,
    /// Saved gas counter.
    pub gas: GasCounter,
    pub status: EntryStatus,
}

/// A stack entry that refers to an instance entry earlier on the stack.
#[derive(Clone, Copy, Debug, PartialEq, Eq, Structural)]
pub struct ReferenceEntry {
    /// Position of the instance entry.
    pub target_position: usize,
    pub status: EntryStatus,
}

/// One entry of the call stack.
#[derive(Debug)]
pub enum Entry {
    Instance(Box<InstanceEntry>),
    Reference(ReferenceEntry),
}

/// Status of an entry.
pub open spec fn status_of(e: Entry) -> EntryStatus {
    match e {
        Entry::Instance(i) => i.status,
        Entry::Reference(r) => r.status,
    }
}

/// An entry with another status.
pub open spec fn with_status(e: Entry, s: EntryStatus) -> Entry {
    match e {
        Entry::Instance(i) => Entry::Instance(Box::new(InstanceEntry { status: s, ..*i })),
        Entry::Reference(r) => Entry::Reference(ReferenceEntry { status: s, ..r }),
    }
}

impl Entry {
    pub fn status(&self) -> (s: EntryStatus)
        ensures
            s == status_of(*self),
    {
        match self {
            Entry::Instance(e) => e.status,
            Entry::Reference(e) => e.status,
        }
    }

    pub fn set_status(&mut self, s: EntryStatus)
        ensures
            *final(self) == with_status(*old(self), s),
    {
        match self {
            Entry::Instance(e) => {
                e.status = s;
            },
            Entry::Reference(e) => {
                e.status = s;
            },
        }
    }

    pub fn is_instance(&self) -> (yes: bool)
        ensures
            yes == (*self is Instance),
    {
        match self {
            Entry::Instance(_) => true,
            Entry::Reference(_) => false,
        }
    }

    pub fn as_instance(&self) -> (e: Option<&InstanceEntry>)
        ensures
            e == (match *self {
                Entry::Instance(i) => Some(&*i),
                Entry::Reference(_) => None,
            }),
    {
        match self {
            Entry::Instance(e) => Some(&**e),
            Entry::Reference(_) => None,
        }
    }

    pub fn as_instance_mut(&mut self) -> (e: Option<&mut InstanceEntry>)
        ensures
            e is Some <==> *old(self) is Instance,
            e is Some ==> *e->0 == *old(self)->Instance_0 && *final(self) == Entry::Instance(
                Box::new(*final(e->0)),
            ),
            e is None ==> *final(self) == *old(self),
    {
        match self {
            Entry::Instance(e) => Some(&mut **e),
            Entry::Reference(_) => None,
        }
    }
}

/// The kernel-internal call stack.
#[derive(Debug)]
pub struct CallStack {
    entries: Vec<Entry>,
    max_depth: usize,
}

/// Exactly the top entry is running.
pub open spec fn statuses_ok(s: Seq<Entry>) -> bool {
    forall|i: int|
        0 <= i < s.len() ==> status_of(#[trigger] s[i]) == (if i == s.len() - 1 {
            EntryStatus::Running
        } else {
            EntryStatus::Waiting
        })
}

/// Entry `i`, if a reference, points at an earlier instance entry.
pub open spec fn reference_ok(s: Seq<Entry>, i: int) -> bool {
    s[i] matches Entry::Reference(r) ==> r.target_position < i && s[r.target_position as int] is Instance
}

/// Every reference points at an earlier instance entry.
pub open spec fn references_ok(s: Seq<Entry>) -> bool {
    forall|i: int| 0 <= i < s.len() ==> #[trigger] reference_ok(s, i)
}

/// The stack invariant.
pub open spec fn stack_invariant(s: Seq<Entry>) -> bool {
    statuses_ok(s) && references_ok(s)
}

/// The error for a bad reference at position `i`.
pub open spec fn reference_error(s: Seq<Entry>, i: int) -> VmError {
    let target = s[i]->Reference_0.target_position;
    if target >= i {
        VmError::ReferenceOutOfRange(target)
    } else {
        VmError::ReferenceNonInstance(target)
    }
}

/// Position of the instance entry that the top of the stack stands for.
pub open spec fn running_position(s: Seq<Entry>) -> Option<int> {
    if s.len() == 0 {
        None
    } else {
        match s.last() {
            Entry::Instance(_) => Some(s.len() - 1),
            Entry::Reference(r) => if r.target_position < s.len() && s[r.target_position as int] is Instance {
                Some(r.target_position as int)
            } else {
                None
            },
        }
    }
}

/// The instance entry that the top of the stack stands for.
pub open spec fn running_entry(s: Seq<Entry>) -> Option<InstanceEntry> {
    match running_position(s) {
        Some(p) => Some(*s[p]->Instance_0),
        None => None,
    }
}

/// `s` with its top entry waiting.
pub open spec fn demoted(s: Seq<Entry>) -> Seq<Entry> {
    if s.len() == 0 {
        s
    } else {
        s.update(s.len() - 1, with_status(s.last(), EntryStatus::Waiting))
    }
}

/// `s` with its top entry running.
pub open spec fn promoted(s: Seq<Entry>) -> Seq<Entry> {
    if s.len() == 0 {
        s
    } else {
        s.update(s.len() - 1, with_status(s.last(), EntryStatus::Running))
    }
}

/// The stack after an instance entry was pushed.
pub open spec fn pushed_instance(s: Seq<Entry>, e: InstanceEntry) -> Seq<Entry> {
    demoted(s).push(
        Entry::Instance(Box::new(InstanceEntry { status: EntryStatus::Running, ..e })),
    )
}

/// The stack after a reference to position `target` was pushed.
pub open spec fn pushed_reference(s: Seq<Entry>, target: usize) -> Seq<Entry> {
    demoted(s).push(
        Entry::Reference(
            ReferenceEntry { target_position: target, status: EntryStatus::Running },
        ),
    )
}

/// The stack after its top was popped.
pub open spec fn popped(s: Seq<Entry>) -> Seq<Entry> {
    if s.len() == 0 {
        s
    } else {
        promoted(s.drop_last())
    }
}

/// The outcome of pushing a reference to `target` onto a stack of depth limit `max_depth`.
pub open spec fn push_reference_check(s: Seq<Entry>, max_depth: usize, target: usize) -> Result<
    (),
    VmError,
> {
    if s.len() >= max_depth {
        Err(VmError::CallStackFull)
    } else if target >= s.len() {
        Err(VmError::ReferenceOutOfRange(target))
    } else if !(s[target as int] is Instance) {
        Err(VmError::ReferenceNonInstance(target))
    } else {
        Ok(())
    }
}

impl View for CallStack {
    type V = Seq<Entry>;

    closed spec fn view(&self) -> Seq<Entry> {
        self.entries@
    }
}

impl CallStack {
    /// The depth limit.
    pub closed spec fn max_depth(&self) -> usize {
        self.max_depth
    }

    pub fn new(max_depth: usize) -> (stack: CallStack)
        ensures
            stack@ == Seq::<Entry>::empty(),
            stack.max_depth() == max_depth,
    {
        CallStack { entries: Vec::new(), max_depth }
    }

    pub fn with_default_depth() -> (stack: CallStack)
        ensures
            stack@ == Seq::<Entry>::empty(),
            stack.max_depth() == DEFAULT_MAX_DEPTH,
    {
        CallStack::new(DEFAULT_MAX_DEPTH)
    }

    pub fn len(&self) -> (n: usize)
        ensures
            n == self@.len(),
    {
        self.entries.len()
    }

    pub fn is_empty(&self) -> (yes: bool)
        ensures
            yes == (self@.len() == 0),
    {
        self.entries.len() == 0
    }

    pub fn entries(&self) -> (entries: &[Entry])
        ensures
            entries@ == self@,
    {
        self.entries.as_slice()
    }

    /// The entries, for saving state into one of them by position.
    pub fn entries_mut(&mut self) -> (entries: &mut [Entry])
        ensures
            entries@ == old(self)@,
            final(self)@ == final(entries)@,
            final(self).max_depth() == old(self).max_depth(),
    {
        self.entries.as_mut_slice()
    }

    fn mark_top(&mut self, status: EntryStatus)
        ensures
            final(self)@ == (if old(self)@.len() == 0 {
                old(self)@
            } else {
                old(self)@.update(old(self)@.len() - 1, with_status(old(self)@.last(), status))
            }),
            final(self).max_depth() == old(self).max_depth(),
    {
        let n: usize = self.entries.len();
        if n > 0 {
            let top = &mut self.entries[n - 1];
            top.set_status(status);
        }
    }

    /// Push an instance entry. The prior top waits, the new entry runs.
    pub fn push_instance(&mut self, entry: InstanceEntry) -> (r: Result<(), VmError>)
        ensures
            final(self).max_depth() == old(self).max_depth(),
            r is Ok <==> old(self)@.len() < old(self).max_depth(),
            r is Ok ==> final(self)@ == pushed_instance(old(self)@, entry),
            r matches Err(e) ==> e == VmError::CallStackFull && final(self)@ == old(self)@,
            stack_invariant(old(self)@) ==> stack_invariant(final(self)@),
    {
        if self.entries.len() >= self.max_depth {
            return Err(VmError::CallStackFull);
        }
        self.mark_top(EntryStatus::Waiting);
        let mut entry = entry;
        entry.status = EntryStatus::Running;
        self.entries.push(Entry::Instance(Box::new(entry)));
        proof {
            if stack_invariant(old(self)@) {
                lemma_push_keeps_invariant(old(self)@, self@.last());
            }
        }
        Ok(())
    }

    /// Push a reference to the instance entry at `target_position`. The prior
    /// top waits, the reference runs.
    pub fn push_reference(&mut self, target_position: usize) -> (r: Result<(), VmError>)
        ensures
            final(self).max_depth() == old(self).max_depth(),
            r == push_reference_check(old(self)@, old(self).max_depth(), target_position),
            r is Ok ==> final(self)@ == pushed_reference(old(self)@, target_position),
            r is Err ==> final(self)@ == old(self)@,
            stack_invariant(old(self)@) ==> stack_invariant(final(self)@),
    {
        if self.entries.len() >= self.max_depth {
            return Err(VmError::CallStackFull);
        }
        if target_position >= self.entries.len() {
            return Err(VmError::ReferenceOutOfRange(target_position));
        }
        if !self.entries[target_position].is_instance() {
            return Err(VmError::ReferenceNonInstance(target_position));
        }
        self.mark_top(EntryStatus::Waiting);
        self.entries.push(
            Entry::Reference(ReferenceEntry { target_position, status: EntryStatus::Running }),
        );
        proof {
            if stack_invariant(old(self)@) {
                lemma_push_keeps_invariant(old(self)@, self@.last());
            }
        }
        Ok(())
    }

    /// Pop the top entry. The next entry runs.
    pub fn pop(&mut self) -> (e: Option<Entry>)
        ensures
            final(self).max_depth() == old(self).max_depth(),
            final(self)@ == popped(old(self)@),
            e == (if old(self)@.len() == 0 {
                None
            } else {
                Some(old(self)@.last())
            }),
            stack_invariant(old(self)@) ==> stack_invariant(final(self)@),
    {
        let e = self.entries.pop();
        self.mark_top(EntryStatus::Running);
        proof {
            if stack_invariant(old(self)@) {
                lemma_pop_keeps_invariant(old(self)@);
            }
        }
        e
    }

    /// The running top of the stack.
    pub fn running(&self) -> (e: Option<&Entry>)
        ensures
            e == (if self@.len() == 0 {
                None
            } else {
                Some(&self@.last())
            }),
    {
        let n: usize = self.entries.len();
        if n == 0 {
            None
        } else {
            Some(&self.entries[n - 1])
        }
    }

    pub fn running_mut(&mut self) -> (e: Option<&mut Entry>)
        ensures
            e is Some <==> old(self)@.len() > 0,
            e is Some ==> *e->0 == old(self)@.last() && final(self)@ == old(self)@.update(
                old(self)@.len() - 1,
                *final(e->0),
            ),
            e is None ==> final(self)@ == old(self)@,
            final(self).max_depth() == old(self).max_depth(),
    {
        let n: usize = self.entries.len();
        if n == 0 {
            None
        } else {
            Some(&mut self.entries[n - 1])
        }
    }

    /// The instance entry that the top stands for: the top itself, or the entry
    /// that the reference on top points at.
    pub fn running_instance(&self) -> (e: Option<&InstanceEntry>)
        ensures
            e == (match running_entry(self@) {
                Some(i) => Some(&i),
                None => None,
            }),
    {
        let n: usize = self.entries.len();
        if n == 0 {
            return None;
        }
        match &self.entries[n - 1] {
            Entry::Instance(e) => Some(&**e),
            Entry::Reference(r) => if r.target_position < n {
                self.entries[r.target_position].as_instance()
            } else {
                None
            },
        }
    }

    pub fn running_instance_mut(&mut self) -> (e: Option<&mut InstanceEntry>)
        ensures
            e is Some <==> running_position(old(self)@) is Some,
            e is Some ==> *e->0 == running_entry(old(self)@)->0 && final(self)@ == old(
                self)@.update(
                running_position(old(self)@)->0,
                Entry::Instance(Box::new(*final(e->0))),
            ),
            e is None ==> final(self)@ == old(self)@,
            final(self).max_depth() == old(self).max_depth(),
    {
        let n: usize = self.entries.len();
        if n == 0 {
            return None;
        }
        let target: usize = match &self.entries[n - 1] {
            Entry::Instance(_) => n - 1,
            Entry::Reference(r) => r.target_position,
        };
        if target < n {
            self.entries[target].as_instance_mut()
        } else {
            None
        }
    }

    /// Check the stack invariant. A wrong status is reported before a wrong
    /// reference, and of the references the first wrong one.
    pub fn enforce_invariants(&self) -> (r: Result<(), VmError>)
        ensures
            r is Ok <==> stack_invariant(self@),
            !statuses_ok(self@) ==> r == Err::<(), VmError>(
                VmError::Invariant("exactly one Running entry, at the stack top"),
            ),
            statuses_ok(self@) && !references_ok(self@) ==> exists|i: int|
                {
                    &&& 0 <= i < self@.len()
                    &&& !reference_ok(self@, i)
                    &&& forall|j: int| 0 <= j < i ==> #[trigger] reference_ok(self@, j)
                    &&& r == Err::<(), VmError>(reference_error(self@, i))
                },
    {
        let n: usize = self.entries.len();
        let mut i: usize = 0;
        while i < n
            invariant
                n == self@.len(),
                n == self.entries@.len(),
                self@ == self.entries@,
                i <= n,
                forall|j: int|
                    0 <= j < i ==> status_of(#[trigger] self@[j]) == (if j == n - 1 {
                        EntryStatus::Running
                    } else {
                        EntryStatus::Waiting
                    }),
            decreases n - i,
        {
            let expected: EntryStatus = if i == n - 1 {
                EntryStatus::Running
            } else {
                EntryStatus::Waiting
            };
            if self.entries[i].status() != expected {
                assert(status_of(self@[i as int]) != expected);
                return Err(VmError::Invariant("exactly one Running entry, at the stack top"));
            }
            i = i + 1;
        }
        assert(statuses_ok(self@));
        let mut k: usize = 0;
        while k < n
            invariant
                n == self@.len(),
                n == self.entries@.len(),
                self@ == self.entries@,
                k <= n,
                statuses_ok(self@),
                forall|j: int| 0 <= j < k ==> #[trigger] reference_ok(self@, j),
            decreases n - k,
        {
            match &self.entries[k] {
                Entry::Reference(r) => {
                    if r.target_position >= k {
                        assert(!reference_ok(self@, k as int));
                        return Err(VmError::ReferenceOutOfRange(r.target_position));
                    }
                    if !self.entries[r.target_position].is_instance() {
                        assert(!reference_ok(self@, k as int));
                        return Err(VmError::ReferenceNonInstance(r.target_position));
                    }
                },
                Entry::Instance(_) => {},
            }
            k = k + 1;
        }
        Ok(())
    }
}

/// Pushing a running entry onto a stack keeps the invariant.
pub proof fn lemma_push_keeps_invariant(s: Seq<Entry>, e: Entry)
    requires
        stack_invariant(s),
        status_of(e) == EntryStatus::Running,
        e matches Entry::Reference(r) ==> r.target_position < s.len() && s[r.target_position as int] is Instance,
    ensures
        stack_invariant(demoted(s).push(e)),
{
    let t = demoted(s).push(e);
    assert forall|i: int| 0 <= i < t.len() implies #[trigger] reference_ok(t, i) by {
        if i < s.len() {
            assert(reference_ok(s, i));
        }
    }
    assert forall|i: int| 0 <= i < t.len() implies status_of(#[trigger] t[i]) == (if i == t.len()
        - 1 {
        EntryStatus::Running
    } else {
        EntryStatus::Waiting
    }) by {
        if i < s.len() {
            assert(status_of(s[i]) == (if i == s.len() - 1 {
                EntryStatus::Running
            } else {
                EntryStatus::Waiting
            }));
        }
    }
}

/// Popping a stack keeps the invariant.
pub proof fn lemma_pop_keeps_invariant(s: Seq<Entry>)
    requires
        stack_invariant(s),
    ensures
        stack_invariant(popped(s)),
{
    let t = popped(s);
    assert forall|i: int| 0 <= i < t.len() implies #[trigger] reference_ok(t, i) by {
        assert(reference_ok(s, i));
    }
    assert forall|i: int| 0 <= i < t.len() implies status_of(#[trigger] t[i]) == (if i == t.len()
        - 1 {
        EntryStatus::Running
    } else {
        EntryStatus::Waiting
    }) by {
        assert(status_of(s[i]) == (if i == s.len() - 1 {
            EntryStatus::Running
        } else {
            EntryStatus::Waiting
        }));
    }
}

/// On a stack that keeps the invariant, popping what was just pushed restores
/// the stack: the entry that waited runs again and nothing else changed.
pub proof fn law_pop_undoes_push(s: Seq<Entry>, e: InstanceEntry, target: usize)
    requires
        stack_invariant(s),
    ensures
        popped(pushed_instance(s, e)) == s,
        popped(pushed_reference(s, target)) == s,
{
    let d = demoted(s);
    assert(pushed_instance(s, e).drop_last() =~= d);
    assert(pushed_reference(s, target).drop_last() =~= d);
    if s.len() > 0 {
        assert(status_of(s[s.len() - 1]) == EntryStatus::Running);
        assert(promoted(d) =~= s);
    }
}

/// A non-empty stack that keeps the invariant always stands for an instance.
pub proof fn law_running_instance_exists(s: Seq<Entry>)
    requires
        stack_invariant(s),
        s.len() > 0,
    ensures
        running_entry(s) is Some,
{
    assert(reference_ok(s, s.len() - 1));
}

/// The invariant holds exactly where the last entry and no other runs and where no
/// reference points at itself, at a later entry or at a reference. A reference to itself
/// or to a later entry is out of range; one to an earlier reference is not to an
/// instance.
pub proof fn law_invariant_of_the_stack(s: Seq<Entry>, i: int, target: usize)
    requires
        0 <= i < s.len(),
        s[i] is Reference,
        s[i]->Reference_0.target_position == target,
    ensures
        stack_invariant(s) ==> {
            &&& target < i
            &&& s[target as int] is Instance
            &&& i < s.len() - 1 ==> s[i]->Reference_0.status is Waiting
            &&& i == s.len() - 1 ==> s[i]->Reference_0.status is Running
        },
        target >= i ==> reference_error(s, i) == VmError::ReferenceOutOfRange(target)
            && !stack_invariant(s),
        target < i && s[target as int] is Reference ==> reference_error(s, i)
            == VmError::ReferenceNonInstance(target) && !stack_invariant(s),
{
    assert(stack_invariant(s) ==> reference_ok(s, i));
    assert(stack_invariant(s) ==> status_of(s[i]) == (if i == s.len() - 1 {
        EntryStatus::Running
    } else {
        EntryStatus::Waiting
    }));
}

/// Replacing the state of an instance entry, its status kept, keeps the
/// invariant.
pub proof fn law_instance_update_keeps_invariant(s: Seq<Entry>, at: int, e: InstanceEntry)
    requires
        stack_invariant(s),
        0 <= at < s.len(),
        s[at] is Instance,
        e.status == s[at]->Instance_0.status,
    ensures
        stack_invariant(s.update(at, Entry::Instance(Box::new(e)))),
{
    let t = s.update(at, Entry::Instance(Box::new(e)));
    assert forall|i: int| 0 <= i < t.len() implies #[trigger] reference_ok(t, i) by {
        assert(reference_ok(s, i));
    }
    assert forall|i: int| 0 <= i < t.len() implies status_of(#[trigger] t[i]) == (if i == t.len()
        - 1 {
        EntryStatus::Running
    } else {
        EntryStatus::Waiting
    }) by {
        assert(status_of(s[i]) == (if i == s.len() - 1 {
            EntryStatus::Running
        } else {
            EntryStatus::Waiting
        }));
    }
}

/// The lowercase hexadecimal digit of `n`.
pub open spec fn hex_char(n: u8) -> char {
    if n < 10 {
        (n + 48) as u8 as char
    } else {
        (n + 87) as u8 as char
    }
}

fn hex_digit(n: u8) -> (digit: &'static str)
    requires
        n < 16,
    ensures
        digit@ == seq![hex_char(n)],
{
    proof {
        reveal_strlit("0");
        reveal_strlit("1");
        reveal_strlit("2");
        reveal_strlit("3");
        reveal_strlit("4");
        reveal_strlit("5");
        reveal_strlit("6");
        reveal_strlit("7");
        reveal_strlit("8");
        reveal_strlit("9");
        reveal_strlit("a");
        reveal_strlit("b");
        reveal_strlit("c");
        reveal_strlit("d");
        reveal_strlit("e");
        reveal_strlit("f");
    }
    let digit: &'static str = match n {
        0 => "0",
        1 => "1",
        2 => "2",
        3 => "3",
        4 => "4",
        5 => "5",
        6 => "6",
        7 => "7",
        8 => "8",
        9 => "9",
        10 => "a",
        11 => "b",
        12 => "c",
        13 => "d",
        14 => "e",
        _ => "f",
    };
    assert(digit@ =~= seq![hex_char(n)]);
    digit
}

/// Two hexadecimal digits per byte.
pub open spec fn hex_of(bytes: Seq<u8>) -> Seq<char>
    decreases bytes.len(),
{
    if bytes.len() == 0 {
        Seq::empty()
    } else {
        hex_of(bytes.drop_last()) + seq![hex_char(bytes.last() / 16), hex_char(bytes.last() % 16)]
    }
}

/// The first four bytes in hexadecimal, for diagnostics.
pub fn short_hex(bytes: &[u8]) -> (text: String)
    ensures
        text@ == hex_of(
            bytes@.take(
                if bytes@.len() < 4 {
                    bytes@.len() as int
                } else {
                    4
                },
            ),
        ),
{
    let n: usize = if bytes.len() < 4 {
        bytes.len()
    } else {
        4
    };
    let mut text: String = String::new();
    let mut i: usize = 0;
    while i < n
        invariant
            i <= n <= bytes@.len(),
            text@ == hex_of(bytes@.take(i as int)),
        decreases n - i,
    {
        let b: u8 = bytes[i];
        text.append(hex_digit(b / 16));
        text.append(hex_digit(b % 16));
        proof {
            assert(bytes@.take(i + 1).drop_last() =~= bytes@.take(i as int));
            assert(text@ =~= hex_of(bytes@.take(i as int)) + seq![
                hex_char(b / 16),
                hex_char(b % 16),
            ]);
        }
        i = i + 1;
    }
    text
}

} // verus!
