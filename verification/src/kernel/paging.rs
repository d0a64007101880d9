//! Page tables: four levels of 512 entries over 4 KiB pages.
use vstd::prelude::*;

use crate::kernel::flag::{INNER, NX, P, PA_MASK, PS, RW, US};

verus! {

/// Size of a page.
pub const PAGE_SIZE: u64 = 4096;

/// Entries of a table.
pub const ENTRIES: usize = 512;

/// Address of the kernel image in guest-physical memory.
pub const KERNEL_BASE_GPA: u64 = 0x1000;

/// Where kernel memory is: the scratch region at a high address, and below it
/// the kernel image with its heap.
#[derive(Clone, Copy, Debug, PartialEq, Eq)]
pub struct AddressMap {
    pub scratch_gva: u64,
    pub scratch_gpa: u64,
    pub kernel_base: u64,
}

impl AddressMap {
    /// The scratch region lies above the kernel half, and no region lower in virtual
    /// than in physical memory.
    pub open spec fn wf(&self) -> bool {
        &&& KERNEL_BASE_GPA <= self.kernel_base <= self.scratch_gva
        &&& self.scratch_gpa <= self.scratch_gva
    }

    /// Whether the physical address of a kernel address is its own: it is one of the
    /// scratch region, or one of the kernel half that stays below that region in
    /// physical memory.
    pub open spec fn has_own(&self, va: u64) -> bool {
        &&& self.pa_of(va) is Some
        &&& va >= self.scratch_gva || self.pa_of(va)->0 < self.scratch_gpa
    }

    /// Both regions begin where a page begins, in virtual and in physical memory.
    pub open spec fn page_aligned(&self) -> bool {
        &&& self.kernel_base % 4096 == 0
        &&& self.scratch_gva % 4096 == 0
        &&& self.scratch_gpa % 4096 == 0
    }

    /// The physical address of a kernel address, if it is one.
    pub open spec fn pa_of(&self, va: u64) -> Option<int> {
        if va >= self.scratch_gva {
            Some(self.scratch_gpa + (va - self.scratch_gva))
        } else if va >= self.kernel_base {
            Some(KERNEL_BASE_GPA + (va - self.kernel_base))
        } else {
            None
        }
    }

    /// The kernel address of a physical address, if it has one.
    pub open spec fn va_of(&self, pa: u64) -> Option<int> {
        if pa >= self.scratch_gpa {
            Some(self.scratch_gva + (pa - self.scratch_gpa))
        } else if pa >= KERNEL_BASE_GPA {
            Some(self.kernel_base + (pa - KERNEL_BASE_GPA))
        } else {
            None
        }
    }

    /// The address the kernel image is at.
    pub fn kernel_base_va(&self) -> (va: u64)
        ensures
            va == self.kernel_base,
    {
        self.kernel_base
    }

    /// The physical address of a kernel address; none for user addresses.
    pub fn va_to_pa(&self, va: u64) -> (pa: Option<u64>)
        requires
            self.wf(),
        ensures
            pa is Some <==> self.pa_of(va) is Some,
            pa matches Some(p) ==> p == self.pa_of(va)->0,
    {
        if va >= self.scratch_gva {
            Some(self.scratch_gpa + (va - self.scratch_gva))
        } else if va >= self.kernel_base {
            Some(KERNEL_BASE_GPA + (va - self.kernel_base))
        } else {
            None
        }
    }

    /// The kernel address of a physical address.
    pub fn pa_to_va(&self, pa: u64) -> (va: Option<u64>)
        requires
            self.wf(),
            self.va_of(pa) matches Some(v) ==> v <= u64::MAX,
        ensures
            va is Some <==> self.va_of(pa) is Some,
            va matches Some(v) ==> v == self.va_of(pa)->0,
    {
        if pa >= self.scratch_gpa {
            Some(self.scratch_gva + (pa - self.scratch_gpa))
        } else if pa >= KERNEL_BASE_GPA {
            Some(self.kernel_base + (pa - KERNEL_BASE_GPA))
        } else {
            None
        }
    }
}

/// The two translations undo each other: a kernel address comes back from its
/// physical address.
pub proof fn law_translations_are_inverse(map: AddressMap, va: u64)
    requires
        map.wf(),
        map.has_own(va),
    ensures
        0 <= map.pa_of(va)->0 <= u64::MAX,
        map.va_of((map.pa_of(va)->0) as u64) == Some(va as int),
        forall|other: u64| #[trigger]
            map.has_own(other) && map.pa_of(other) == map.pa_of(va) ==> other == va,
{
}

/// The other way round: a physical address comes back from its kernel address, unless
/// that reaches into the scratch region from below.
pub proof fn law_physical_addresses_come_back(map: AddressMap, pa: u64)
    requires
        map.wf(),
        map.va_of(pa) matches Some(v) && v <= u64::MAX && (pa >= map.scratch_gpa || v
            < map.scratch_gva),
    ensures
        map.pa_of((map.va_of(pa)->0) as u64) == Some(pa as int),
{
}

/// For a top table in a page of physical memory, what is loaded to switch to it is the
/// address of that page, so the kernel finds the top table at its translation.
pub proof fn law_loaded_address_is_the_top_table(table: PageTable, map: AddressMap)
    requires
        table.frame() % 4096 == 0,
        table.frame() <= PA_MASK,
    ensures
        table.loaded() == table.frame(),
        table.loaded() % 4096 == 0,
        map.va_of(table.loaded()) == map.va_of(table.frame()),
{
    let frame = table.frame();
    assert(frame & PA_MASK == frame) by (bit_vector)
        requires
            frame % 4096 == 0,
            frame <= PA_MASK,
    ;
}

/// What a mapping allows.
#[derive(Clone, Copy, Debug, PartialEq, Eq)]
pub struct Perm {
    pub writable: bool,
    pub user: bool,
    pub executable: bool,
}

impl Perm {
    /// Data of the user.
    pub fn user_rw() -> (perm: Perm)
        ensures
            perm == (Perm { writable: true, user: true, executable: false }),
    {
        Perm { writable: true, user: true, executable: false }
    }

    /// Code of the user.
    pub fn user_rx() -> (perm: Perm)
        ensures
            perm == (Perm { writable: false, user: true, executable: true }),
    {
        Perm { writable: false, user: true, executable: true }
    }

    /// Constants of the user.
    pub fn user_ro() -> (perm: Perm)
        ensures
            perm == (Perm { writable: false, user: true, executable: false }),
    {
        Perm { writable: false, user: true, executable: false }
    }

    /// Data of the kernel.
    pub fn kernel_rw() -> (perm: Perm)
        ensures
            perm == (Perm { writable: true, user: false, executable: false }),
    {
        Perm { writable: true, user: false, executable: false }
    }

    /// The bits of a leaf entry with this permission.
    pub open spec fn bits(&self) -> u64 {
        P | (if self.writable {
            RW
        } else {
            0
        }) | (if self.user {
            US
        } else {
            0
        }) | (if self.executable {
            0
        } else {
            NX
        })
    }

    /// The bits of a leaf entry with this permission.
    pub fn pte_flags(&self) -> (bits: u64)
        ensures
            bits == self.bits(),
    {
        P | (if self.writable {
            RW
        } else {
            0
        }) | (if self.user {
            US
        } else {
            0
        }) | (if self.executable {
            0
        } else {
            NX
        })
    }
}

/// The leaf entry for physical address `pa` with permission `perm`.
pub open spec fn leaf_entry(pa: u64, perm: Perm) -> u64 {
    (pa & PA_MASK) | perm.bits()
}

/// Whether an entry is in use.
pub open spec fn present(entry: u64) -> bool {
    entry & P != 0
}

/// The number of the page that an address is in.
pub open spec fn page_number(va: u64) -> u64 {
    (va >> 12) & 0xF_FFFF_FFFF
}

/// Which entry of the table at a level an address goes through; `shift` is 12
/// for the lowest level and grows by 9.
pub open spec fn entry_index(va: u64, shift: int) -> int {
    ((va >> (shift as u64)) & 0x1FF) as int
}

pub(crate) fn index_at(va: u64, shift: u64) -> (index: usize)
    requires
        shift < 64,
    ensures
        index == entry_index(va, shift as int),
        index < ENTRIES,
{
    assert((va >> shift) & 0x1FF < 512) by (bit_vector)
        requires
            shift < 64,
    ;
    ((va >> shift) & 0x1FF) as usize
}

/// An address goes through an entry that its table has.
pub proof fn lemma_index_bound(va: u64, shift: int)
    requires
        0 <= shift <= 39,
    ensures
        0 <= entry_index(va, shift) < ENTRIES,
{
    let s = shift as u64;
    assert((va >> s) & 0x1FF < 512) by (bit_vector)
        requires
            s < 64,
    ;
}

proof fn lemma_same_table<C: TableNode>(a: InnerTable<C>, b: InnerTable<C>)
    requires
        a.wf(),
        a.frame == b.frame,
        a.entries@ == b.entries@,
        a.children@ == b.children@,
    ensures
        b.wf(),
        forall|v: u64| #[trigger] b.leaf(v) == a.leaf(v),
        forall|v: u64| #[trigger] b.blocked(v) == a.blocked(v),
{
    assert forall|i: int| 0 <= i < ENTRIES implies #[trigger] b.linked(i) by {
        assert(a.linked(i));
    }
    assert forall|v: u64| #[trigger] b.leaf(v) == a.leaf(v) by {
        assert(b.child(v) == a.child(v));
    }
    assert forall|v: u64| #[trigger] b.blocked(v) == a.blocked(v) by {
        assert(b.child(v) == a.child(v));
    }
}

proof fn lemma_same_page(a: u64, b: u64)
    ensures
        page_number(a) == page_number(b) <==> (entry_index(a, 39) == entry_index(b, 39)
            && entry_index(a, 30) == entry_index(b, 30) && entry_index(a, 21) == entry_index(b, 21)
            && entry_index(a, 12) == entry_index(b, 12)),
{
    assert(((a >> 12) & 0xF_FFFF_FFFF == (b >> 12) & 0xF_FFFF_FFFF) <==> ((a >> 39) & 0x1FF == (b
        >> 39) & 0x1FF && (a >> 30) & 0x1FF == (b >> 30) & 0x1FF && (a >> 21) & 0x1FF == (b >> 21)
        & 0x1FF && (a >> 12) & 0x1FF == (b >> 12) & 0x1FF)) by (bit_vector);
}

/// A present leaf entry is that of its address and permission.
pub proof fn law_leaf_entry_reads_back(pa: u64, perm: Perm)
    ensures
        present(leaf_entry(pa, perm)),
        leaf_entry(pa, perm) & PA_MASK == pa & PA_MASK,
        leaf_entry(pa, perm) & RW != 0 <==> perm.writable,
        leaf_entry(pa, perm) & US != 0 <==> perm.user,
        leaf_entry(pa, perm) & NX == 0 <==> perm.executable,
{
    let w: u64 = if perm.writable {
        RW
    } else {
        0
    };
    let u: u64 = if perm.user {
        US
    } else {
        0
    };
    let x: u64 = if perm.executable {
        0
    } else {
        NX
    };
    let e: u64 = (pa & PA_MASK) | (P | w | u | x);
    assert(e & P != 0 && e & PA_MASK == pa & PA_MASK && (e & RW != 0 <==> w == RW) && (e & US != 0
        <==> u == US) && (e & NX == 0 <==> x == 0)) by (bit_vector)
        requires
            e == (pa & PA_MASK) | (P | w | u | x),
            w == RW || w == 0,
            u == US || u == 0,
            x == NX || x == 0,
    ;
}

/// The entry that leads to the inner table at `pa`.
pub open spec fn inner_entry(pa: u64) -> u64 {
    (pa & PA_MASK) | INNER
}

proof fn lemma_inner_entry(pa: u64)
    ensures
        present(inner_entry(pa)),
        inner_entry(pa) & PS == 0,
        inner_entry(pa) & PA_MASK == pa & PA_MASK,
{
    assert(((pa & PA_MASK) | INNER) & P != 0) by (bit_vector);
    assert(((pa & PA_MASK) | INNER) & PS == 0) by (bit_vector);
    assert(((pa & PA_MASK) | INNER) & PA_MASK == pa & PA_MASK) by (bit_vector);
}

proof fn lemma_reassert_inner(entry: u64)
    ensures
        present(entry | INNER),
        (entry | INNER) & PS == entry & PS,
        (entry | INNER) & PA_MASK == entry & PA_MASK,
{
    assert((entry | INNER) & P != 0) by (bit_vector);
    assert((entry | INNER) & PS == entry & PS) by (bit_vector);
    assert((entry | INNER) & PA_MASK == entry & PA_MASK) by (bit_vector);
}

proof fn lemma_absent()
    ensures
        !present(0),
{
    assert(0u64 & P == 0) by (bit_vector);
}

proof fn lemma_set_w(entry: u64)
    ensures
        present(entry | RW) == present(entry),
        present(entry & !RW) == present(entry),
{
    assert((entry | RW) & P == entry & P) by (bit_vector);
    assert((entry & !RW) & P == entry & P) by (bit_vector);
}

/// The entry with the write permission as given.
pub open spec fn with_w(entry: u64, writable: bool) -> u64 {
    if writable {
        entry | RW
    } else {
        entry & !RW
    }
}

/// The smaller of two numbers.
pub open spec fn lesser(a: nat, b: nat) -> nat {
    if a <= b {
        a
    } else {
        b
    }
}

/// How many tables are missing for an address that lacked `missing`, after `free` of
/// the `need` tables on the way to another, from which it is `apart`, were made.
pub open spec fn missing_short(missing: nat, apart: nat, need: nat, free: nat) -> nat {
    lesser(
        missing,
        if apart + free >= need {
            apart
        } else {
            (need - free) as nat
        },
    )
}

/// A copy of a list of pages.
pub(crate) fn copy_pages(pages: &Vec<u64>) -> (copy: Vec<u64>)
    ensures
        copy@ == pages@,
{
    let mut copy: Vec<u64> = Vec::new();
    let mut i: usize = 0;
    while i < pages.len()
        invariant
            i <= pages@.len(),
            copy@ == pages@.take(i as int),
        decreases pages@.len() - i,
    {
        copy.push(pages[i]);
        i = i + 1;
    }
    assert(pages@.take(i as int) =~= pages@);
    copy
}

/// How many of the tables on the way to `a` are not on the way to `b`: those below
/// the first entry in which they differ.
pub open spec fn tables_apart(a: u64, b: u64) -> nat {
    if entry_index(a, 39) != entry_index(b, 39) {
        3
    } else if entry_index(a, 30) != entry_index(b, 30) {
        2
    } else if entry_index(a, 21) != entry_index(b, 21) {
        1
    } else {
        0
    }
}

fn empty_entries() -> (entries: Vec<u64>)
    ensures
        entries@.len() == ENTRIES,
        forall|i: int| 0 <= i < ENTRIES ==> entries@[i] == 0,
{
    let mut entries: Vec<u64> = Vec::new();
    let mut i: usize = 0;
    while i < ENTRIES
        invariant
            i <= ENTRIES,
            entries@.len() == i,
            forall|j: int| 0 <= j < i ==> entries@[j] == 0,
        decreases ENTRIES - i,
    {
        entries.push(0);
        i = i + 1;
    }
    entries
}

/// A table and those below it.
pub trait TableNode: Sized {
    /// Number of the lowest address bit that selects an entry.
    spec fn shift() -> int;

    /// The page the table is in.
    spec fn frame(&self) -> u64;

    spec fn wf(&self) -> bool;

    /// Whether two addresses lead to the same leaf entry.
    spec fn same_leaf(a: u64, b: u64) -> bool;

    /// The leaf entry in use for an address.
    spec fn leaf(&self, va: u64) -> Option<u64>;

    /// Whether the tables down to the leaf are there.
    spec fn reaches(&self, va: u64) -> bool;

    /// Whether an entry on the way belongs to somebody else: a large page, or a
    /// table that was not made here.
    spec fn blocked(&self, va: u64) -> bool;

    /// The entry on the way that belongs to somebody else, and the lowest address bit
    /// that selects it in its table.
    spec fn foreign(&self, va: u64) -> Option<(u64, int)>;

    /// How many tables are missing down to the leaf.
    spec fn missing(&self, va: u64) -> nat;

    /// How many tables are missing below an empty one.
    spec fn depth() -> nat;

    /// How many of the tables on the way to `a` are not on the way to `b`.
    spec fn apart(a: u64, b: u64) -> nat;

    proof fn shift_bound()
        ensures
            12 <= Self::shift(),
    ;

    fn shift_bits() -> (bits: u64)
        requires
            Self::shift() <= 39,
        ensures
            bits == Self::shift(),
    ;

    /// An empty table in page `frame`.
    fn fresh(frame: u64) -> (table: Self)
        requires
            Self::shift() <= 39,
        ensures
            table.wf(),
            table.frame() == frame,
            forall|va: u64| #[trigger] table.leaf(va) is None,
            forall|va: u64| !#[trigger] table.blocked(va),
            forall|va: u64| #[trigger] table.foreign(va) is None,
            forall|va: u64| #[trigger] table.missing(va) == Self::depth(),
    ;

    /// Put `entry` at the leaf of `va`, making missing tables in pages from the
    /// end of `frames`.
    fn set_leaf(&mut self, va: u64, entry: u64, frames: &mut Vec<u64>) -> (done: bool)
        requires
            old(self).wf(),
            present(entry),
        ensures
            final(self).wf(),
            final(self).frame() == old(self).frame(),
            done == (!old(self).blocked(va) && old(self).missing(va) <= old(frames)@.len()),
            final(frames)@ == if done {
                old(frames)@.take(old(frames)@.len() - old(self).missing(va))
            } else if old(self).blocked(va) {
                old(frames)@
            } else {
                Seq::empty()
            },
            forall|v: u64| #[trigger]
                final(self).leaf(v) == if done && Self::same_leaf(v, va) {
                    Some(entry)
                } else {
                    old(self).leaf(v)
                },
            forall|v: u64| #[trigger] final(self).blocked(v) == old(self).blocked(v),
            forall|v: u64| #[trigger] final(self).foreign(v) == old(self).foreign(v),
            done ==> final(self).reaches(va),
            forall|v: u64| #[trigger]
                final(self).missing(v) == if old(self).blocked(va) {
                    old(self).missing(v)
                } else {
                    missing_short(
                        old(self).missing(v),
                        Self::apart(v, va),
                        old(self).missing(va),
                        old(frames)@.len(),
                    )
                },
    ;

    /// The leaf entry in use for an address.
    fn get_leaf(&self, va: u64) -> (entry: Option<u64>)
        requires
            self.wf(),
        ensures
            entry == self.leaf(va),
    ;

    /// Put `entry` at the leaf of `va` where the tables are there.
    fn replace_leaf(&mut self, va: u64, entry: u64) -> (done: bool)
        requires
            old(self).wf(),
            present(entry),
        ensures
            final(self).wf(),
            final(self).frame() == old(self).frame(),
            done == old(self).reaches(va),
            forall|v: u64| #[trigger]
                final(self).leaf(v) == if done && Self::same_leaf(v, va) {
                    Some(entry)
                } else {
                    old(self).leaf(v)
                },
            forall|v: u64| #[trigger] final(self).blocked(v) == old(self).blocked(v),
            forall|v: u64| #[trigger] final(self).foreign(v) == old(self).foreign(v),
            forall|v: u64| #[trigger] final(self).missing(v) == old(self).missing(v),
    ;

    /// The entry on the way that belongs to somebody else, and the lowest address bit
    /// that selects it in its table.
    fn foreign_entry(&self, va: u64) -> (found: Option<(u64, u64)>)
        requires
            self.wf(),
        ensures
            match found {
                Some((entry, shift)) => self.foreign(va) == Some((entry, shift as int)),
                None => self.foreign(va) is None,
            },
    ;

    /// A leaf in use has the tables down to it.
    proof fn leaf_is_reached(&self, va: u64)
        requires
            self.leaf(va) is Some,
        ensures
            self.reaches(va),
    ;

    /// No more tables can be missing than below an empty table.
    proof fn missing_bound(&self, va: u64)
        ensures
            self.missing(va) <= Self::depth(),
    ;

    /// Below a table there are no more tables than below an empty one.
    proof fn apart_bound(a: u64, b: u64)
        ensures
            Self::apart(a, b) <= Self::depth(),
    ;
}

/// A lowest table: its entries are pages.
#[derive(Debug)]
pub struct LeafTable {
    pub frame: u64,
    pub entries: Vec<u64>,
}

impl TableNode for LeafTable {
    open spec fn shift() -> int {
        12
    }

    open spec fn frame(&self) -> u64 {
        self.frame
    }

    open spec fn wf(&self) -> bool {
        self.entries@.len() == ENTRIES
    }

    open spec fn same_leaf(a: u64, b: u64) -> bool {
        entry_index(a, 12) == entry_index(b, 12)
    }

    open spec fn leaf(&self, va: u64) -> Option<u64> {
        let e = self.entries@[entry_index(va, 12)];
        if present(e) {
            Some(e)
        } else {
            None
        }
    }

    open spec fn reaches(&self, va: u64) -> bool {
        true
    }

    open spec fn blocked(&self, va: u64) -> bool {
        false
    }

    open spec fn foreign(&self, va: u64) -> Option<(u64, int)> {
        None
    }

    open spec fn missing(&self, va: u64) -> nat {
        0
    }

    open spec fn depth() -> nat {
        0
    }

    open spec fn apart(a: u64, b: u64) -> nat {
        0
    }

    proof fn shift_bound() {
    }

    proof fn leaf_is_reached(&self, va: u64) {
    }

    proof fn missing_bound(&self, va: u64) {
    }

    proof fn apart_bound(a: u64, b: u64) {
    }

    fn shift_bits() -> u64 {
        12
    }

    fn fresh(frame: u64) -> LeafTable {
        let table = LeafTable { frame, entries: empty_entries() };
        assert forall|va: u64| #[trigger] table.leaf(va) is None by {
            lemma_absent();
            assert((va >> 12) & 0x1FF < 512) by (bit_vector);
        }
        table
    }

    fn set_leaf(&mut self, va: u64, entry: u64, frames: &mut Vec<u64>) -> bool {
        proof {
            assert(frames@.take(frames@.len() as int) =~= frames@);
        }
        self.replace_leaf(va, entry)
    }

    fn foreign_entry(&self, va: u64) -> Option<(u64, u64)> {
        None
    }

    fn get_leaf(&self, va: u64) -> Option<u64> {
        let entry: u64 = self.entries[index_at(va, 12)];
        if entry & P != 0 {
            Some(entry)
        } else {
            None
        }
    }

    fn replace_leaf(&mut self, va: u64, entry: u64) -> bool {
        let index: usize = index_at(va, 12);
        let ghost before = *self;
        self.entries.set(index, entry);
        proof {
            assert forall|v: u64| #[trigger] self.leaf(v) == if LeafTable::same_leaf(v, va) {
                Some(entry)
            } else {
                before.leaf(v)
            } by {
                assert((v >> 12) & 0x1FF < 512) by (bit_vector);
            }
        }
        true
    }
}

/// A table whose entries lead to tables. The tables made here are its children;
/// an entry in use without a child leads to a table of somebody else.
#[derive(Debug)]
pub struct InnerTable<C> {
    pub frame: u64,
    pub entries: Vec<u64>,
    pub children: Vec<Option<Box<C>>>,
}

impl<C: TableNode> InnerTable<C> {
    /// The child that `va` goes through.
    pub open spec fn child(&self, va: u64) -> Option<Box<C>> {
        self.children@[entry_index(va, Self::shift())]
    }

    /// The entry that `va` goes through.
    pub open spec fn entry(&self, va: u64) -> u64 {
        self.entries@[entry_index(va, Self::shift())]
    }

    /// Whether entry `i` leads to child `i`.
    pub open spec fn linked(&self, i: int) -> bool {
        self.children@[i] matches Some(c) ==> {
            &&& c.wf()
            &&& present(self.entries@[i])
            &&& self.entries@[i] & PS == 0
            &&& self.entries@[i] & PA_MASK == c.frame() & PA_MASK
        }
    }

    fn empty(frame: u64) -> (table: InnerTable<C>)
        ensures
            table.frame == frame,
            table.entries@.len() == ENTRIES,
            table.children@.len() == ENTRIES,
            forall|i: int| 0 <= i < ENTRIES ==> table.entries@[i] == 0,
            forall|i: int| 0 <= i < ENTRIES ==> table.children@[i] is None,
    {
        let entries = empty_entries();
        let mut children: Vec<Option<Box<C>>> = Vec::new();
        let mut i: usize = 0;
        while i < ENTRIES
            invariant
                i <= ENTRIES,
                children@.len() == i,
                forall|j: int| 0 <= j < i ==> children@[j] is None,
            decreases ENTRIES - i,
        {
            children.push(None);
            i = i + 1;
        }
        InnerTable { frame, entries, children }
    }

    /// Make sure that entry `index` has a child, and take the child out. `None` if
    /// the entry belongs to somebody else or there is no page left.
    fn take_child(&mut self, index: usize, frames: &mut Vec<u64>) -> (child: Option<Box<C>>)
        requires
            old(self).wf(),
            index < ENTRIES,
        ensures
            final(self).frame == old(self).frame,
            final(self).entries@.len() == ENTRIES,
            final(self).children@.len() == ENTRIES,
            child is None ==> final(self).entries@ == old(self).entries@
                && final(self).children@ == old(self).children@ && final(frames)@ == old(frames)@,
            child is None <==> old(self).children@[index as int] is None && (present(
                old(self).entries@[index as int],
            ) || old(frames)@.len() == 0),
            child matches Some(c) ==> {
                &&& final(self).children@ == old(self).children@.update(index as int, None)
                &&& present(final(self).entries@[index as int])
                &&& final(self).entries@[index as int] & PS == 0
                &&& final(self).entries@[index as int] & PA_MASK == c.frame() & PA_MASK
                &&& forall|i: int|
                    0 <= i < ENTRIES && i != index ==> final(self).entries@[i]
                        == old(self).entries@[i]
                &&& c.wf()
                &&& match old(self).children@[index as int] {
                    Some(o) => c == o && final(frames)@ == old(frames)@,
                    None => {
                        &&& final(frames)@ == old(frames)@.drop_last()
                        &&& c.frame() == old(frames)@.last()
                        &&& forall|va: u64| #[trigger] c.leaf(va) is None
                        &&& forall|va: u64| !#[trigger] c.blocked(va)
                        &&& forall|va: u64| #[trigger] c.foreign(va) is None
                        &&& forall|va: u64| #[trigger] c.missing(va) == C::depth()
                    },
                }
            },
    {
        let mut slot: Option<Box<C>> = None;
        assert(self.linked(index as int));
        std::mem::swap(&mut slot, &mut self.children[index]);
        match slot {
            Some(c) => {
                let entry: u64 = self.entries[index];
                proof {
                    lemma_reassert_inner(entry);
                }
                self.entries.set(index, entry | INNER);
                Some(c)
            },
            None => {
                assert(self.children@ =~= old(self).children@);
                if self.entries[index] & P != 0 {
                    return None;
                }
                match frames.pop() {
                    None => None,
                    Some(frame) => {
                        proof {
                            lemma_inner_entry(frame);
                        }
                        self.entries.set(index, (frame & PA_MASK) | INNER);
                        Some(Box::new(C::fresh(frame)))
                    },
                }
            },
        }
    }
}

impl<C: TableNode> TableNode for InnerTable<C> {
    open spec fn shift() -> int {
        C::shift() + 9
    }

    open spec fn frame(&self) -> u64 {
        self.frame
    }

    open spec fn wf(&self) -> bool {
        &&& C::shift() <= 30
        &&& self.entries@.len() == ENTRIES
        &&& self.children@.len() == ENTRIES
        &&& forall|i: int| 0 <= i < ENTRIES ==> #[trigger] self.linked(i)
    }

    open spec fn same_leaf(a: u64, b: u64) -> bool {
        entry_index(a, Self::shift()) == entry_index(b, Self::shift()) && C::same_leaf(a, b)
    }

    open spec fn leaf(&self, va: u64) -> Option<u64> {
        match self.child(va) {
            Some(c) => c.leaf(va),
            None => None,
        }
    }

    open spec fn reaches(&self, va: u64) -> bool {
        self.child(va) matches Some(c) && c.reaches(va)
    }

    open spec fn blocked(&self, va: u64) -> bool {
        match self.child(va) {
            Some(c) => c.blocked(va),
            None => present(self.entry(va)),
        }
    }

    open spec fn foreign(&self, va: u64) -> Option<(u64, int)> {
        match self.child(va) {
            Some(c) => c.foreign(va),
            None => if present(self.entry(va)) {
                Some((self.entry(va), Self::shift()))
            } else {
                None
            },
        }
    }

    open spec fn missing(&self, va: u64) -> nat {
        match self.child(va) {
            Some(c) => c.missing(va),
            None => 1 + C::depth(),
        }
    }

    open spec fn depth() -> nat {
        1 + C::depth()
    }

    open spec fn apart(a: u64, b: u64) -> nat {
        if entry_index(a, Self::shift()) == entry_index(b, Self::shift()) {
            C::apart(a, b)
        } else {
            1 + C::depth()
        }
    }

    proof fn shift_bound() {
        C::shift_bound();
    }

    proof fn leaf_is_reached(&self, va: u64) {
        self.child(va)->0.leaf_is_reached(va);
    }

    proof fn missing_bound(&self, va: u64) {
        if let Some(c) = self.child(va) {
            c.missing_bound(va);
        }
    }

    proof fn apart_bound(a: u64, b: u64) {
        C::apart_bound(a, b);
    }

    fn shift_bits() -> u64 {
        C::shift_bits() + 9
    }

    fn fresh(frame: u64) -> InnerTable<C> {
        let table = InnerTable::empty(frame);
        proof {
            C::shift_bound();
            lemma_absent();
            assert forall|va: u64| #[trigger] table.child(va) is None && !present(
                table.entry(va),
            ) by {
                lemma_index_bound(va, Self::shift());
            }
            assert forall|va: u64| #[trigger] table.leaf(va) is None by {
                assert(table.child(va) is None);
            }
            assert forall|va: u64| !#[trigger] table.blocked(va) by {
                assert(table.child(va) is None);
            }
            assert forall|va: u64| #[trigger] table.foreign(va) is None by {
                assert(table.child(va) is None);
            }
            assert forall|va: u64| #[trigger] table.missing(va) == Self::depth() by {
                assert(table.child(va) is None);
            }
        }
        table
    }

    fn set_leaf(&mut self, va: u64, entry: u64, frames: &mut Vec<u64>) -> bool {
        proof {
            C::shift_bound();
        }
        let index: usize = index_at(va, Self::shift_bits());
        let ghost before = *self;
        let ghost frames_before = frames@;
        assert(self.linked(index as int));
        match self.take_child(index, frames) {
            None => {
                proof {
                    lemma_same_table(before, *self);
                    assert forall|v: u64| #[trigger] self.missing(v) == if before.blocked(va) {
                        before.missing(v)
                    } else {
                        missing_short(
                            before.missing(v),
                            Self::apart(v, va),
                            before.missing(va),
                            frames_before.len(),
                        )
                    } by {
                        before.missing_bound(v);
                        assert(self.child(v) == before.child(v));
                    }
                }
                false
            },
            Some(mut child) => {
                let ghost frames_below = frames@;
                let ghost fresh = *child;
                let done = (*child).set_leaf(va, entry, frames);
                let ghost made = *child;
                self.children.set(index, Some(child));
                proof {
                    assert forall|i: int| 0 <= i < ENTRIES implies #[trigger] self.linked(i) by {
                        assert(before.linked(i));
                    }
                    assert forall|v: u64| #[trigger] self.leaf(v) == if done && Self::same_leaf(
                        v,
                        va,
                    ) {
                        Some(entry)
                    } else {
                        before.leaf(v)
                    } by {
                        lemma_index_bound(v, Self::shift());
                        if entry_index(v, Self::shift()) == index {
                            assert(self.child(v) == Some(Box::new(made)));
                            assert(made.leaf(v) == if done && C::same_leaf(v, va) {
                                Some(entry)
                            } else {
                                fresh.leaf(v)
                            });
                        } else {
                            assert(self.child(v) == before.child(v));
                        }
                    }
                    assert forall|v: u64| #[trigger] self.blocked(v) == before.blocked(v) by {
                        lemma_index_bound(v, Self::shift());
                        if entry_index(v, Self::shift()) == index {
                            assert(self.child(v) == Some(Box::new(made)));
                            assert(made.blocked(v) == fresh.blocked(v));
                        } else {
                            assert(self.child(v) == before.child(v));
                        }
                    }
                    assert forall|v: u64| #[trigger] self.foreign(v) == before.foreign(v) by {
                        lemma_index_bound(v, Self::shift());
                        if entry_index(v, Self::shift()) == index {
                            assert(self.child(v) == Some(Box::new(made)));
                            assert(made.foreign(v) == fresh.foreign(v));
                        } else {
                            assert(self.child(v) == before.child(v));
                        }
                    }
                    if done {
                        assert(frames@ =~= frames_before.take(
                            frames_before.len() - before.missing(va),
                        ));
                    }
                    assert forall|v: u64| #[trigger] self.missing(v) == if before.blocked(va) {
                        before.missing(v)
                    } else {
                        missing_short(
                            before.missing(v),
                            Self::apart(v, va),
                            before.missing(va),
                            frames_before.len(),
                        )
                    } by {
                        lemma_index_bound(v, Self::shift());
                        lemma_index_bound(va, Self::shift());
                        if entry_index(v, Self::shift()) == index {
                            C::apart_bound(v, va);
                            assert(self.child(v) == Some(Box::new(made)));
                            assert(made.missing(v) == if fresh.blocked(va) {
                                fresh.missing(v)
                            } else {
                                missing_short(
                                    fresh.missing(v),
                                    C::apart(v, va),
                                    fresh.missing(va),
                                    frames_below.len(),
                                )
                            });
                        } else {
                            before.missing_bound(v);
                            assert(self.child(v) == before.child(v));
                        }
                    }
                }
                done
            },
        }
    }

    fn get_leaf(&self, va: u64) -> Option<u64> {
        proof {
            C::shift_bound();
        }
        let index: usize = index_at(va, Self::shift_bits());
        assert(self.linked(index as int));
        match &self.children[index] {
            Some(c) => c.get_leaf(va),
            None => None,
        }
    }

    fn foreign_entry(&self, va: u64) -> Option<(u64, u64)> {
        proof {
            C::shift_bound();
        }
        let shift: u64 = Self::shift_bits();
        let index: usize = index_at(va, shift);
        assert(self.linked(index as int));
        match &self.children[index] {
            Some(c) => c.foreign_entry(va),
            None => {
                let entry: u64 = self.entries[index];
                if entry & P != 0 {
                    Some((entry, shift))
                } else {
                    None
                }
            },
        }
    }

    fn replace_leaf(&mut self, va: u64, entry: u64) -> bool {
        proof {
            C::shift_bound();
        }
        let index: usize = index_at(va, Self::shift_bits());
        let ghost before = *self;
        assert(self.linked(index as int));
        let mut slot: Option<Box<C>> = None;
        std::mem::swap(&mut slot, &mut self.children[index]);
        match slot {
            None => {
                assert(self.children@ =~= before.children@);
                proof {
                    lemma_same_table(before, *self);
                }
                false
            },
            Some(mut child) => {
                let ghost old_child = *child;
                let done = (*child).replace_leaf(va, entry);
                let ghost made = *child;
                self.children.set(index, Some(child));
                proof {
                    assert forall|i: int| 0 <= i < ENTRIES implies #[trigger] self.linked(i) by {
                        assert(before.linked(i));
                    }
                    assert forall|v: u64| #[trigger] self.leaf(v) == if done && Self::same_leaf(
                        v,
                        va,
                    ) {
                        Some(entry)
                    } else {
                        before.leaf(v)
                    } by {
                        lemma_index_bound(v, Self::shift());
                        if entry_index(v, Self::shift()) == index {
                            assert(self.child(v) == Some(Box::new(made)));
                            assert(made.leaf(v) == if done && C::same_leaf(v, va) {
                                Some(entry)
                            } else {
                                old_child.leaf(v)
                            });
                        } else {
                            assert(self.child(v) == before.child(v));
                        }
                    }
                    assert forall|v: u64| #[trigger] self.blocked(v) == before.blocked(v) by {
                        lemma_index_bound(v, Self::shift());
                        if entry_index(v, Self::shift()) == index {
                            assert(self.child(v) == Some(Box::new(made)));
                            assert(made.blocked(v) == old_child.blocked(v));
                        } else {
                            assert(self.child(v) == before.child(v));
                        }
                    }
                    assert forall|v: u64| #[trigger] self.foreign(v) == before.foreign(v) by {
                        lemma_index_bound(v, Self::shift());
                        if entry_index(v, Self::shift()) == index {
                            assert(self.child(v) == Some(Box::new(made)));
                            assert(made.foreign(v) == old_child.foreign(v));
                        } else {
                            assert(self.child(v) == before.child(v));
                        }
                    }
                    assert forall|v: u64| #[trigger] self.missing(v) == before.missing(v) by {
                        lemma_index_bound(v, Self::shift());
                        if entry_index(v, Self::shift()) == index {
                            assert(self.child(v) == Some(Box::new(made)));
                            assert(made.missing(v) == old_child.missing(v));
                        } else {
                            assert(self.child(v) == before.child(v));
                        }
                    }
                }
                done
            },
        }
    }
}

/// A table of leaf tables: 1 GiB.
pub type Directory = InnerTable<LeafTable>;

/// A table of directories: 512 GiB.
pub type DirectoryPointers = InnerTable<Directory>;

/// A top table.
pub type Pml4 = InnerTable<DirectoryPointers>;

/// The page table of an invocation, with the tables it has made. The rest of the
/// address space belongs to the kernel or to a template.
#[derive(Debug)]
pub struct PageTable {
    root: Option<Box<Pml4>>,
}

/// The leaf of `v` after `pages` pages from `virt` on were mapped to those from
/// `phys` on, where it was `before`.
pub open spec fn mapped_leaf(
    before: Option<u64>,
    v: u64,
    virt: u64,
    phys: u64,
    pages: nat,
    perm: Perm,
) -> Option<u64>
    decreases pages,
{
    if pages == 0 {
        before
    } else {
        let offset = (pages - 1) * PAGE_SIZE;
        if page_number(v) == page_number((virt + offset) as u64) {
            Some(leaf_entry((phys + offset) as u64, perm))
        } else {
            mapped_leaf(before, v, virt, phys, (pages - 1) as nat, perm)
        }
    }
}

/// Page `k` from `virt` on.
pub open spec fn nth_page(virt: u64, k: int) -> u64 {
    (virt + k * PAGE_SIZE) as u64
}

/// How many tables are missing down to `v` after `pages` pages from `virt` on were
/// mapped, where it was `before`.
pub open spec fn missing_after(before: nat, v: u64, virt: u64, pages: nat) -> nat
    decreases pages,
{
    if pages == 0 {
        before
    } else {
        lesser(
            missing_after(before, v, virt, (pages - 1) as nat),
            tables_apart(v, nth_page(virt, pages - 1)),
        )
    }
}

/// How many tables mapping `pages` pages from `virt` on makes, where `missing` are
/// missing down to each address.
pub open spec fn tables_needed(missing: spec_fn(u64) -> nat, virt: u64, pages: nat) -> nat
    decreases pages,
{
    if pages == 0 {
        0
    } else {
        let last = nth_page(virt, pages - 1);
        tables_needed(missing, virt, (pages - 1) as nat) + missing_after(
            missing(last),
            last,
            virt,
            (pages - 1) as nat,
        )
    }
}

/// Whole pages to map: `len` bytes from `va` on to those from `pa` on.
#[derive(Clone, Copy, Debug, PartialEq, Eq)]
pub struct MapPart {
    pub va: u64,
    pub pa: u64,
    pub len: u64,
    pub perm: Perm,
}

impl MapPart {
    pub open spec fn wf(&self) -> bool {
        &&& self.va % PAGE_SIZE == 0
        &&& self.pa % PAGE_SIZE == 0
        &&& self.len % PAGE_SIZE == 0
        &&& self.va + self.len <= u64::MAX
        &&& self.pa + self.len <= u64::MAX
    }

    /// How many pages it has.
    pub open spec fn pages(&self) -> nat {
        (self.len / PAGE_SIZE) as nat
    }
}

/// The leaf of `v` after the first `n` parts were mapped, where it was `before`.
pub open spec fn parts_leaf(before: Option<u64>, v: u64, parts: Seq<MapPart>, n: nat) -> Option<u64>
    decreases n,
{
    if n == 0 {
        before
    } else {
        let p = parts[n - 1];
        mapped_leaf(
            parts_leaf(before, v, parts, (n - 1) as nat),
            v,
            p.va,
            p.pa,
            p.pages(),
            p.perm,
        )
    }
}

/// How many tables are missing down to `v` after the first `n` parts were mapped,
/// where it was `before`.
pub open spec fn parts_missing(before: nat, v: u64, parts: Seq<MapPart>, n: nat) -> nat
    decreases n,
{
    if n == 0 {
        before
    } else {
        let p = parts[n - 1];
        missing_after(parts_missing(before, v, parts, (n - 1) as nat), v, p.va, p.pages())
    }
}

/// How many tables mapping the first `n` parts makes.
pub open spec fn parts_tables(missing: spec_fn(u64) -> nat, parts: Seq<MapPart>, n: nat) -> nat
    decreases n,
{
    if n == 0 {
        0
    } else {
        let p = parts[n - 1];
        parts_tables(missing, parts, (n - 1) as nat) + tables_needed(
            |v: u64| parts_missing(missing(v), v, parts, (n - 1) as nat),
            p.va,
            p.pages(),
        )
    }
}

/// The number of the 1 GiB region that an address is in.
pub open spec fn region_number(va: u64) -> u64 {
    (va >> 30) & 0x3FFFF
}

/// The number of the 512 GiB region that an address is in.
pub open spec fn slot_number(va: u64) -> u64 {
    (va >> 39) & 0x1FF
}

proof fn lemma_same_region(a: u64, b: u64)
    ensures
        region_number(a) == region_number(b) <==> (entry_index(a, 39) == entry_index(b, 39)
            && entry_index(a, 30) == entry_index(b, 30)),
{
    assert(((a >> 30) & 0x3FFFF == (b >> 30) & 0x3FFFF) <==> ((a >> 39) & 0x1FF == (b >> 39) & 0x1FF
        && (a >> 30) & 0x1FF == (b >> 30) & 0x1FF)) by (bit_vector);
}

impl PageTable {
    #[verifier::type_invariant]
    spec fn tables_wf(&self) -> bool {
        self.root matches Some(r) ==> r.wf()
    }

    /// What is loaded to switch to this table: the address bits of the page of the top
    /// table.
    pub open spec fn loaded(&self) -> u64 {
        self.frame() & PA_MASK
    }

    /// The page of the top table.
    pub closed spec fn frame(&self) -> u64 {
        match self.root {
            Some(r) => r.frame,
            None => 0,
        }
    }

    /// The entries of the top table.
    pub closed spec fn top_entries(&self) -> Seq<u64> {
        match self.root {
            Some(r) => r.entries@,
            None => Seq::empty(),
        }
    }

    /// The leaf entry in use for an address.
    pub closed spec fn leaf(&self, va: u64) -> Option<u64> {
        match self.root {
            Some(r) => r.leaf(va),
            None => None,
        }
    }

    /// Whether the tables down to the leaf of an address are there.
    pub closed spec fn reaches(&self, va: u64) -> bool {
        match self.root {
            Some(r) => r.reaches(va),
            None => false,
        }
    }

    /// Whether an entry on the way to an address belongs to somebody else.
    pub closed spec fn blocked(&self, va: u64) -> bool {
        match self.root {
            Some(r) => r.blocked(va),
            None => true,
        }
    }

    /// The entry that an address goes through and that belongs to somebody else, and the
    /// lowest address bit that selects it in its table.
    pub closed spec fn foreign(&self, va: u64) -> Option<(u64, int)> {
        match self.root {
            Some(r) => r.foreign(va),
            None => None,
        }
    }

    /// An entry that belongs to somebody else is in one of the tables above the lowest.
    pub proof fn lemma_foreign_level(&self, va: u64)
        ensures
            self.foreign(va) matches Some((entry, shift)) ==> shift == 39 || shift == 30 || shift
                == 21,
    {
        assert(Pml4::shift() == 39);
        assert(DirectoryPointers::shift() == 30);
        assert(Directory::shift() == 21);
    }

    /// How many tables a mapping of an address would make.
    pub closed spec fn missing(&self, va: u64) -> nat {
        match self.root {
            Some(r) => r.missing(va),
            None => 3,
        }
    }

    /// Whether the entry of the top table for an address leads to a table made here.
    pub closed spec fn owns_slot(&self, va: u64) -> bool {
        self.root matches Some(r) && r.child(va) is Some
    }

    /// The entry that leads to the directory of an address, where the table above it
    /// was made here.
    pub closed spec fn directory_entry(&self, va: u64) -> Option<u64> {
        match self.root {
            Some(r) => match r.child(va) {
                Some(c) => Some(c.entry(va)),
                None => None,
            },
            None => None,
        }
    }

    /// Whether the entry of the top table for an address belongs to somebody else.
    pub closed spec fn slot_taken(&self, va: u64) -> bool {
        match self.root {
            Some(r) => r.child(va) is None && present(r.entry(va)),
            None => true,
        }
    }

    /// A page table in a page from `frames`, with the top entries of the kernel's
    /// own table, so that the kernel stays mapped.
    pub fn new(kernel: &[u64; ENTRIES], frames: &mut Vec<u64>) -> (table: Option<PageTable>)
        ensures
            table is Some <==> old(frames)@.len() > 0,
            table matches Some(t) ==> {
                &&& t.frame() == old(frames)@.last()
                &&& final(frames)@ == old(frames)@.drop_last()
                &&& t.top_entries() == kernel@
                &&& forall|v: u64| #[trigger] t.leaf(v) is None
                &&& forall|v: u64| !#[trigger] t.owns_slot(v)
                &&& forall|v: u64| #[trigger]
                    t.slot_taken(v) == present(kernel@[entry_index(v, 39)])
                &&& forall|v: u64| #[trigger]
                    t.blocked(v) == present(kernel@[entry_index(v, 39)])
                &&& forall|v: u64| #[trigger]
                    t.foreign(v) == if present(kernel@[entry_index(v, 39)]) {
                        Some((kernel@[entry_index(v, 39)], 39int))
                    } else {
                        None
                    }
                &&& forall|v: u64| #[trigger] t.missing(v) == 3
            },
            table is None ==> final(frames)@ == old(frames)@,
    {
        match frames.pop() {
            None => None,
            Some(frame) => {
                let mut root: Pml4 = InnerTable::empty(frame);
                let mut i: usize = 0;
                while i < ENTRIES
                    invariant
                        i <= ENTRIES,
                        root.frame == frame,
                        root.entries@.len() == ENTRIES,
                        root.children@.len() == ENTRIES,
                        forall|j: int| 0 <= j < ENTRIES ==> root.children@[j] is None,
                        forall|j: int| 0 <= j < i ==> root.entries@[j] == kernel@[j],
                    decreases ENTRIES - i,
                {
                    root.entries.set(i, kernel[i]);
                    i = i + 1;
                }
                let table = PageTable { root: Some(Box::new(root)) };
                proof {
                    assert(root.entries@ =~= kernel@);
                    assert forall|v: u64| #[trigger] table.leaf(v) is None && !table.owns_slot(v) by {
                        lemma_index_bound(v, 39);
                        assert(root.child(v) is None);
                    }
                    assert forall|v: u64| !#[trigger] table.owns_slot(v) by {
                        assert(table.leaf(v) is None);
                    }
                    assert forall|v: u64| #[trigger] table.blocked(v) == present(
                        kernel@[entry_index(v, 39)],
                    ) by {
                        lemma_index_bound(v, 39);
                        assert(root.child(v) is None);
                    }
                    assert forall|v: u64| #[trigger] table.foreign(v) == if present(
                        kernel@[entry_index(v, 39)],
                    ) {
                        Some((kernel@[entry_index(v, 39)], 39int))
                    } else {
                        None
                    } by {
                        lemma_index_bound(v, 39);
                        assert(root.child(v) is None);
                        assert(Pml4::shift() == 39);
                    }
                    assert forall|v: u64| #[trigger] table.slot_taken(v) == present(
                        kernel@[entry_index(v, 39)],
                    ) by {
                        lemma_index_bound(v, 39);
                        assert(root.child(v) is None);
                    }
                    assert forall|v: u64| #[trigger] table.missing(v) == 3 by {
                        lemma_index_bound(v, 39);
                        assert(root.child(v) is None);
                        assert(Pml4::depth() == 3);
                    }
                }
                Some(table)
            },
        }
    }

    /// What to load to switch to this page table: the physical address of its top
    /// table.
    pub fn cr3(&self) -> (pa: u64)
        ensures
            pa == self.loaded(),
            pa % 4096 == 0,
    {
        let ghost frame = self.frame();
        assert((frame & PA_MASK) % 4096 == 0) by (bit_vector);
        match &self.root {
            Some(r) => r.frame & PA_MASK,
            None => 0u64 & PA_MASK,
        }
    }

    /// The kernel address of the top table.
    pub fn pml4_kva(&self, map: &AddressMap) -> (va: Option<u64>)
        requires
            map.wf(),
            map.va_of(self.frame()) matches Some(v) ==> v <= u64::MAX,
        ensures
            va is Some <==> map.va_of(self.frame()) is Some,
            va matches Some(v) ==> v == map.va_of(self.frame())->0,
    {
        match &self.root {
            Some(r) => map.pa_to_va(r.frame),
            None => map.pa_to_va(0),
        }
    }

    /// Map the page of `va` to the page at `pa`. An entry of the kernel or of a template
    /// is not followed: what is mapped here must not show up in their tables.
    pub fn map_one(&mut self, va: u64, pa: u64, perm: Perm, frames: &mut Vec<u64>) -> (done: Option<
        (),
    >)
        ensures
            final(self).frame() == old(self).frame(),
            final(self).loaded() == old(self).loaded(),
            done is Some <==> !old(self).blocked(va) && old(self).missing(va) <= old(frames)@.len(),
            final(frames)@ == if done is Some {
                old(frames)@.take(old(frames)@.len() - old(self).missing(va))
            } else if old(self).blocked(va) {
                old(frames)@
            } else {
                Seq::empty()
            },
            forall|v: u64| #[trigger]
                final(self).leaf(v) == if done is Some && page_number(v) == page_number(va) {
                    Some(leaf_entry(pa, perm))
                } else {
                    old(self).leaf(v)
                },
            forall|v: u64| #[trigger] final(self).blocked(v) == old(self).blocked(v),
            forall|v: u64| #[trigger] final(self).foreign(v) == old(self).foreign(v),
            forall|v: u64| #[trigger]
                final(self).missing(v) == if old(self).blocked(va) {
                    old(self).missing(v)
                } else {
                    missing_short(
                        old(self).missing(v),
                        tables_apart(v, va),
                        old(self).missing(va),
                        old(frames)@.len(),
                    )
                },
    {
        let entry: u64 = (pa & PA_MASK) | perm.pte_flags();
        proof {
            law_leaf_entry_reads_back(pa, perm);
            use_type_invariant(&*self);
        }
        let ghost free = frames@.len();
        let ghost before = *self;
        let mut taken: Option<Box<Pml4>> = None;
        std::mem::swap(&mut taken, &mut self.root);
        match taken {
            None => None,
            Some(mut root) => {
                let ghost old_root = *root;
                let done = (*root).set_leaf(va, entry, frames);
                let ghost new_root = *root;
                self.root = Some(root);
                proof {
                    assert forall|v: u64| #[trigger] self.leaf(v) == if done && page_number(v)
                        == page_number(va) {
                        Some(leaf_entry(pa, perm))
                    } else {
                        before.leaf(v)
                    } by {
                        lemma_same_page(v, va);
                        assert(new_root.leaf(v) == if done && Pml4::same_leaf(v, va) {
                            Some(entry)
                        } else {
                            old_root.leaf(v)
                        });
                    }
                    assert forall|v: u64| #[trigger] self.blocked(v) == before.blocked(v) by {
                        assert(new_root.blocked(v) == old_root.blocked(v));
                    }
                    assert forall|v: u64| #[trigger] self.foreign(v) == before.foreign(v) by {
                        assert(new_root.foreign(v) == old_root.foreign(v));
                    }
                    assert forall|v: u64| #[trigger] self.missing(v) == if before.blocked(va) {
                        before.missing(v)
                    } else {
                        missing_short(
                            before.missing(v),
                            tables_apart(v, va),
                            before.missing(va),
                            free,
                        )
                    } by {
                        assert(new_root.missing(v) == if old_root.blocked(va) {
                            old_root.missing(v)
                        } else {
                            missing_short(
                                old_root.missing(v),
                                Pml4::apart(v, va),
                                old_root.missing(va),
                                free,
                            )
                        });
                    }
                }
                if done {
                    Some(())
                } else {
                    None
                }
            },
        }
    }

    /// Map `len` bytes from `virt` on to those from `phys` on. `None` if an entry on
    /// the way belongs to somebody else, whose tables are not to be changed, or the
    /// pages for tables run out; what was mapped until then stays mapped.
    pub fn map(&mut self, virt: u64, phys: u64, len: u64, perm: Perm, frames: &mut Vec<u64>) -> (done:
        Option<()>)
        requires
            virt % PAGE_SIZE == 0,
            phys % PAGE_SIZE == 0,
            len % PAGE_SIZE == 0,
            virt + len <= u64::MAX,
            phys + len <= u64::MAX,
        ensures
            final(self).frame() == old(self).frame(),
            final(self).loaded() == old(self).loaded(),
            done is Some <==> old(self).accepts(virt, (len / PAGE_SIZE) as nat, old(frames)@.len()),
            done is Some ==> final(frames)@ == old(frames)@.take(
                old(frames)@.len() - old(self).tables_for(virt, (len / PAGE_SIZE) as nat),
            ),
            done is Some ==> old(self).mapped_up_to(
                final(self),
                virt,
                phys,
                (len / PAGE_SIZE) as nat,
                perm,
            ),
            done is Some ==> forall|v: u64| #[trigger]
                final(self).missing(v) == missing_after(
                    old(self).missing(v),
                    v,
                    virt,
                    (len / PAGE_SIZE) as nat,
                ),
            done is None ==> exists|n: nat|
                n < len / PAGE_SIZE && old(self).accepts(virt, n, old(frames)@.len())
                    && !old(self).accepts(virt, n + 1, old(frames)@.len())
                    && #[trigger] old(self).mapped_up_to(final(self), virt, phys, n, perm)
                    && final(frames)@ == if old(self).blocked(nth_page(virt, n as int)) {
                    old(frames)@.take(old(frames)@.len() - old(self).tables_for(virt, n))
                } else {
                    Seq::empty()
                } && old(self).stopped_at(final(self), virt, n, old(frames)@.len()),
            forall|v: u64| #[trigger] final(self).blocked(v) == old(self).blocked(v),
            forall|v: u64| #[trigger] final(self).foreign(v) == old(self).foreign(v),
    {
        let count: u64 = len / PAGE_SIZE;
        let mut n: u64 = 0;
        let ghost before = *self;
        let ghost free = frames@;
        assert(free.take(free.len() as int) =~= free);
        while n < count
            invariant
                n <= count,
                count == len / PAGE_SIZE,
                virt + len <= u64::MAX,
                phys + len <= u64::MAX,
                self.frame() == before.frame(),
                before.mapped_up_to(self, virt, phys, n as nat, perm),
                forall|v: u64| #[trigger] self.blocked(v) == before.blocked(v),
                forall|v: u64| #[trigger] self.foreign(v) == before.foreign(v),
                forall|v: u64| #[trigger]
                    self.missing(v) == missing_after(before.missing(v), v, virt, n as nat),
                before.accepts(virt, n as nat, free.len()),
                frames@ == free.take(free.len() - before.tables_for(virt, n as nat)),
                free == old(frames)@,
                before == *old(self),
            decreases count - n,
        {
            let va: u64 = virt + n * PAGE_SIZE;
            let pa: u64 = phys + n * PAGE_SIZE;
            let ghost earlier = *self;
            proof {
                assert(nth_page(virt, n as int) == va);
                assert(before.tables_for(virt, (n + 1) as nat) == before.tables_for(virt, n as nat)
                    + earlier.missing(va));
            }
            match self.map_one(va, pa, perm, frames) {
                None => {
                    assert(before.mapped_up_to(self, virt, phys, n as nat, perm)) by {
                        assert forall|v: u64| #[trigger] self.leaf(v) == mapped_leaf(
                            before.leaf(v),
                            v,
                            virt,
                            phys,
                            n as nat,
                            perm,
                        ) by {
                            assert(earlier.leaf(v) == self.leaf(v));
                        }
                    }
                    proof {
                        assert(earlier.blocked(va) == before.blocked(va));
                        lemma_tables_grow(before, virt, (n + 1) as nat, count as nat);
                        assert(before.stopped_at(self, virt, n as nat, free.len())) by {
                            assert(earlier.missing(va) == missing_after(
                                before.missing(va),
                                va,
                                virt,
                                n as nat,
                            ));
                            assert forall|v: u64| #[trigger] earlier.missing(v) == missing_after(
                                before.missing(v),
                                v,
                                virt,
                                n as nat,
                            ) by {
                            }
                        }
                    }
                    return None;
                },
                Some(_) => {},
            }
            assert forall|v: u64| #[trigger] self.leaf(v) == mapped_leaf(
                before.leaf(v),
                v,
                virt,
                phys,
                (n + 1) as nat,
                perm,
            ) by {
                assert(earlier.leaf(v) == mapped_leaf(
                    before.leaf(v),
                    v,
                    virt,
                    phys,
                    n as nat,
                    perm,
                ));
            }
            proof {
                assert(frames@ =~= free.take(
                    free.len() - before.tables_for(virt, (n + 1) as nat),
                ));
                assert(before.accepts(virt, (n + 1) as nat, free.len())) by {
                    assert forall|k: int| 0 <= k < n + 1 implies !#[trigger] before.blocked(
                        nth_page(virt, k),
                    ) by {
                        if k == n {
                            assert(earlier.blocked(va) == before.blocked(va));
                        }
                    }
                }
            }
            n = n + 1;
        }
        Some(())
    }

    /// Whether `after` has the tables of this one after mapping from `virt` on with `free`
    /// pages has stopped at page `n`: those for the pages before it, and as many of its
    /// own as there were pages for.
    pub open spec fn stopped_at(&self, after: &PageTable, virt: u64, n: nat, free: nat) -> bool {
        let va = nth_page(virt, n as int);
        forall|v: u64| #[trigger]
            after.missing(v) == if self.blocked(va) {
                missing_after(self.missing(v), v, virt, n)
            } else {
                missing_short(
                    missing_after(self.missing(v), v, virt, n),
                    tables_apart(v, va),
                    missing_after(self.missing(va), va, virt, n),
                    (free - self.tables_for(virt, n)) as nat,
                )
            }
    }

    /// How many tables mapping `pages` pages from `virt` on would make.
    pub open spec fn tables_for(&self, virt: u64, pages: nat) -> nat {
        tables_needed(|v: u64| self.missing(v), virt, pages)
    }

    /// Whether `pages` pages from `virt` on can be mapped: none belongs to somebody
    /// else, and `free` pages are enough for the tables.
    pub open spec fn accepts(&self, virt: u64, pages: nat, free: nat) -> bool {
        &&& forall|k: int| 0 <= k < pages ==> !#[trigger] self.blocked(nth_page(virt, k))
        &&& self.tables_for(virt, pages) <= free
    }

    /// Whether `after` is this table with `n` pages from `virt` on mapped.
    pub open spec fn mapped_up_to(
        &self,
        after: &PageTable,
        virt: u64,
        phys: u64,
        n: nat,
        perm: Perm,
    ) -> bool {
        forall|v: u64| #[trigger]
            after.leaf(v) == mapped_leaf(self.leaf(v), v, virt, phys, n, perm)
    }

    /// Whether the first `n` parts can be mapped one after the other: none is where
    /// somebody else is, and `free` pages are enough for the tables.
    pub open spec fn accepts_parts(&self, parts: Seq<MapPart>, n: nat, free: nat) -> bool {
        &&& forall|i: int, k: int|
            #![trigger nth_page(parts[i].va, k)]
            0 <= i < n && 0 <= k < parts[i].pages() ==> !self.blocked(nth_page(parts[i].va, k))
        &&& parts_tables(|v: u64| self.missing(v), parts, n) <= free
    }

    /// Whether `after` is this table with the parts before part `i` mapped, and `n`
    /// pages of part `i`.
    pub open spec fn stopped_in(
        &self,
        after: &PageTable,
        parts: Seq<MapPart>,
        i: nat,
        n: nat,
    ) -> bool {
        let p = parts[i as int];
        forall|v: u64| #[trigger]
            after.leaf(v) == mapped_leaf(
                parts_leaf(self.leaf(v), v, parts, i),
                v,
                p.va,
                p.pa,
                n,
                p.perm,
            )
    }

    /// Map parts one after the other. `Err` says which is the first that cannot be
    /// mapped.
    pub(crate) fn map_parts(&mut self, parts: &Vec<MapPart>, frames: &mut Vec<u64>) -> (r: Result<
        (),
        usize,
    >)
        requires
            forall|i: int| 0 <= i < parts@.len() ==> (#[trigger] parts@[i]).wf(),
        ensures
            final(self).frame() == old(self).frame(),
            r is Ok <==> old(self).accepts_parts(parts@, parts@.len(), old(frames)@.len()),
            r is Ok ==> forall|v: u64| #[trigger]
                final(self).leaf(v) == parts_leaf(old(self).leaf(v), v, parts@, parts@.len()),
            r is Ok ==> final(frames)@ == old(frames)@.take(
                old(frames)@.len() - parts_tables(
                    |v: u64| old(self).missing(v),
                    parts@,
                    parts@.len(),
                ),
            ),
            r matches Err(i) ==> {
                &&& i < parts@.len()
                &&& old(self).accepts_parts(parts@, i as nat, old(frames)@.len())
                &&& !old(self).accepts_parts(parts@, i as nat + 1, old(frames)@.len())
                &&& exists|n: nat|
                    n < parts@[i as int].pages() && #[trigger] old(self).stopped_in(
                        final(self),
                        parts@,
                        i as nat,
                        n,
                    )
            },
            forall|v: u64| #[trigger] final(self).blocked(v) == old(self).blocked(v),
    {
        let ghost before = *self;
        let ghost frames_before = frames@;
        let ghost free = frames@.len();
        assert(frames@.take(free as int) =~= frames@);
        let ghost start = |v: u64| before.missing(v);
        let mut i: usize = 0;
        while i < parts.len()
            invariant
                i <= parts@.len(),
                forall|j: int| 0 <= j < parts@.len() ==> (#[trigger] parts@[j]).wf(),
                before == *old(self),
                free == old(frames)@.len(),
                start == (|v: u64| before.missing(v)),
                self.frame() == before.frame(),
                forall|v: u64| #[trigger]
                    self.leaf(v) == parts_leaf(before.leaf(v), v, parts@, i as nat),
                forall|v: u64| #[trigger]
                    self.missing(v) == parts_missing(before.missing(v), v, parts@, i as nat),
                forall|v: u64| #[trigger] self.blocked(v) == before.blocked(v),
                before.accepts_parts(parts@, i as nat, free),
                frames_before == old(frames)@,
                frames@ == frames_before.take(free - parts_tables(start, parts@, i as nat)),
            decreases parts@.len() - i,
        {
            let p = parts[i];
            let ghost earlier = *self;
            let ghost n = (i + 1) as nat;
            assert(parts@[i as int].wf());
            proof {
                let a = |v: u64| earlier.missing(v);
                let b = |v: u64| parts_missing(start(v), v, parts@, i as nat);
                assert forall|v: u64| #[trigger] a(v) == b(v) by {
                    assert(earlier.missing(v) == parts_missing(
                        before.missing(v),
                        v,
                        parts@,
                        i as nat,
                    ));
                }
                lemma_same_tables(a, b, p.va, p.pages());
                assert(earlier.tables_for(p.va, p.pages()) == tables_needed(b, p.va, p.pages()));
                assert(parts_tables(start, parts@, n) == parts_tables(start, parts@, i as nat)
                    + tables_needed(b, p.va, p.pages()));
            }
            match self.map(p.va, p.pa, p.len, p.perm, frames) {
                None => {
                    proof {
                        lemma_parts_grow(start, parts@, n, parts@.len());
                        if before.accepts_parts(parts@, n, free) {
                            assert forall|k: int| 0 <= k < p.pages() implies !#[trigger] earlier.blocked(
                                nth_page(p.va, k),
                            ) by {
                                assert(!before.blocked(nth_page(parts@[i as int].va, k)));
                            }
                        }
                        let m = choose|m: nat|
                            m < p.len / PAGE_SIZE && #[trigger] earlier.mapped_up_to(
                                self,
                                p.va,
                                p.pa,
                                m,
                                p.perm,
                            );
                        assert(before.stopped_in(self, parts@, i as nat, m)) by {
                            assert forall|v: u64| #[trigger] self.leaf(v) == mapped_leaf(
                                parts_leaf(before.leaf(v), v, parts@, i as nat),
                                v,
                                p.va,
                                p.pa,
                                m,
                                p.perm,
                            ) by {
                                assert(earlier.leaf(v) == parts_leaf(
                                    before.leaf(v),
                                    v,
                                    parts@,
                                    i as nat,
                                ));
                            }
                        }
                    }
                    return Err(i);
                },
                Some(_) => {},
            }
            proof {
                assert(frames@ =~= frames_before.take(free - parts_tables(start, parts@, n)));
                assert forall|v: u64| #[trigger] self.leaf(v) == parts_leaf(
                    before.leaf(v),
                    v,
                    parts@,
                    n,
                ) by {
                    assert(earlier.leaf(v) == parts_leaf(before.leaf(v), v, parts@, i as nat));
                }
                assert forall|v: u64| #[trigger] self.missing(v) == parts_missing(
                    before.missing(v),
                    v,
                    parts@,
                    n,
                ) by {
                    assert(earlier.missing(v) == parts_missing(
                        before.missing(v),
                        v,
                        parts@,
                        i as nat,
                    ));
                }
                assert forall|j: int, k: int|
                    #![trigger nth_page(parts@[j].va, k)]
                    0 <= j < n && 0 <= k < parts@[j].pages() implies !before.blocked(
                    nth_page(parts@[j].va, k),
                ) by {
                    if j == i {
                        assert(!earlier.blocked(nth_page(p.va, k)));
                    }
                }
            }
            i = i + 1;
        }
        Ok(())
    }

    /// The leaf entry in use for an address.
    pub(crate) fn get_leaf(&self, va: u64) -> (entry: Option<u64>)
        ensures
            entry == self.leaf(va),
    {
        proof {
            use_type_invariant(&*self);
        }
        match &self.root {
            Some(r) => r.get_leaf(va),
            None => None,
        }
    }

    /// The entry on the way to `va` that belongs to somebody else, and the lowest address
    /// bit that selects it in its table.
    pub(crate) fn foreign_entry(&self, va: u64) -> (found: Option<(u64, u64)>)
        ensures
            match found {
                Some((entry, shift)) => self.foreign(va) == Some((entry, shift as int)),
                None => self.foreign(va) is None,
            },
    {
        proof {
            use_type_invariant(&*self);
        }
        match &self.root {
            Some(r) => r.foreign_entry(va),
            None => None,
        }
    }

    /// Put `entry` at the leaf of `va` where the tables made here reach it.
    pub(crate) fn put_leaf(&mut self, va: u64, entry: u64) -> (done: bool)
        requires
            present(entry),
        ensures
            final(self).frame() == old(self).frame(),
            done == old(self).reaches(va),
            forall|v: u64| #[trigger]
                final(self).leaf(v) == if done && page_number(v) == page_number(va) {
                    Some(entry)
                } else {
                    old(self).leaf(v)
                },
            forall|v: u64| #[trigger] final(self).blocked(v) == old(self).blocked(v),
            forall|v: u64| #[trigger] final(self).foreign(v) == old(self).foreign(v),
            forall|v: u64| #[trigger] final(self).missing(v) == old(self).missing(v),
    {
        let ghost before = *self;
        proof {
            use_type_invariant(&*self);
        }
        let mut taken: Option<Box<Pml4>> = None;
        std::mem::swap(&mut taken, &mut self.root);
        match taken {
            None => false,
            Some(mut root) => {
                let ghost old_root = *root;
                let done = (*root).replace_leaf(va, entry);
                let ghost new_root = *root;
                self.root = Some(root);
                proof {
                    assert forall|v: u64| #[trigger] self.leaf(v) == if done && page_number(v)
                        == page_number(va) {
                        Some(entry)
                    } else {
                        before.leaf(v)
                    } by {
                        lemma_same_page(v, va);
                        assert(new_root.leaf(v) == if done && Pml4::same_leaf(v, va) {
                            Some(entry)
                        } else {
                            old_root.leaf(v)
                        });
                    }
                    assert forall|v: u64| #[trigger] self.blocked(v) == before.blocked(v) by {
                        assert(new_root.blocked(v) == old_root.blocked(v));
                    }
                    assert forall|v: u64| #[trigger] self.foreign(v) == before.foreign(v) by {
                        assert(new_root.foreign(v) == old_root.foreign(v));
                    }
                    assert forall|v: u64| #[trigger] self.missing(v) == before.missing(v) by {
                        assert(new_root.missing(v) == old_root.missing(v));
                    }
                }
                done
            },
        }
    }

    /// Give or take the write permission of the page of `va`. Whether the page is
    /// mapped at all in the tables made here; pages of data always are in those, so the
    /// tables of somebody else are not looked at.
    pub fn set_leaf_w(&mut self, va: u64, writable: bool) -> (done: bool)
        ensures
            final(self).frame() == old(self).frame(),
            done == old(self).leaf(va) is Some,
            !done ==> *final(self) == *old(self),
            forall|v: u64| #[trigger]
                final(self).leaf(v) == if done && page_number(v) == page_number(va) {
                    Some(with_w(old(self).leaf(va)->0, writable))
                } else {
                    old(self).leaf(v)
                },
            forall|v: u64| #[trigger] final(self).blocked(v) == old(self).blocked(v),
            forall|v: u64| #[trigger] final(self).foreign(v) == old(self).foreign(v),
            forall|v: u64| #[trigger] final(self).missing(v) == old(self).missing(v),
    {
        match self.get_leaf(va) {
            None => false,
            Some(e) => {
                proof {
                    lemma_set_w(e);
                    lemma_leaf_present(*self, va);
                }
                let entry: u64 = if writable {
                    e | RW
                } else {
                    e & !RW
                };
                self.put_leaf(va, entry)
            },
        }
    }

    /// Make the 512 GiB region of `va` that of the directory pointers at `pa`, which
    /// belong to a template.
    pub fn install_borrowed_pdpt(&mut self, va: u64, pa: u64)
        ensures
            final(self).frame() == old(self).frame(),
            old(self).top_entries().len() == ENTRIES ==> final(self).top_entries() == old(
                self).top_entries().update(entry_index(va, 39), inner_entry(pa)),
            forall|v: u64| #[trigger]
                final(self).leaf(v) == if slot_number(v) == slot_number(va) {
                    None
                } else {
                    old(self).leaf(v)
                },
            forall|v: u64| #[trigger]
                final(self).blocked(v) == if slot_number(v) == slot_number(va) {
                    true
                } else {
                    old(self).blocked(v)
                },
            old(self).top_entries().len() == ENTRIES ==> forall|v: u64| #[trigger]
                final(self).foreign(v) == if slot_number(v) == slot_number(va) {
                    Some((inner_entry(pa), 39int))
                } else {
                    old(self).foreign(v)
                },
            forall|v: u64| #[trigger]
                final(self).missing(v) == if slot_number(v) == slot_number(va) {
                    3
                } else {
                    old(self).missing(v)
                },
    {
        let index: usize = index_at(va, 39);
        let ghost before = *self;
        proof {
            use_type_invariant(&*self);
            lemma_inner_entry(pa);
        }
        let mut taken: Option<Box<Pml4>> = None;
        std::mem::swap(&mut taken, &mut self.root);
        match taken {
            None => {},
            Some(mut root) => {
                let ghost old_root = *root;
                (*root).entries.set(index, (pa & PA_MASK) | INNER);
                (*root).children.set(index, None);
                let ghost new_root = *root;
                proof {
                    assert forall|i: int| 0 <= i < ENTRIES implies #[trigger] new_root.linked(i) by {
                        assert(old_root.linked(i));
                    }
                }
                self.root = Some(root);
                proof {
                    assert forall|v: u64| #[trigger] self.leaf(v) == if slot_number(v)
                        == slot_number(va) {
                        None
                    } else {
                        before.leaf(v)
                    } by {
                        lemma_index_bound(v, 39);
                        assert(entry_index(v, 39) == slot_number(v));
                        if slot_number(v) == slot_number(va) {
                            assert(new_root.child(v) is None);
                        } else {
                            assert(new_root.child(v) == old_root.child(v));
                        }
                    }
                    assert forall|v: u64| #[trigger] self.blocked(v) == if slot_number(v)
                        == slot_number(va) {
                        true
                    } else {
                        before.blocked(v)
                    } by {
                        lemma_index_bound(v, 39);
                        assert(entry_index(v, 39) == slot_number(v));
                        if slot_number(v) == slot_number(va) {
                            assert(new_root.child(v) is None);
                        } else {
                            assert(new_root.child(v) == old_root.child(v));
                        }
                    }
                    assert forall|v: u64| #[trigger] self.foreign(v) == if slot_number(v)
                        == slot_number(va) {
                        Some((inner_entry(pa), 39int))
                    } else {
                        before.foreign(v)
                    } by {
                        lemma_index_bound(v, 39);
                        assert(entry_index(v, 39) == slot_number(v));
                        assert(Pml4::shift() == 39);
                        if slot_number(v) == slot_number(va) {
                            assert(new_root.child(v) is None);
                        } else {
                            assert(new_root.child(v) == old_root.child(v));
                        }
                    }
                    assert forall|v: u64| #[trigger] self.missing(v) == if slot_number(v)
                        == slot_number(va) {
                        3
                    } else {
                        before.missing(v)
                    } by {
                        lemma_index_bound(v, 39);
                        assert(entry_index(v, 39) == slot_number(v));
                        if slot_number(v) == slot_number(va) {
                            assert(new_root.child(v) is None);
                            assert(Pml4::depth() == 3);
                        } else {
                            assert(new_root.child(v) == old_root.child(v));
                        }
                    }
                }
            },
        }
    }

    /// Make the 1 GiB region of `va` that of the directory at `pa`, which belongs to
    /// a template. The table above the directory is made where it is missing.
    pub fn install_borrowed_pd(&mut self, va: u64, pa: u64, frames: &mut Vec<u64>) -> (done: Option<
        (),
    >)
        ensures
            final(self).frame() == old(self).frame(),
            done is Some <==> !old(self).slot_taken(va) && (old(self).owns_slot(va) || old(
                frames,
            )@.len() > 0),
            done is Some ==> final(self).owns_slot(va) && final(self).directory_entry(va) == Some(
                inner_entry(pa),
            ),
            final(frames)@ == if done is Some && !old(self).owns_slot(va) {
                old(frames)@.drop_last()
            } else {
                old(frames)@
            },
            forall|v: u64| #[trigger]
                final(self).leaf(v) == if done is Some && region_number(v) == region_number(va) {
                    None
                } else {
                    old(self).leaf(v)
                },
            forall|v: u64| #[trigger]
                final(self).blocked(v) == if done is Some && region_number(v) == region_number(va) {
                    true
                } else {
                    old(self).blocked(v)
                },
            forall|v: u64| #[trigger]
                final(self).foreign(v) == if done is Some && region_number(v) == region_number(va) {
                    Some((inner_entry(pa), 30int))
                } else {
                    old(self).foreign(v)
                },
            forall|v: u64| #[trigger]
                final(self).missing(v) == if done is Some && region_number(v) == region_number(va) {
                    2
                } else if done is Some && slot_number(v) == slot_number(va) {
                    lesser(old(self).missing(v), 2)
                } else {
                    old(self).missing(v)
                },
    {
        let index: usize = index_at(va, 39);
        let inner: usize = index_at(va, 30);
        let ghost before = *self;
        proof {
            use_type_invariant(&*self);
        }
        let mut taken: Option<Box<Pml4>> = None;
        std::mem::swap(&mut taken, &mut self.root);
        let mut root = match taken {
            None => return None,
            Some(root) => root,
        };
        let ghost old_root = *root;
        assert(old_root.linked(index as int));
        match (*root).take_child(index, frames) {
            None => {
                let ghost same = *root;
                proof {
                    lemma_same_table(old_root, same);
                }
                self.root = Some(root);
                proof {
                    assert forall|v: u64| #[trigger] self.leaf(v) == before.leaf(v) by {
                        assert(same.leaf(v) == old_root.leaf(v));
                    }
                    assert forall|v: u64| #[trigger] self.blocked(v) == before.blocked(v) by {
                        assert(same.blocked(v) == old_root.blocked(v));
                    }
                    assert forall|v: u64| #[trigger] self.foreign(v) == before.foreign(v) by {
                        assert(same.child(v) == old_root.child(v));
                    }
                    assert forall|v: u64| #[trigger] self.missing(v) == before.missing(v) by {
                        assert(same.child(v) == old_root.child(v));
                    }
                }
                None
            },
            Some(mut child) => {
                let ghost taken_child = *child;
                proof {
                    lemma_inner_entry(pa);
                }
                (*child).entries.set(inner, (pa & PA_MASK) | INNER);
                (*child).children.set(inner, None);
                let ghost made = *child;
                proof {
                    assert forall|i: int| 0 <= i < ENTRIES implies #[trigger] made.linked(i) by {
                        assert(taken_child.linked(i));
                    }
                }
                (*root).children.set(index, Some(child));
                let ghost new_root = *root;
                proof {
                    assert forall|i: int| 0 <= i < ENTRIES implies #[trigger] new_root.linked(i) by {
                        assert(old_root.linked(i));
                    }
                }
                self.root = Some(root);
                proof {
                    assert(new_root.child(va) == Some(Box::new(made)));
                    assert forall|v: u64| #[trigger] self.leaf(v) == if region_number(v)
                        == region_number(va) {
                        None
                    } else {
                        before.leaf(v)
                    } by {
                        lemma_same_region(v, va);
                        lemma_index_bound(v, 39);
                        lemma_index_bound(v, 30);
                        if entry_index(v, 39) == index {
                            assert(new_root.child(v) == Some(Box::new(made)));
                            if entry_index(v, 30) == inner {
                                assert(made.child(v) is None);
                            } else {
                                assert(made.child(v) == taken_child.child(v));
                                assert(made.leaf(v) == taken_child.leaf(v));
                            }
                        } else {
                            assert(new_root.child(v) == old_root.child(v));
                        }
                    }
                    assert forall|v: u64| #[trigger] self.blocked(v) == if region_number(v)
                        == region_number(va) {
                        true
                    } else {
                        before.blocked(v)
                    } by {
                        lemma_same_region(v, va);
                        lemma_index_bound(v, 39);
                        lemma_index_bound(v, 30);
                        if entry_index(v, 39) == index {
                            assert(new_root.child(v) == Some(Box::new(made)));
                            if entry_index(v, 30) == inner {
                                assert(made.child(v) is None);
                            } else {
                                assert(made.child(v) == taken_child.child(v));
                                assert(made.blocked(v) == taken_child.blocked(v));
                            }
                        } else {
                            assert(new_root.child(v) == old_root.child(v));
                        }
                    }
                    assert forall|v: u64| #[trigger] self.foreign(v) == if region_number(v)
                        == region_number(va) {
                        Some((inner_entry(pa), 30int))
                    } else {
                        before.foreign(v)
                    } by {
                        lemma_same_region(v, va);
                        lemma_index_bound(v, 39);
                        lemma_index_bound(v, 30);
                        assert(DirectoryPointers::shift() == 30);
                        if entry_index(v, 39) == index {
                            assert(new_root.child(v) == Some(Box::new(made)));
                            if entry_index(v, 30) == inner {
                                assert(made.child(v) is None);
                            } else {
                                assert(made.child(v) == taken_child.child(v));
                                assert(made.foreign(v) == taken_child.foreign(v));
                            }
                        } else {
                            assert(new_root.child(v) == old_root.child(v));
                        }
                    }
                    assert forall|v: u64| #[trigger] self.missing(v) == if region_number(v)
                        == region_number(va) {
                        2
                    } else if slot_number(v) == slot_number(va) {
                        lesser(before.missing(v), 2)
                    } else {
                        before.missing(v)
                    } by {
                        lemma_same_region(v, va);
                        lemma_index_bound(v, 39);
                        lemma_index_bound(v, 30);
                        assert(entry_index(v, 39) == slot_number(v));
                        assert(Directory::depth() == 1);
                        assert(DirectoryPointers::depth() == 2);
                        taken_child.missing_bound(v);
                        if entry_index(v, 39) == index {
                            assert(new_root.child(v) == Some(Box::new(made)));
                            if entry_index(v, 30) == inner {
                                assert(made.child(v) is None);
                            } else {
                                assert(made.child(v) == taken_child.child(v));
                                assert(made.missing(v) == taken_child.missing(v));
                            }
                        } else {
                            assert(new_root.child(v) == old_root.child(v));
                        }
                    }
                }
                Some(())
            },
        }
    }
}

/// Addresses of the same page have the same leaf.
pub proof fn lemma_leaf_by_page(table: PageTable, a: u64, b: u64)
    requires
        page_number(a) == page_number(b),
    ensures
        table.leaf(a) == table.leaf(b),
{
    lemma_same_page(a, b);
}

/// How many tables a mapping makes depends only on how many are missing.
pub proof fn lemma_same_tables(
    a: spec_fn(u64) -> nat,
    b: spec_fn(u64) -> nat,
    virt: u64,
    pages: nat,
)
    requires
        forall|v: u64| #[trigger] a(v) == b(v),
    ensures
        tables_needed(a, virt, pages) == tables_needed(b, virt, pages),
    decreases pages,
{
    if pages > 0 {
        lemma_same_tables(a, b, virt, (pages - 1) as nat);
        assert(a(nth_page(virt, pages - 1)) == b(nth_page(virt, pages - 1)));
    }
}

/// How many tables mapping parts makes depends only on how many are missing.
pub proof fn lemma_same_parts_tables(
    a: spec_fn(u64) -> nat,
    b: spec_fn(u64) -> nat,
    parts: Seq<MapPart>,
    n: nat,
)
    requires
        forall|v: u64| #[trigger] a(v) == b(v),
    ensures
        parts_tables(a, parts, n) == parts_tables(b, parts, n),
    decreases n,
{
    if n > 0 {
        let p = parts[n - 1];
        lemma_same_parts_tables(a, b, parts, (n - 1) as nat);
        let x = |v: u64| parts_missing(a(v), v, parts, (n - 1) as nat);
        let y = |v: u64| parts_missing(b(v), v, parts, (n - 1) as nat);
        assert forall|v: u64| #[trigger] x(v) == y(v) by {
            assert(a(v) == b(v));
        }
        lemma_same_tables(x, y, p.va, p.pages());
    }
}

/// Whether a fresh page table under the kernel's entries accepts the first `n` parts,
/// with `free` pages for itself and its tables.
pub open spec fn space_fits(
    kernel: Seq<u64>,
    parts: Seq<MapPart>,
    n: nat,
    free: nat,
) -> bool {
    &&& forall|i: int, k: int|
        #![trigger nth_page(parts[i].va, k)]
        0 <= i < n && 0 <= k < parts[i].pages() ==> !present(
            kernel[entry_index(nth_page(parts[i].va, k), 39)],
        )
    &&& 1 + parts_tables(|v: u64| 3nat, parts, n) <= free
}

/// What a fresh page table accepts is what the kernel's entries and the free pages
/// leave room for.
pub proof fn lemma_space_fits(
    pt: PageTable,
    kernel: Seq<u64>,
    parts: Seq<MapPart>,
    n: nat,
    free: nat,
)
    requires
        free > 0,
        forall|v: u64| #[trigger] pt.blocked(v) == present(kernel[entry_index(v, 39)]),
        forall|v: u64| #[trigger] pt.missing(v) == 3,
    ensures
        pt.accepts_parts(parts, n, (free - 1) as nat) == space_fits(kernel, parts, n, free),
{
    let a = |v: u64| pt.missing(v);
    let b = |v: u64| 3nat;
    lemma_same_parts_tables(a, b, parts, n);
    assert forall|i: int, k: int|
        #![trigger nth_page(parts[i].va, k)]
        0 <= i < n && 0 <= k < parts[i].pages() implies pt.blocked(nth_page(parts[i].va, k))
        == present(kernel[entry_index(nth_page(parts[i].va, k), 39)]) by {
    }
}

/// The pages that are left of `frames` once a fresh page table has the parts mapped.
pub open spec fn space_left(frames: Seq<u64>, parts: Seq<MapPart>) -> Seq<u64> {
    frames.take(frames.len() - 1 - parts_tables(|v: u64| 3nat, parts, parts.len()))
}

/// What mapping parts in a fresh page table leaves of the pages.
pub proof fn lemma_space_left(pt: PageTable, frames: Seq<u64>, parts: Seq<MapPart>)
    requires
        forall|v: u64| #[trigger] pt.missing(v) == 3,
        1 + parts_tables(|v: u64| 3nat, parts, parts.len()) <= frames.len(),
    ensures
        frames.drop_last().take(
            frames.len() - 1 - parts_tables(|v: u64| pt.missing(v), parts, parts.len()),
        ) == space_left(frames, parts),
{
    lemma_same_parts_tables(|v: u64| pt.missing(v), |v: u64| 3nat, parts, parts.len());
    assert(frames.drop_last().take(
        frames.len() - 1 - parts_tables(|v: u64| 3nat, parts, parts.len()),
    ) =~= space_left(frames, parts));
}

proof fn lemma_parts_grow(missing: spec_fn(u64) -> nat, parts: Seq<MapPart>, m: nat, n: nat)
    requires
        m <= n,
    ensures
        parts_tables(missing, parts, m) <= parts_tables(missing, parts, n),
    decreases n,
{
    if m < n {
        lemma_parts_grow(missing, parts, m, (n - 1) as nat);
    }
}

/// More pages take no fewer tables.
pub proof fn lemma_tables_grow(table: PageTable, virt: u64, m: nat, n: nat)
    requires
        m <= n,
    ensures
        table.tables_for(virt, m) <= table.tables_for(virt, n),
    decreases n,
{
    if m < n {
        lemma_tables_grow(table, virt, m, (n - 1) as nat);
    }
}

proof fn lemma_leaf_present(table: PageTable, va: u64)
    requires
        table.leaf(va) is Some,
    ensures
        present(table.leaf(va)->0),
        table.reaches(va),
{
    if let Some(r) = table.root {
        r.leaf_is_reached(va);
    }
}

/// The subtree of an image: 1 GiB with the pages of its compiled code, shared by
/// the page tables that run it.
#[derive(Debug)]
pub struct TemplatePT {
    pub pd: Directory,
}

/// Size of the region of a template.
pub const TEMPLATE_BYTES: u64 = 0x4000_0000;

/// What a lowest table maps: 2 MiB.
pub const LEAF_TABLE_BYTES: u64 = 0x20_0000;

proof fn lemma_same_leaf_table(a: u64, b: u64)
    requires
        a < TEMPLATE_BYTES,
        b < TEMPLATE_BYTES,
    ensures
        a / LEAF_TABLE_BYTES == b / LEAF_TABLE_BYTES <==> entry_index(a, 21) == entry_index(b, 21),
{
    assert((a / 0x20_0000 == b / 0x20_0000) <==> ((a >> 21) & 0x1FF == (b >> 21) & 0x1FF))
        by (bit_vector)
        requires
            a < 0x4000_0000,
            b < 0x4000_0000,
    ;
}

proof fn lemma_same_offset(a: u64, b: u64)
    requires
        a < TEMPLATE_BYTES,
        b < TEMPLATE_BYTES,
    ensures
        a / PAGE_SIZE == b / PAGE_SIZE <==> (entry_index(a, 21) == entry_index(b, 21)
            && entry_index(a, 12) == entry_index(b, 12)),
{
    assert((a / 4096 == b / 4096) <==> ((a >> 21) & 0x1FF == (b >> 21) & 0x1FF && (a >> 12) & 0x1FF
        == (b >> 12) & 0x1FF)) by (bit_vector)
        requires
            a < 0x4000_0000,
            b < 0x4000_0000,
    ;
}

impl TemplatePT {
    pub open spec fn wf(&self) -> bool {
        self.pd.wf()
    }

    /// The leaf entry in use at an offset.
    pub open spec fn leaf(&self, offset: u64) -> Option<u64> {
        self.pd.leaf(offset)
    }

    /// An empty template in a page from `frames`.
    pub fn new(frames: &mut Vec<u64>) -> (template: Option<TemplatePT>)
        ensures
            template is Some <==> old(frames)@.len() > 0,
            template matches Some(t) ==> {
                &&& t.wf()
                &&& t.pd.frame == old(frames)@.last()
                &&& final(frames)@ == old(frames)@.drop_last()
                &&& forall|o: u64| #[trigger] t.leaf(o) is None
                &&& forall|o: u64| !#[trigger] t.pd.blocked(o)
                &&& forall|o: u64| #[trigger] t.pd.missing(o) == 1
            },
            template is None ==> final(frames)@ == old(frames)@,
    {
        match frames.pop() {
            None => None,
            Some(frame) => {
                let pd: Directory = InnerTable::fresh(frame);
                let template = TemplatePT { pd };
                assert forall|o: u64| #[trigger] template.leaf(o) is None by {
                    assert(template.pd.leaf(o) is None);
                }
                assert(Directory::depth() == 1);
                Some(template)
            },
        }
    }

    /// Map the page at `offset` into the region.
    pub fn map_leaf(&mut self, offset: u64, pa: u64, perm: Perm, frames: &mut Vec<u64>) -> (done:
        Option<()>)
        requires
            old(self).wf(),
            offset % PAGE_SIZE == 0,
            offset < TEMPLATE_BYTES,
        ensures
            final(self).wf(),
            final(self).pd.frame == old(self).pd.frame,
            done is Some <==> !old(self).pd.blocked(offset) && old(self).pd.missing(offset)
                <= old(frames)@.len(),
            final(frames)@ == if done is Some {
                old(frames)@.take(old(frames)@.len() - old(self).pd.missing(offset))
            } else if old(self).pd.blocked(offset) {
                old(frames)@
            } else {
                Seq::empty()
            },
            forall|o: u64|
                o < TEMPLATE_BYTES ==> #[trigger] final(self).pd.missing(o) == (if done is Some && o
                    / LEAF_TABLE_BYTES == offset / LEAF_TABLE_BYTES {
                    0
                } else {
                    old(self).pd.missing(o)
                }),
            forall|o: u64|
                o < TEMPLATE_BYTES ==> #[trigger] final(self).leaf(o) == (if done is Some && o
                    / PAGE_SIZE == offset / PAGE_SIZE {
                    Some(leaf_entry(pa, perm))
                } else {
                    old(self).leaf(o)
                }),
            forall|o: u64| #[trigger] final(self).pd.blocked(o) == old(self).pd.blocked(o),
    {
        let entry: u64 = (pa & PA_MASK) | perm.pte_flags();
        proof {
            law_leaf_entry_reads_back(pa, perm);
        }
        let ghost before = *self;
        let done = self.pd.set_leaf(offset, entry, frames);
        proof {
            assert forall|o: u64| o < TEMPLATE_BYTES implies #[trigger] self.leaf(o) == (if done
                && o / PAGE_SIZE == offset / PAGE_SIZE {
                Some(leaf_entry(pa, perm))
            } else {
                before.leaf(o)
            }) by {
                lemma_same_offset(o, offset);
                assert(self.pd.leaf(o) == if done && Directory::same_leaf(o, offset) {
                    Some(entry)
                } else {
                    before.pd.leaf(o)
                });
            }
            if done {
                assert forall|o: u64| o < TEMPLATE_BYTES implies #[trigger] self.pd.missing(o) == (
                if o / LEAF_TABLE_BYTES == offset / LEAF_TABLE_BYTES {
                    0
                } else {
                    before.pd.missing(o)
                }) by {
                    lemma_same_leaf_table(o, offset);
                    before.pd.missing_bound(o);
                    assert(Directory::depth() == 1);
                    assert(self.pd.missing(o) == lesser(
                        before.pd.missing(o),
                        Directory::apart(o, offset),
                    ));
                }
            }
        }
        if done {
            Some(())
        } else {
            None
        }
    }

    /// The physical address of the directory, which page tables borrow.
    pub fn pd_pa(&self) -> (pa: u64)
        ensures
            pa == self.pd.frame & PA_MASK,
    {
        self.pd.frame & PA_MASK
    }
}

} // verus!
