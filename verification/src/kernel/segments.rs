//! The table of interrupt handlers, and the entry by which user code leaves ring 3.
use vstd::prelude::*;

verus! {

/// How many vectors there are.
pub const IDT_ENTRIES: usize = 256;

/// The segment that kernel code runs in.
pub const KERNEL_CODE_SEL: u16 = 0x08;

/// An interrupt gate that is present and that user code may go through.
pub const GATE_DPL3: u8 = 0xEE;

/// Last offset of the table.
pub const IDT_LIMIT: u16 = 4095;

/// An entry of the table. The address of the handler is in three pieces.
#[derive(Clone, Copy, Debug, PartialEq, Eq)]
pub struct IdtEntry {
    pub offset_lo: u16,
    pub selector: u16,
    pub ist: u8,
    pub type_attr: u8,
    pub offset_mid: u16,
    pub offset_hi: u32,
    pub reserved: u32,
}

/// Where the table is, and its last offset.
#[derive(Clone, Copy, Debug, PartialEq, Eq)]
pub struct IdtDescriptor {
    pub limit: u16,
    pub base: u64,
}

impl IdtEntry {
    /// The address of the handler.
    pub open spec fn offset(&self) -> int {
        self.offset_lo + self.offset_mid * 0x1_0000 + self.offset_hi * 0x1_0000_0000
    }

    /// Set the address of the handler.
    pub fn set_offset(&mut self, va: u64)
        ensures
            final(self).offset() == va,
            *final(self) == (IdtEntry {
                offset_lo: final(self).offset_lo,
                offset_mid: final(self).offset_mid,
                offset_hi: final(self).offset_hi,
                ..*old(self)
            }),
    {
        self.offset_lo = (va % 0x1_0000) as u16;
        self.offset_mid = ((va / 0x1_0000) % 0x1_0000) as u16;
        self.offset_hi = (va / 0x1_0000_0000) as u32;
        assert(va == (va % 0x1_0000) + ((va / 0x1_0000) % 0x1_0000) * 0x1_0000 + (va
            / 0x1_0000_0000) * 0x1_0000_0000) by (bit_vector);
    }
}

/// The entry of a handler that user code may call.
pub open spec fn is_user_gate(entry: IdtEntry, handler_va: u64, ist: u8) -> bool {
    &&& entry.offset() == handler_va
    &&& entry.selector == KERNEL_CODE_SEL
    &&& entry.ist == ist
    &&& entry.type_attr == GATE_DPL3
}

/// A copy of the table in which user code may call the handler of `vector`, on the
/// interrupt stack `ist`.
pub fn with_dpl3_handler(idt: &Vec<IdtEntry>, vector: u8, handler_va: u64, ist: u8) -> (patched:
    Vec<IdtEntry>)
    requires
        idt@.len() == IDT_ENTRIES,
    ensures
        patched@.len() == IDT_ENTRIES,
        forall|i: int| 0 <= i < IDT_ENTRIES && i != vector ==> #[trigger] patched@[i] == idt@[i],
        is_user_gate(patched@[vector as int], handler_va, ist),
        patched@[vector as int].reserved == idt@[vector as int].reserved,
{
    let mut patched: Vec<IdtEntry> = Vec::new();
    let mut i: usize = 0;
    while i < IDT_ENTRIES
        invariant
            i <= IDT_ENTRIES,
            idt@.len() == IDT_ENTRIES,
            patched@ == idt@.take(i as int),
        decreases IDT_ENTRIES - i,
    {
        patched.push(idt[i]);
        assert(patched@ =~= idt@.take(i + 1));
        i = i + 1;
    }
    assert(patched@ =~= idt@);
    let mut e: IdtEntry = patched[vector as usize];
    e.set_offset(handler_va);
    e.selector = KERNEL_CODE_SEL;
    e.ist = ist;
    e.type_attr = GATE_DPL3;
    patched.set(vector as usize, e);
    patched
}

/// The descriptor of a table at `base`.
pub fn idt_descriptor(base: u64) -> (descriptor: IdtDescriptor)
    ensures
        descriptor == (IdtDescriptor { limit: IDT_LIMIT, base }),
        descriptor.limit + 1 == IDT_ENTRIES * 16,
{
    IdtDescriptor { limit: IDT_LIMIT, base }
}

} // verus!
