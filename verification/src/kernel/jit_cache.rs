//! The compiled code of images: one arena for each, laid out once and mapped into
//! every page table that runs the image, filled page by page as the code is entered.
use vstd::bytes::{spec_u32_to_le_bytes, spec_u64_to_le_bytes, u32_to_le_bytes, u64_to_le_bytes};
use vstd::prelude::*;

use crate::cap::copy_bytes;
use crate::hash::CapHash;
use crate::kernel::paging::{
    copy_pages, leaf_entry, Perm, TableNode, TemplatePT, LEAF_TABLE_BYTES, TEMPLATE_BYTES,
};
use crate::table::HashTable;

verus! {

/// Size of a page.
pub const PAGE_SIZE: usize = 4096;

/// Native bytes that a byte of code can take at most.
pub const JIT_BYTES_PER_CODE_BYTE: usize = 32;

/// Native bytes that are there whatever the code.
pub const JIT_FIXED_BYTES: usize = 16384;

/// Bytes of a slot of the dispatch table.
pub const DISPATCH_SLOT: usize = 4;

/// The image is not in the cache.
pub const ERR_LAZY_NO_IMAGE: u32 = 70;

/// The page is past the end of the code.
pub const ERR_LAZY_PAGE_OOB: u32 = 71;

/// The page would overrun the native code.
pub const ERR_LAZY_ARENA_FULL: u32 = 72;

/// `n` rounded up to whole pages, and at least one page.
pub open spec fn rounded_min1(n: int) -> int {
    if n == 0 {
        PAGE_SIZE as int
    } else {
        ((n + PAGE_SIZE - 1) / PAGE_SIZE as int) * PAGE_SIZE
    }
}

/// `n` rounded up to whole pages, and at least one page.
pub fn page_round_up_min1(n: usize) -> (rounded: usize)
    requires
        rounded_min1(n as int) <= usize::MAX,
    ensures
        rounded == rounded_min1(n as int),
        n <= rounded,
        rounded % PAGE_SIZE == 0,
        rounded >= PAGE_SIZE,
{
    if n == 0 {
        return PAGE_SIZE;
    }
    let rest: usize = n % PAGE_SIZE;
    if rest == 0 {
        n
    } else {
        n + (PAGE_SIZE - rest)
    }
}

/// Where the parts of an arena are: the block starts, the dispatch table, the
/// native code and the trampoline.
#[derive(Clone, Copy, Debug, PartialEq, Eq)]
pub struct ArenaLayout {
    pub bb_offset: usize,
    pub dispatch_offset: usize,
    pub jit_offset: usize,
    pub tramp_offset: usize,
    pub total: usize,
}

/// The layout for code of a length.
pub open spec fn bb_size(code_len: int) -> int {
    rounded_min1(code_len)
}

pub open spec fn dispatch_size(code_len: int) -> int {
    rounded_min1(code_len * DISPATCH_SLOT)
}

pub open spec fn jit_size(code_len: int) -> int {
    rounded_min1(code_len * JIT_BYTES_PER_CODE_BYTE + JIT_FIXED_BYTES)
}

pub open spec fn arena_size(code_len: int) -> int {
    bb_size(code_len) + dispatch_size(code_len) + jit_size(code_len) + PAGE_SIZE
}

/// Whether a layout is that for code of a length.
pub open spec fn laid_out(layout: ArenaLayout, code_len: int) -> bool {
    &&& layout.bb_offset == 0
    &&& layout.dispatch_offset == bb_size(code_len)
    &&& layout.jit_offset == layout.dispatch_offset + dispatch_size(code_len)
    &&& layout.tramp_offset == layout.jit_offset + jit_size(code_len)
    &&& layout.total == arena_size(code_len)
}

/// The parts of an arena are whole pages, follow each other, and are large enough:
/// a byte and a slot for each byte of code.
pub proof fn law_arena_parts_are_apart(layout: ArenaLayout, code_len: int)
    requires
        0 <= code_len,
        laid_out(layout, code_len),
    ensures
        layout.dispatch_offset % PAGE_SIZE == 0,
        layout.jit_offset % PAGE_SIZE == 0,
        layout.tramp_offset % PAGE_SIZE == 0,
        layout.total % PAGE_SIZE == 0,
        layout.bb_offset + code_len <= layout.dispatch_offset,
        layout.dispatch_offset + code_len * DISPATCH_SLOT <= layout.jit_offset,
        layout.jit_offset + code_len * JIT_BYTES_PER_CODE_BYTE + JIT_FIXED_BYTES
            <= layout.tramp_offset,
        layout.tramp_offset + PAGE_SIZE == layout.total,
{
}

impl ArenaLayout {
    /// The layout for code of a length.
    pub fn for_code(code_len: usize) -> (layout: ArenaLayout)
        requires
            arena_size(code_len as int) <= usize::MAX,
        ensures
            laid_out(layout, code_len as int),
    {
        let bb: usize = page_round_up_min1(code_len);
        let dispatch: usize = page_round_up_min1(code_len * DISPATCH_SLOT);
        let jit: usize = page_round_up_min1(code_len * JIT_BYTES_PER_CODE_BYTE + JIT_FIXED_BYTES);
        ArenaLayout {
            bb_offset: 0,
            dispatch_offset: bb,
            jit_offset: bb + dispatch,
            tramp_offset: bb + dispatch + jit,
            total: bb + dispatch + jit + PAGE_SIZE,
        }
    }

    /// The address of the native code in an arena at `arena_base_va`.
    pub fn jit_va(&self, arena_base_va: u64) -> (va: u64)
        requires
            arena_base_va + self.jit_offset <= u64::MAX,
        ensures
            va == arena_base_va + self.jit_offset,
    {
        arena_base_va + self.jit_offset as u64
    }
}

/// What the compiler starts an image with: which bytes of the code start a block,
/// the native code that every page shares, and where in it the stub that has a page
/// compiled, and the way out, are.
#[derive(Debug)]
pub struct LazyInit {
    pub valid_pc: Vec<bool>,
    pub compile_stub_offset: u32,
    pub exit_label_offset: u32,
    pub native: Vec<u8>,
}

/// What the compiler makes of a page of code: native code to go to `start`, the
/// offsets of its blocks, and of its memory accesses.
#[derive(Debug)]
pub struct LazyPage {
    pub start: usize,
    pub native: Vec<u8>,
    pub dispatch_entries: Vec<(u32, u32)>,
    pub trap_entries: Vec<(u32, u32)>,
}

/// The code that enters the native code at `jit_va` with the context at `ctx_va`,
/// and leaves through the exit vector.
pub open spec fn trampoline_bytes(ctx_va: u64, jit_va: u64) -> Seq<u8> {
    seq![0x48u8, 0xBFu8] + spec_u64_to_le_bytes(ctx_va) + seq![0x48u8, 0xB8u8]
        + spec_u64_to_le_bytes(jit_va) + seq![0xFFu8, 0xD0u8, 0xCDu8, 0x81u8, 0x0Fu8, 0x0Bu8]
}

/// Length of the trampoline.
pub const TRAMPOLINE_LEN: usize = 26;

/// The code that enters the native code at `jit_va` with the context at `ctx_va`:
/// `mov rdi, ctx_va; mov rax, jit_va; call rax; int 0x81; ud2`.
pub fn trampoline(ctx_va: u64, jit_va: u64) -> (bytes: Vec<u8>)
    ensures
        bytes@ == trampoline_bytes(ctx_va, jit_va),
        bytes@.len() == TRAMPOLINE_LEN,
{
    let mut bytes: Vec<u8> = Vec::new();
    bytes.push(0x48);
    bytes.push(0xBF);
    let ctx = u64_to_le_bytes(ctx_va);
    crate::abi::append_bytes(&mut bytes, ctx.as_slice());
    bytes.push(0x48);
    bytes.push(0xB8);
    let jit = u64_to_le_bytes(jit_va);
    crate::abi::append_bytes(&mut bytes, jit.as_slice());
    bytes.push(0xFF);
    bytes.push(0xD0);
    bytes.push(0xCD);
    bytes.push(0x81);
    bytes.push(0x0F);
    bytes.push(0x0B);
    assert(bytes@ =~= trampoline_bytes(ctx_va, jit_va));
    bytes
}

/// `buf` with `bytes` written at `at`.
pub open spec fn written(buf: Seq<u8>, at: int, bytes: Seq<u8>) -> Seq<u8> {
    Seq::new(
        buf.len(),
        |i: int|
            if at <= i < at + bytes.len() {
                bytes[i - at]
            } else {
                buf[i]
            },
    )
}

/// Write `bytes` into `buf` at `at`.
pub fn write_bytes(buf: &mut Vec<u8>, at: usize, bytes: &[u8])
    requires
        at + bytes@.len() <= old(buf)@.len(),
    ensures
        final(buf)@ == written(old(buf)@, at as int, bytes@),
{
    let ghost before = buf@;
    let len: usize = buf.len();
    let mut i: usize = 0;
    while i < bytes.len()
        invariant
            i <= bytes@.len(),
            at + bytes@.len() <= before.len(),
            before.len() == len,
            buf@ == written(before, at as int, bytes@.take(i as int)),
        decreases bytes@.len() - i,
    {
        buf.set(at + i, bytes[i]);
        assert(buf@ =~= written(before, at as int, bytes@.take(i + 1)));
        i = i + 1;
    }
    assert(bytes@.take(i as int) =~= bytes@);
}

/// The byte of a dispatch table, at `i`, when every block goes to `stub`.
pub open spec fn stub_byte(valid_pc: Seq<bool>, stub: u32, i: int) -> u8 {
    let pc = i / DISPATCH_SLOT as int;
    if 0 <= pc < valid_pc.len() && valid_pc[pc] {
        spec_u32_to_le_bytes(stub)[i % (DISPATCH_SLOT as int)]
    } else {
        0
    }
}

/// The byte of a new arena at `i`.
pub open spec fn arena_byte(
    layout: ArenaLayout,
    init: LazyInit,
    ctx_va: u64,
    jit_va: u64,
    i: int,
) -> u8 {
    if i < layout.dispatch_offset {
        if i < init.valid_pc@.len() && init.valid_pc@[i] {
            1
        } else {
            0
        }
    } else if i < layout.jit_offset {
        stub_byte(init.valid_pc@, init.compile_stub_offset, i - layout.dispatch_offset)
    } else if i < layout.tramp_offset {
        if i - layout.jit_offset < init.native@.len() {
            init.native@[i - layout.jit_offset]
        } else {
            0
        }
    } else if i - layout.tramp_offset < TRAMPOLINE_LEN {
        trampoline_bytes(ctx_va, jit_va)[i - layout.tramp_offset]
    } else {
        0
    }
}

/// A new arena.
pub open spec fn arena_image(
    layout: ArenaLayout,
    init: LazyInit,
    ctx_va: u64,
    jit_va: u64,
) -> Seq<u8> {
    Seq::new(layout.total as nat, |i: int| arena_byte(layout, init, ctx_va, jit_va, i))
}

/// Make the arena of an image: which bytes start blocks, all of them dispatched to
/// the stub that has their page compiled; the shared native code; the trampoline.
pub fn build_arena(layout: &ArenaLayout, init: &LazyInit, ctx_va: u64, jit_va: u64) -> (arena: Vec<
    u8,
>)
    requires
        laid_out(*layout, init.valid_pc@.len() as int),
        init.native@.len() <= layout.tramp_offset - layout.jit_offset,
    ensures
        arena@ == arena_image(*layout, *init, ctx_va, jit_va),
{
    proof {
        law_arena_parts_are_apart(*layout, init.valid_pc@.len() as int);
    }
    let tramp = trampoline(ctx_va, jit_va);
    let stub = u32_to_le_bytes(init.compile_stub_offset);
    let blocks: usize = init.valid_pc.len();
    let native: usize = init.native.len();
    let mut arena: Vec<u8> = Vec::new();
    let mut i: usize = 0;
    while i < layout.total
        invariant
            i <= layout.total,
            blocks == init.valid_pc@.len(),
            native == init.native@.len(),
            layout.dispatch_offset <= layout.jit_offset <= layout.tramp_offset <= layout.total,
            layout.dispatch_offset + blocks * DISPATCH_SLOT <= layout.jit_offset,
            blocks <= layout.dispatch_offset,
            tramp@ == trampoline_bytes(ctx_va, jit_va),
            tramp@.len() == TRAMPOLINE_LEN,
            stub@ == spec_u32_to_le_bytes(init.compile_stub_offset),
            stub@.len() == DISPATCH_SLOT,
            arena@.len() == i,
            forall|j: int|
                0 <= j < i ==> #[trigger] arena@[j] == arena_byte(
                    *layout,
                    *init,
                    ctx_va,
                    jit_va,
                    j,
                ),
        decreases layout.total - i,
    {
        let byte: u8 = if i < layout.dispatch_offset {
            if i < blocks && init.valid_pc[i] {
                1
            } else {
                0
            }
        } else if i < layout.jit_offset {
            let at: usize = i - layout.dispatch_offset;
            let pc: usize = at / DISPATCH_SLOT;
            if pc < blocks && init.valid_pc[pc] {
                stub[at % DISPATCH_SLOT]
            } else {
                0
            }
        } else if i < layout.tramp_offset {
            if i - layout.jit_offset < native {
                init.native[i - layout.jit_offset]
            } else {
                0
            }
        } else if i - layout.tramp_offset < TRAMPOLINE_LEN {
            tramp[i - layout.tramp_offset]
        } else {
            0
        };
        arena.push(byte);
        i = i + 1;
    }
    assert(arena@ =~= arena_image(*layout, *init, ctx_va, jit_va));
    arena
}

/// What a page of an arena is mapped with: the code can be run, the tables read.
pub open spec fn arena_perm(jit_offset: int, offset: int) -> Perm {
    Perm { writable: false, user: true, executable: offset >= jit_offset }
}

/// The entry of the page of an arena at `arena_pa` that `offset` is in.
pub open spec fn arena_leaf(layout: ArenaLayout, arena_pa: u64, offset: u64) -> u64 {
    let page = offset - offset % (PAGE_SIZE as u64);
    leaf_entry((arena_pa + page) as u64, arena_perm(layout.jit_offset as int, page))
}

/// Whether a template maps an arena, and nothing else.
pub open spec fn maps_arena(template: TemplatePT, layout: ArenaLayout, arena_pa: u64) -> bool {
    forall|o: u64|
        o < TEMPLATE_BYTES ==> #[trigger] template.leaf(o) == if o < layout.total {
            Some(arena_leaf(layout, arena_pa, o))
        } else {
            None
        }
}

/// How many pages the template of an arena of `total` bytes takes: its directory,
/// and a table for every 2 MiB.
pub open spec fn template_pages(total: int) -> int {
    1 + (total + LEAF_TABLE_BYTES - 1) / LEAF_TABLE_BYTES as int
}

/// Make the template that maps an arena. `None`, with no page taken, if they are too few.
pub fn build_template(layout: &ArenaLayout, arena_pa: u64, frames: &mut Vec<u64>) -> (template:
    Option<TemplatePT>)
    requires
        layout.total % PAGE_SIZE == 0,
        layout.jit_offset % PAGE_SIZE == 0,
        layout.total <= TEMPLATE_BYTES,
        arena_pa + layout.total <= u64::MAX,
    ensures
        template is Some <==> old(frames)@.len() >= template_pages(layout.total as int),
        template matches Some(t) ==> {
            &&& t.wf()
            &&& maps_arena(t, *layout, arena_pa)
            &&& final(frames)@ == old(frames)@.take(
                old(frames)@.len() - template_pages(layout.total as int),
            )
        },
        template is None ==> final(frames)@ == old(frames)@,
{
    let ghost frames_before = frames@;
    let ghost free = frames@.len();
    let mut left = copy_pages(frames);
    let mut template = match TemplatePT::new(&mut left) {
        None => return None,
        Some(t) => t,
    };
    let mut off: usize = 0;
    let ghost mut n: nat = 0;
    while off < layout.total
        invariant
            off <= layout.total,
            off == n * PAGE_SIZE,
            layout.total % PAGE_SIZE == 0,
            layout.jit_offset % PAGE_SIZE == 0,
            layout.total <= TEMPLATE_BYTES,
            arena_pa + layout.total <= u64::MAX,
            template.wf(),
            forall|o: u64| !#[trigger] template.pd.blocked(o),
            forall|o: u64|
                o < TEMPLATE_BYTES ==> #[trigger] template.leaf(o) == if o < off {
                    Some(arena_leaf(*layout, arena_pa, o))
                } else {
                    None
                },
            forall|o: u64|
                o < TEMPLATE_BYTES ==> #[trigger] template.pd.missing(o) == (if o
                    / LEAF_TABLE_BYTES < (off + LEAF_TABLE_BYTES - 1) / LEAF_TABLE_BYTES as int {
                    0nat
                } else {
                    1nat
                }),
            template_pages(off as int) <= free,
            left@ == frames_before.take(free - template_pages(off as int)),
            free == frames_before.len(),
            frames_before == old(frames)@,
            frames@ == frames_before,
        decreases layout.total - off,
    {
        let ghost earlier = template;
        assert(off % PAGE_SIZE == 0) by (nonlinear_arith)
            requires
                off == n * PAGE_SIZE,
                PAGE_SIZE == 4096,
        ;
        assert(n < layout.total / PAGE_SIZE) by (nonlinear_arith)
            requires
                off == n * PAGE_SIZE,
                off < layout.total,
                layout.total % PAGE_SIZE == 0,
                PAGE_SIZE == 4096,
        ;
        let perm = if off < layout.jit_offset {
            Perm::user_ro()
        } else {
            Perm::user_rx()
        };
        assert(perm == arena_perm(layout.jit_offset as int, off as int));
        assert(template_pages(off + PAGE_SIZE) <= template_pages(layout.total as int));
        assert(template_pages(off + PAGE_SIZE) == template_pages(off as int)
            + template.pd.missing(off as u64));
        match template.map_leaf(off as u64, arena_pa + off as u64, perm, &mut left) {
            None => return None,
            Some(_) => {},
        }
        proof {
            assert(left@ =~= frames_before.take(free - template_pages(off + PAGE_SIZE)));
            assert forall|o: u64| o < TEMPLATE_BYTES implies #[trigger] template.leaf(o) == if o
                < off + PAGE_SIZE {
                Some(arena_leaf(*layout, arena_pa, o))
            } else {
                None
            } by {
                assert(earlier.leaf(o) == if o < off {
                    Some(arena_leaf(*layout, arena_pa, o))
                } else {
                    None
                });
                if o / 4096 == off as u64 / 4096 {
                    assert(o - o % 4096 == off);
                }
            }
            assert forall|o: u64| o < TEMPLATE_BYTES implies #[trigger] template.pd.missing(o) == (
            if o / LEAF_TABLE_BYTES < (off + PAGE_SIZE + LEAF_TABLE_BYTES - 1)
                / LEAF_TABLE_BYTES as int {
                0nat
            } else {
                1nat
            }) by {
                assert(earlier.pd.missing(o) == (if o / LEAF_TABLE_BYTES < (off + LEAF_TABLE_BYTES
                    - 1) / LEAF_TABLE_BYTES as int {
                    0nat
                } else {
                    1nat
                }));
            }
            n = n + 1;
        }
        off = off + PAGE_SIZE;
    }
    *frames = left;
    Some(template)
}

/// The compiled code of an image.
#[derive(Debug)]
pub struct CompiledImage {
    pub arena: Vec<u8>,
    pub arena_pa: u64,
    pub layout: ArenaLayout,
    /// Size of the native code.
    pub jit_size: usize,
    /// Where in the native code the way out is.
    pub exit_label_offset: u32,
    /// Native offset and guest address of the memory accesses.
    pub trap_table: Vec<(u32, u32)>,
    /// Maps the arena, for page tables to borrow.
    pub template: TemplatePT,
    pub template_pd_pa: u64,
    pub code: Vec<u8>,
    /// Which pages of the code are compiled.
    pub compiled: Vec<bool>,
}

/// How many pages code of a length has.
pub open spec fn code_pages(code_len: int) -> int {
    (code_len + PAGE_SIZE - 1) / PAGE_SIZE as int
}

impl CompiledImage {
    /// The arena is laid out for the code, and every page of that is accounted for.
    pub open spec fn wf(&self) -> bool {
        &&& laid_out(self.layout, self.code@.len() as int)
        &&& self.arena@.len() == self.layout.total
        &&& self.jit_size == self.layout.tramp_offset - self.layout.jit_offset
        &&& self.compiled@.len() == code_pages(self.code@.len() as int)
        &&& self.template.wf()
        &&& maps_arena(self.template, self.layout, self.arena_pa)
    }
}

/// Whether an image is that of code of which nothing is compiled.
pub open spec fn image_made(
    image: CompiledImage,
    code: Seq<u8>,
    arena_base_va: u64,
    ctx_va: u64,
    arena_pa: u64,
    init: LazyInit,
) -> bool {
    &&& image.wf()
    &&& image.code@ == code
    &&& image.arena@ == arena_image(
        image.layout,
        init,
        ctx_va,
        (arena_base_va + image.layout.jit_offset) as u64,
    )
    &&& image.arena_pa == arena_pa
    &&& image.exit_label_offset == init.exit_label_offset
    &&& image.trap_table@ == Seq::<(u32, u32)>::empty()
    &&& image.template_pd_pa == image.template.pd.frame & crate::kernel::flag::PA_MASK
    &&& forall|p: int| 0 <= p < image.compiled@.len() ==> !#[trigger] image.compiled@[p]
}

/// Whether an image can be set up: what the compiler starts it with is for this
/// code and fits, and the arena fits where it is to be.
pub open spec fn can_be_made(
    code: Seq<u8>,
    arena_base_va: u64,
    arena_pa: u64,
    init: LazyInit,
) -> bool {
    let total = arena_size(code.len() as int);
    &&& init.valid_pc@.len() == code.len()
    &&& init.native@.len() <= jit_size(code.len() as int)
    &&& total <= TEMPLATE_BYTES
    &&& total <= usize::MAX
    &&& arena_base_va + total <= u64::MAX
    &&& arena_pa + total <= u64::MAX
}

/// The compiled images by hash.
pub struct CompileCache {
    pub images: HashTable<CompiledImage>,
}

impl CompileCache {
    pub open spec fn wf(&self) -> bool {
        forall|h: CapHash| #[trigger] self.images@.contains_key(h) ==> self.images@[h].wf()
    }

    /// A cache of no images.
    pub fn new() -> (cache: CompileCache)
        ensures
            cache.wf(),
            cache.images@ == Map::<CapHash, CompiledImage>::empty(),
    {
        CompileCache { images: HashTable::new() }
    }

    /// Forget every image.
    pub fn evict_all(&mut self)
        ensures
            final(self).wf(),
            final(self).images@ == Map::<CapHash, CompiledImage>::empty(),
    {
        self.images.clear();
    }

    /// Whether an image is compiled; if not, the compiler has to start it.
    pub fn is_compiled(&self, image_hash: &CapHash) -> (compiled: bool)
        ensures
            compiled == self.images@.contains_key(*image_hash),
    {
        self.images.get(image_hash).is_some()
    }

    /// The compiled image with a hash. If there is none, it is set up from what the
    /// compiler starts it with; `None`, and nothing changes, if the pages for its
    /// template run out.
    pub fn get_or_compile(
        &mut self,
        image_hash: &CapHash,
        code: &[u8],
        arena_base_va: u64,
        ctx_va: u64,
        arena_pa: u64,
        init: LazyInit,
        frames: &mut Vec<u64>,
    ) -> (image: Option<&CompiledImage>)
        requires
            old(self).wf(),
            !old(self).images@.contains_key(*image_hash) ==> can_be_made(
                code@,
                arena_base_va,
                arena_pa,
                init,
            ),
        ensures
            final(self).wf(),
            old(self).images@.contains_key(*image_hash) ==> final(self).images@ == old(
                self,
            ).images@ && final(frames)@ == old(frames)@,
            !old(self).images@.contains_key(*image_hash) && image is Some ==> {
                &&& final(self).images@ == old(self).images@.insert(*image_hash, *image->0)
                &&& image_made(*image->0, code@, arena_base_va, ctx_va, arena_pa, init)
                &&& final(frames)@ == old(frames)@.take(
                    old(frames)@.len() - template_pages(arena_size(code@.len() as int)),
                )
            },
            image matches Some(i) ==> final(self).images@.contains_key(*image_hash) && *i
                == final(self).images@[*image_hash],
            image is Some <==> old(self).images@.contains_key(*image_hash) || old(frames)@.len()
                >= template_pages(arena_size(code@.len() as int)),
            image is None ==> final(self).images@ == old(self).images@ && final(frames)@ == old(
                frames,
            )@,
    {
        if self.images.get(image_hash).is_none() {
            let layout = ArenaLayout::for_code(code.len());
            proof {
                law_arena_parts_are_apart(layout, code@.len() as int);
            }
            let jit_va: u64 = layout.jit_va(arena_base_va);
            let arena = build_arena(&layout, &init, ctx_va, jit_va);
            let template = match build_template(&layout, arena_pa, frames) {
                None => return None,
                Some(t) => t,
            };
            let template_pd_pa: u64 = template.pd_pa();
            let pages: usize = if code.len() % PAGE_SIZE == 0 {
                code.len() / PAGE_SIZE
            } else {
                code.len() / PAGE_SIZE + 1
            };
            let compiled = not_compiled(pages);
            let image = CompiledImage {
                arena,
                arena_pa,
                layout,
                jit_size: layout.tramp_offset - layout.jit_offset,
                exit_label_offset: init.exit_label_offset,
                trap_table: Vec::new(),
                template,
                template_pd_pa,
                code: copy_bytes(code),
                compiled,
            };
            let ghost before = self.images@;
            self.images.insert(*image_hash, image);
            assert forall|h: CapHash| #[trigger] self.images@.contains_key(
                h,
            ) implies self.images@[h].wf() by {
                if h != *image_hash {
                    assert(before.contains_key(h));
                }
            }
        }
        self.images.get(image_hash)
    }

    /// Put what the compiler made of a page of an image into its arena: the native
    /// code in its place, the blocks of the page dispatched to it. It fails if the
    /// image or the page is not there, and if the native code does not fit; a page
    /// that was compiled before is left alone. Returns the length of the list of
    /// memory accesses.
    pub fn compile_page_into_arena(
        &mut self,
        image_hash: &CapHash,
        page: usize,
        lazy: &LazyPage,
    ) -> (traps: Result<u64, u32>)
        requires
            old(self).wf(),
            old(self).images@.contains_key(*image_hash) ==> page_for(
                *lazy,
                old(self).images@[*image_hash],
            ),
        ensures
            final(self).wf(),
            page_compiled(
                old(self).images@,
                final(self).images@,
                *image_hash,
                page as int,
                *lazy,
                traps,
            ),
    {
        let ghost before = self.images@;
        match self.images.get(image_hash) {
            None => return Err(ERR_LAZY_NO_IMAGE),
            Some(image) => {
                if page >= image.compiled.len() {
                    return Err(ERR_LAZY_PAGE_OOB);
                }
                if image.compiled[page] {
                    let traps: usize = image.trap_table.len();
                    return Ok(traps as u64);
                }
                let size: usize = image.jit_size;
                if lazy.start > size || lazy.native.len() > size - lazy.start {
                    return Err(ERR_LAZY_ARENA_FULL);
                }
            },
        }
        match self.images.remove(image_hash) {
            None => {
                Err(ERR_LAZY_NO_IMAGE)
            },
            Some(taken) => {
                let mut image = taken;
                let ghost was = image;
                proof {
                    law_arena_parts_are_apart(image.layout, image.code@.len() as int);
                }
                let at: usize = image.layout.jit_offset + lazy.start;
                write_bytes(&mut image.arena, at, lazy.native.as_slice());
                patch_dispatch(
                    &mut image.arena,
                    image.layout.dispatch_offset,
                    &lazy.dispatch_entries,
                );
                append_traps(&mut image.trap_table, &lazy.trap_entries);
                image.compiled.set(page, true);
                let traps: usize = image.trap_table.len();
                let ghost done = image;
                self.images.insert(*image_hash, image);
                proof {
                    assert(self.images@ =~= before.insert(*image_hash, done));
                    assert(image_paged(was, done, page as int, *lazy));
                    assert forall|h: CapHash| #[trigger] self.images@.contains_key(
                        h,
                    ) implies self.images@[h].wf() by {
                        if h != *image_hash {
                            assert(before.contains_key(h));
                        }
                    }
                }
                Ok(traps as u64)
            },
        }
    }
}

fn not_compiled(pages: usize) -> (compiled: Vec<bool>)
    ensures
        compiled@.len() == pages,
        forall|p: int| 0 <= p < pages ==> !#[trigger] compiled@[p],
{
    let mut compiled: Vec<bool> = Vec::new();
    while compiled.len() < pages
        invariant
            compiled@.len() <= pages,
            forall|p: int| 0 <= p < compiled@.len() ==> !#[trigger] compiled@[p],
        decreases pages - compiled@.len(),
    {
        compiled.push(false);
    }
    compiled
}

/// Whether what the compiler made of a page belongs to an image: its blocks are in
/// the code.
pub open spec fn page_for(lazy: LazyPage, image: CompiledImage) -> bool {
    forall|i: int|
        0 <= i < lazy.dispatch_entries@.len() ==> (#[trigger] lazy.dispatch_entries@[i]).0
            < image.code@.len()
}

/// A dispatch table at `base` in `arena` after the first `n` blocks went to their
/// native code.
pub open spec fn patched(arena: Seq<u8>, base: int, entries: Seq<(u32, u32)>, n: nat) -> Seq<u8>
    decreases n,
{
    if n == 0 {
        arena
    } else {
        let e = entries[n - 1];
        written(
            patched(arena, base, entries, (n - 1) as nat),
            base + e.0 * DISPATCH_SLOT,
            spec_u32_to_le_bytes(e.1),
        )
    }
}

/// Whether `after` is the image with a page compiled.
pub open spec fn image_paged(
    before: CompiledImage,
    after: CompiledImage,
    page: int,
    lazy: LazyPage,
) -> bool {
    &&& after.arena@ == patched(
        written(before.arena@, before.layout.jit_offset + lazy.start, lazy.native@),
        before.layout.dispatch_offset as int,
        lazy.dispatch_entries@,
        lazy.dispatch_entries@.len(),
    )
    &&& after.trap_table@ == before.trap_table@ + lazy.trap_entries@
    &&& after.compiled@ == before.compiled@.update(page, true)
    &&& after.arena_pa == before.arena_pa
    &&& after.layout == before.layout
    &&& after.jit_size == before.jit_size
    &&& after.exit_label_offset == before.exit_label_offset
    &&& after.template == before.template
    &&& after.template_pd_pa == before.template_pd_pa
    &&& after.code@ == before.code@
}

/// What compiling a page comes to.
pub open spec fn page_compiled(
    before: Map<CapHash, CompiledImage>,
    after: Map<CapHash, CompiledImage>,
    hash: CapHash,
    page: int,
    lazy: LazyPage,
    traps: Result<u64, u32>,
) -> bool {
    if !before.contains_key(hash) {
        after == before && traps == Err::<u64, u32>(ERR_LAZY_NO_IMAGE)
    } else {
        let image = before[hash];
        if page >= image.compiled@.len() {
            after == before && traps == Err::<u64, u32>(ERR_LAZY_PAGE_OOB)
        } else if image.compiled@[page] {
            after == before && traps == Ok::<u64, u32>(image.trap_table@.len() as u64)
        } else if lazy.start + lazy.native@.len() > image.jit_size {
            after == before && traps == Err::<u64, u32>(ERR_LAZY_ARENA_FULL)
        } else {
            &&& after.contains_key(hash)
            &&& after == before.insert(hash, after[hash])
            &&& image_paged(image, after[hash], page, lazy)
            &&& traps == Ok::<u64, u32>(after[hash].trap_table@.len() as u64)
        }
    }
}

fn append_traps(traps: &mut Vec<(u32, u32)>, more: &Vec<(u32, u32)>)
    ensures
        final(traps)@ == old(traps)@ + more@,
{
    let ghost before = traps@;
    let mut i: usize = 0;
    while i < more.len()
        invariant
            i <= more@.len(),
            traps@ == before + more@.take(i as int),
        decreases more@.len() - i,
    {
        traps.push(more[i]);
        assert(before + more@.take(i + 1) =~= (before + more@.take(i as int)).push(
            more@[i as int],
        ));
        i = i + 1;
    }
    assert(more@.take(i as int) =~= more@);
}

fn patch_dispatch(arena: &mut Vec<u8>, base: usize, entries: &Vec<(u32, u32)>)
    requires
        forall|i: int|
            0 <= i < entries@.len() ==> base + (#[trigger] entries@[i]).0 * DISPATCH_SLOT
                + DISPATCH_SLOT <= old(arena)@.len(),
    ensures
        final(arena)@ == patched(old(arena)@, base as int, entries@, entries@.len()),
        final(arena)@.len() == old(arena)@.len(),
{
    let ghost before = arena@;
    let len: usize = arena.len();
    let mut i: usize = 0;
    while i < entries.len()
        invariant
            i <= entries@.len(),
            before.len() == len,
            arena@.len() == len,
            forall|j: int|
                0 <= j < entries@.len() ==> base + (#[trigger] entries@[j]).0 * DISPATCH_SLOT
                    + DISPATCH_SLOT <= before.len(),
            arena@ == patched(before, base as int, entries@, i as nat),
        decreases entries@.len() - i,
    {
        let (pc, offset): (u32, u32) = entries[i];
        assert(base + entries@[i as int].0 * DISPATCH_SLOT + DISPATCH_SLOT <= before.len());
        let bytes = u32_to_le_bytes(offset);
        write_bytes(arena, base + pc as usize * DISPATCH_SLOT, bytes.as_slice());
        i = i + 1;
    }
}

/// Compiling a page that was just compiled changes nothing.
pub proof fn law_page_compiles_once(
    before: Map<CapHash, CompiledImage>,
    between: Map<CapHash, CompiledImage>,
    after: Map<CapHash, CompiledImage>,
    hash: CapHash,
    page: int,
    lazy: LazyPage,
    again: LazyPage,
    first: Result<u64, u32>,
    second: Result<u64, u32>,
)
    requires
        0 <= page,
        page_compiled(before, between, hash, page, lazy, first),
        first is Ok,
        page_compiled(between, after, hash, page, again, second),
    ensures
        after == between,
        second == Ok::<u64, u32>(between[hash].trap_table@.len() as u64),
{
}

/// The blocks of a page, each listed once, go to their native code.
pub proof fn law_patched_block_reads_back(
    arena: Seq<u8>,
    base: int,
    entries: Seq<(u32, u32)>,
    n: nat,
    i: int,
)
    requires
        0 <= base,
        0 <= i < n <= entries.len(),
        forall|j: int|
            0 <= j < entries.len() ==> base + (#[trigger] entries[j]).0 * DISPATCH_SLOT
                + DISPATCH_SLOT <= arena.len(),
        forall|j: int, k: int|
            0 <= j < k < entries.len() ==> (#[trigger] entries[j]).0 != (#[trigger] entries[k]).0,
    ensures
        patched(arena, base, entries, n).len() == arena.len(),
        patched(arena, base, entries, n).subrange(
            base + entries[i].0 * DISPATCH_SLOT,
            base + entries[i].0 * DISPATCH_SLOT + DISPATCH_SLOT,
        ) == spec_u32_to_le_bytes(entries[i].1),
    decreases n,
{
    vstd::bytes::lemma_auto_spec_u32_to_from_le_bytes();
    let m = (n - 1) as nat;
    let earlier = patched(arena, base, entries, m);
    let now = patched(arena, base, entries, n);
    let lo = base + entries[i].0 * DISPATCH_SLOT;
    lemma_patched_len(arena, base, entries, n);
    if i < m {
        law_patched_block_reads_back(arena, base, entries, m, i);
        assert(entries[i].0 != entries[m as int].0);
        assert(now.subrange(lo, lo + DISPATCH_SLOT) =~= earlier.subrange(lo, lo + DISPATCH_SLOT));
    } else {
        assert(now.subrange(lo, lo + DISPATCH_SLOT) =~= spec_u32_to_le_bytes(entries[i].1));
    }
}

proof fn lemma_patched_len(arena: Seq<u8>, base: int, entries: Seq<(u32, u32)>, n: nat)
    ensures
        patched(arena, base, entries, n).len() == arena.len(),
    decreases n,
{
    if n > 0 {
        lemma_patched_len(arena, base, entries, (n - 1) as nat);
    }
}

/// A directory that maps one page for every image, once it is made.
#[derive(Debug)]
pub struct GlobalPd {
    pub template: Option<TemplatePT>,
}

impl GlobalPd {
    pub open spec fn wf(&self) -> bool {
        self.template matches Some(t) ==> t.wf()
    }

    /// It is not made.
    pub fn new() -> (pd: GlobalPd)
        ensures
            pd.wf(),
            pd.template is None,
    {
        GlobalPd { template: None }
    }

    /// The physical address of the directory that maps the page at `page_pa`, for
    /// user code to write, where `va` is in its 1 GiB region. It is made the first
    /// time and kept after that; `None`, and nothing changes, if pages run out.
    pub fn global_pd_pa(&mut self, va: u64, page_pa: u64, frames: &mut Vec<u64>) -> (pa: Option<u64>)
        requires
            old(self).wf(),
            va % 4096 == 0,
        ensures
            final(self).wf(),
            old(self).template is Some ==> *final(self) == *old(self) && final(frames)@ == old(
                frames,
            )@,
            pa is Some <==> old(self).template is Some || old(frames)@.len() >= 2,
            pa is None ==> *final(self) == *old(self) && final(frames)@ == old(frames)@,
            old(self).template is None && pa is Some ==> final(frames)@ == old(frames)@.take(
                old(frames)@.len() - 2,
            ),
            pa matches Some(p) ==> final(self).template matches Some(t) && p == t.pd.frame
                & crate::kernel::flag::PA_MASK,
            old(self).template is None && pa is Some ==> forall|o: u64|
                o < TEMPLATE_BYTES ==> #[trigger] final(self).template->0.leaf(o) == if o / 4096
                    == (va % TEMPLATE_BYTES) / 4096 {
                    Some(
                        leaf_entry(
                            page_pa,
                            Perm { writable: true, user: true, executable: false },
                        ),
                    )
                } else {
                    None
                },
    {
        match &self.template {
            Some(t) => Some(t.pd_pa()),
            None => {
                let mut left = copy_pages(frames);
                let mut template = match TemplatePT::new(&mut left) {
                    None => return None,
                    Some(t) => t,
                };
                let offset: u64 = va % TEMPLATE_BYTES;
                let rw = Perm::user_rw();
                match template.map_leaf(offset, page_pa, rw, &mut left) {
                    None => return None,
                    Some(_) => {},
                }
                *frames = left;
                let pa: u64 = template.pd_pa();
                self.template = Some(template);
                Some(pa)
            },
        }
    }
}

} // verus!
