//! The buffers that every invocation shares, taken once and kept.
use vstd::prelude::*;

use crate::kernel::bump::{BumpArena, PAGE_SIZE};
use crate::kernel::paging::AddressMap;

verus! {

/// Memory of a program.
pub const MEM_POOL_BYTES: usize = 0x400_0000;

/// Access rights of a program's pages.
pub const PERMS_POOL_BYTES: usize = 0x10_0000;

/// Block starts of a program.
pub const BB_POOL_BYTES: usize = 0x40_0000;

/// Jump table of a program.
pub const JT_POOL_BYTES: usize = 0x40_0000;

/// Dispatch table of a program.
pub const DISPATCH_POOL_BYTES: usize = 0x100_0000;

/// Native code of a program.
pub const JIT_POOL_BYTES: usize = 0x100_0000;

/// Page tables of an invocation.
pub const ARENA_POOL_BYTES: usize = 0x40_0000;

/// The context of an invocation.
pub const CTX_POOL_BYTES: usize = 4096;

/// The trampoline.
pub const TRAMP_POOL_BYTES: usize = 4096;

/// The stack of an invocation.
pub const STACK_POOL_BYTES: usize = 4096;

/// How many buffers there are.
pub const POOL_BUFFERS: usize = 10;

/// Physical addresses of the buffers.
#[derive(Clone, Copy, Debug, PartialEq, Eq)]
pub struct Pool {
    pub mem_pa: u64,
    pub perms_pa: u64,
    pub ctx_pa: u64,
    pub bb_pa: u64,
    pub jt_pa: u64,
    pub dispatch_pa: u64,
    pub jit_pa: u64,
    pub tramp_pa: u64,
    pub stack_pa: u64,
    pub arena_pa: u64,
}

/// How many pages `bytes` take.
pub fn pages(bytes: usize) -> (count: u64)
    ensures
        count == (bytes + PAGE_SIZE - 1) / PAGE_SIZE as int,
{
    let whole: usize = bytes / PAGE_SIZE;
    if bytes % PAGE_SIZE == 0 {
        whole as u64
    } else {
        whole as u64 + 1
    }
}

/// The pages of the buffers, in the order in which they are taken.
pub open spec fn pool_pages() -> Seq<u64> {
    seq![0x4000u64, 0x100u64, 1u64, 0x400u64, 0x400u64, 0x1000u64, 0x1000u64, 1u64, 1u64, 0x400u64]
}

/// The pool whose buffers were taken, in order, at `bases`.
pub open spec fn pool_at(bases: Seq<u64>) -> Pool {
    Pool {
        mem_pa: bases[0],
        perms_pa: bases[1],
        ctx_pa: bases[2],
        bb_pa: bases[3],
        jt_pa: bases[4],
        dispatch_pa: bases[5],
        jit_pa: bases[6],
        tramp_pa: bases[7],
        stack_pa: bases[8],
        arena_pa: bases[9],
    }
}

/// The pages of the buffers, in the order in which they are taken.
pub fn pool_requests() -> (counts: Vec<u64>)
    ensures
        counts@ == pool_pages(),
{
    let mut counts: Vec<u64> = Vec::new();
    counts.push(pages(MEM_POOL_BYTES));
    counts.push(pages(PERMS_POOL_BYTES));
    counts.push(pages(CTX_POOL_BYTES));
    counts.push(pages(BB_POOL_BYTES));
    counts.push(pages(JT_POOL_BYTES));
    counts.push(pages(DISPATCH_POOL_BYTES));
    counts.push(pages(JIT_POOL_BYTES));
    counts.push(pages(TRAMP_POOL_BYTES));
    counts.push(pages(STACK_POOL_BYTES));
    counts.push(pages(ARENA_POOL_BYTES));
    assert(counts@ =~= pool_pages());
    counts
}

/// The pool, once it is taken.
#[derive(Debug)]
pub struct LazyPool {
    pub pool: Option<Pool>,
}

/// The pool that is there, or else the one at `bases`.
pub open spec fn pool_taken(lazy: LazyPool, bases: Seq<u64>) -> Pool {
    match lazy.pool {
        Some(p) => p,
        None => pool_at(bases),
    }
}

impl LazyPool {
    /// Nothing is taken.
    pub fn new() -> (lazy: LazyPool)
        ensures
            lazy.pool is None,
    {
        LazyPool { pool: None }
    }

    /// Whether the buffers have to be taken.
    pub fn is_missing(&self) -> (missing: bool)
        ensures
            missing == self.pool is None,
    {
        self.pool.is_none()
    }

    /// The pool. The first time its buffers are those that were taken at `bases`;
    /// after that it stays what it is.
    pub fn get_or_init(&mut self, bases: &[u64; POOL_BUFFERS]) -> (pool: Pool)
        ensures
            final(self).pool == Some(pool),
            pool == pool_taken(*old(self), bases@),
    {
        match self.pool {
            Some(pool) => pool,
            None => {
                let pool = Pool {
                    mem_pa: bases[0],
                    perms_pa: bases[1],
                    ctx_pa: bases[2],
                    bb_pa: bases[3],
                    jt_pa: bases[4],
                    dispatch_pa: bases[5],
                    jit_pa: bases[6],
                    tramp_pa: bases[7],
                    stack_pa: bases[8],
                    arena_pa: bases[9],
                };
                self.pool = Some(pool);
                pool
            },
        }
    }
}

/// An empty arena for page tables, in the memory that the pool has for them.
pub fn arena(lazy: &mut LazyPool, bases: &[u64; POOL_BUFFERS], map: &AddressMap) -> (arena: Option<
    BumpArena,
>)
    requires
        map.wf(),
        map.va_of(pool_taken(*old(lazy), bases@).arena_pa) matches Some(v) ==> v <= u64::MAX,
    ensures
        final(lazy).pool == Some(pool_taken(*old(lazy), bases@)),
        ({
            let va = map.va_of(final(lazy).pool->0.arena_pa);
            &&& arena is Some <==> (va is Some && va->0 > 0 && va->0 + ARENA_POOL_BYTES <= u64::MAX)
            &&& arena matches Some(a) ==> a.start() == va->0 && a.size() == ARENA_POOL_BYTES
                && a.mark() == 0
        }),
{
    let pool = lazy.get_or_init(bases);
    BumpArena::from_existing(map, pool.arena_pa, ARENA_POOL_BYTES)
}

} // verus!
