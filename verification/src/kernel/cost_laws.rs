//! What gas and memory are set aside.
use vstd::prelude::*;

use crate::kernel::caps::{KernelImageCap, KernelMapping};
use crate::kernel::dispatch::{image_cost_inputs, pinned_units, units_for};
use crate::kernel::gas::{Scope, TaskGasState};
use crate::kernel::pool::{pool_at, pool_pages, pool_taken, LazyPool};

verus! {

/// Going over to another meter leaves the gas that was in use banked where it came from,
/// and puts into use what is banked for the other: a meter that nothing was banked for
/// has nothing, and without a meter the host's budget is in use.
pub proof fn law_switch_banks_the_gas_in_use(before: TaskGasState, after: TaskGasState, to: Scope)
    requires
        after.switched(&before, to),
        before.in_use() != to,
    ensures
        after.in_use() == to,
        to matches Some(k) ==> after.live_gas == (if before.meters@.contains_key(k) {
            before.meters@[k]
        } else {
            0
        }),
        to is None ==> after.live_gas == before.host_budget,
        before.in_use() matches Some(k) ==> after.meters@.contains_key(k) && after.meters@[k]
            == before.live_gas,
        before.in_use() is None ==> after.host_budget == before.live_gas,
        before.in_use() is Some ==> after.host_budget == before.host_budget,
        forall|k: Seq<u8>|
            Some(k) != before.in_use() && before.meters@.contains_key(k)
                ==> #[trigger] after.meters@.contains_key(k) && after.meters@[k]
                == before.meters@[k],
{
    assert(after.balance(to) == before.balance(to));
}

/// The balance of the meter in use is the gas in use; of another it is what is banked.
pub proof fn law_balance_is_live_or_banked(gas: TaskGasState, k: Seq<u8>)
    ensures
        gas.balance(gas.in_use()) == gas.live_gas,
        gas.in_use() != Some(k) && gas.meters@.contains_key(k) ==> gas.balance(Some(k))
            == gas.meters@[k],
        gas.in_use() != Some(k) && !gas.meters@.contains_key(k) ==> gas.balance(Some(k)) == 0,
        gas.in_use() is Some ==> gas.balance(None) == gas.host_budget,
{
}

/// Read-only memory is counted in units of 2 MiB, the last of them begun.
pub proof fn law_units_cover_the_bytes(bytes: int)
    requires
        0 <= bytes,
    ensures
        units_for(bytes) * 0x20_0000 >= bytes,
        bytes > 0 ==> (units_for(bytes) - 1) * 0x20_0000 < bytes,
        bytes == 0 ==> units_for(bytes) == 0,
{
}

/// The cost of a call counts the bytes of the code, and the units of the code and of
/// each pinned mapping; what is not pinned is not counted.
pub proof fn law_cost_counts_code_and_pinned_mappings(
    img: KernelImageCap,
    mappings: Seq<KernelMapping>,
    m: KernelMapping,
)
    requires
        img.mappings@ == mappings.push(m),
        img.code_len <= u32::MAX,
        0 <= pinned_units(mappings) + units_for(img.code_len as int) + units_for(m.size as int)
            <= u32::MAX,
    ensures
        image_cost_inputs(img).0 == img.code_len,
        image_cost_inputs(img).1 == units_for(img.code_len as int) + pinned_units(mappings) + (
        if m.pinned {
            units_for(m.size as int)
        } else {
            0
        }),
        pinned_units(Seq::<KernelMapping>::empty()) == 0,
{
    assert(mappings.push(m).drop_last() =~= mappings);
    law_units_cover_the_bytes(m.size as int);
    lemma_units_are_counted(mappings);
}

proof fn lemma_units_are_counted(mappings: Seq<KernelMapping>)
    ensures
        pinned_units(mappings) >= 0,
    decreases mappings.len(),
{
    if mappings.len() > 0 {
        lemma_units_are_counted(mappings.drop_last());
        law_units_cover_the_bytes(mappings.last().size as int);
    }
}

/// Where the buffers of the pool are taken one behind the other, they are apart: each has
/// the room that it is for.
pub proof fn law_pool_buffers_are_apart(bases: Seq<u64>)
    requires
        bases.len() == pool_pages().len(),
        forall|i: int|
            0 <= i < bases.len() - 1 ==> #[trigger] bases[i] + pool_pages()[i] * 4096
                == bases[i + 1],
    ensures
        ({
            let p = pool_at(bases);
            &&& p.mem_pa == bases[0]
            &&& p.mem_pa + 0x400_0000 == p.perms_pa
            &&& p.perms_pa + 0x10_0000 == p.ctx_pa
            &&& p.ctx_pa + 0x1000 == p.bb_pa
            &&& p.bb_pa + 0x40_0000 == p.jt_pa
            &&& p.jt_pa + 0x40_0000 == p.dispatch_pa
            &&& p.dispatch_pa + 0x100_0000 == p.jit_pa
            &&& p.jit_pa + 0x100_0000 == p.tramp_pa
            &&& p.tramp_pa + 0x1000 == p.stack_pa
            &&& p.stack_pa + 0x1000 == p.arena_pa
        }),
        pool_pages().last() * 4096 == 0x40_0000,
{
    assert(bases[0] + pool_pages()[0] * 4096 == bases[1]);
    assert(bases[1] + pool_pages()[1] * 4096 == bases[2]);
    assert(bases[2] + pool_pages()[2] * 4096 == bases[3]);
    assert(bases[3] + pool_pages()[3] * 4096 == bases[4]);
    assert(bases[4] + pool_pages()[4] * 4096 == bases[5]);
    assert(bases[5] + pool_pages()[5] * 4096 == bases[6]);
    assert(bases[6] + pool_pages()[6] * 4096 == bases[7]);
    assert(bases[7] + pool_pages()[7] * 4096 == bases[8]);
    assert(bases[8] + pool_pages()[8] * 4096 == bases[9]);
}

/// A pool that was taken stays: other buffers make no other pool.
pub proof fn law_pool_is_taken_once(lazy: LazyPool, bases: Seq<u64>, other: Seq<u64>)
    ensures
        pool_taken(LazyPool { pool: Some(pool_taken(lazy, bases)) }, other) == pool_taken(
            lazy,
            bases,
        ),
        lazy.pool matches Some(p) ==> pool_taken(lazy, bases) == p,
{
}

} // verus!
