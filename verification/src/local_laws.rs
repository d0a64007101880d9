//! What a program that is run locally starts with and ends with.
use vstd::prelude::*;

use crate::exec::ExitReason;
use crate::kernel::caps::{KernelImageCap, KernelMapping, WireInstance};
use crate::local::{
    exit_code, laid, lowered, ro_overlay, ro_overlays, start_cell, start_check, ProgramSpec, RoOverlay,
};
use crate::mem::{page_round_up, Access, Cell};

verus! {

/// Whether a mapping is made of whole pages of the data.
pub open spec fn whole_pages(m: KernelMapping, data_base: u32) -> bool {
    &&& data_base <= m.start <= u32::MAX
    &&& (m.start - data_base) % 4096 == 0
    &&& m.size % 4096 == 0
}

/// Whether a mapping is laid over memory read-only.
pub open spec fn is_read_only(m: KernelMapping, data_base: u32, extent: int, a: int) -> bool {
    &&& m.pinned
    &&& m.source is Some
    &&& m.start <= a < m.start + m.size
    &&& a < data_base + extent
}

proof fn lemma_overlay_of_mapping(
    mappings: Seq<KernelMapping>,
    data_base: u32,
    len: int,
    x: int,
) -> (k: int)
    requires
        0 <= x < ro_overlays(mappings, data_base, len).len(),
    ensures
        0 <= k < mappings.len(),
        ro_overlay(mappings[k], data_base, len) == Some(ro_overlays(mappings, data_base, len)[x]),
    decreases mappings.len(),
{
    let rest = mappings.drop_last();
    if x < ro_overlays(rest, data_base, len).len() {
        let k = lemma_overlay_of_mapping(rest, data_base, len, x);
        assert(rest[k] == mappings[k]);
        k
    } else {
        mappings.len() - 1
    }
}

proof fn lemma_mapping_has_overlay(
    mappings: Seq<KernelMapping>,
    data_base: u32,
    len: int,
    k: int,
) -> (x: int)
    requires
        0 <= k < mappings.len(),
        ro_overlay(mappings[k], data_base, len) is Some,
    ensures
        0 <= x < ro_overlays(mappings, data_base, len).len(),
        ro_overlay(mappings[k], data_base, len) == Some(ro_overlays(mappings, data_base, len)[x]),
    decreases mappings.len(),
{
    let rest = mappings.drop_last();
    if k < rest.len() {
        assert(rest[k] == mappings[k]);
        let x = lemma_mapping_has_overlay(rest, data_base, len, k);
        assert(ro_overlays(mappings, data_base, len)[x] == ro_overlays(rest, data_base, len)[x]);
        x
    } else {
        ro_overlays(mappings, data_base, len).len() - 1
    }
}

/// Whether a read-only part shows the memory image where it is.
spec fn shows_image(o: RoOverlay, spec: ProgramSpec) -> bool {
    &&& o.start == spec.data_base + o.image_off
    &&& o.len > 0
    &&& o.len % 4096 == 0
    &&& o.image_off + o.len <= spec.mem_image@.len()
}

/// Whether a read-only part is at an address.
spec fn reaches(o: RoOverlay, a: int) -> bool {
    o.start <= a < o.start + o.len
}

proof fn lemma_laid(before: Cell, spec: ProgramSpec, n: nat, a: int)
    requires
        n <= spec.ro_overlays@.len(),
        forall|x: int|
            0 <= x < spec.ro_overlays@.len() ==> shows_image(
                #[trigger] spec.ro_overlays@[x],
                spec,
            ),
        spec.data_base <= a < spec.data_base + spec.mem_image@.len(),
        before.byte == spec.mem_image@[a - spec.data_base],
        before.access == Access::ReadWrite,
    ensures
        laid(Some(before), spec, n, a) matches Some(c) && {
            &&& c.byte == spec.mem_image@[a - spec.data_base]
            &&& c.access == Access::ReadOnly <==> exists|x: int|
                0 <= x < n && reaches(#[trigger] spec.ro_overlays@[x], a)
            &&& c.access == Access::ReadWrite || c.access == Access::ReadOnly
        },
    decreases n,
{
    if n > 0 {
        lemma_laid(before, spec, (n - 1) as nat, a);
        let o = spec.ro_overlays@[n - 1];
        assert(shows_image(o, spec));
        let data = spec.mem_image@.subrange(o.image_off as int, o.image_off + o.len);
        assert(page_round_up(data.len() as int) == o.len);
        if reaches(o, a) {
            assert(data[a - o.start] == spec.mem_image@[a - spec.data_base]);
        } else {
            let rest = laid(Some(before), spec, (n - 1) as nat, a)->0;
            if rest.access == Access::ReadOnly {
                let x = choose|x: int|
                    0 <= x < n - 1 && reaches(#[trigger] spec.ro_overlays@[x], a);
                assert(reaches(spec.ro_overlays@[x], a));
            }
        }
    }
}

/// A program starts with the memory of its instance: at every address of the data it
/// reads what the instance has there. It can write there, unless a pinned mapping with
/// a source has the address.
pub proof fn law_program_starts_with_the_instance_memory(
    spec: ProgramSpec,
    instance: WireInstance,
    image: KernelImageCap,
    data_base: u32,
    selector: u8,
    args: Seq<u64>,
    a: int,
)
    requires
        lowered(spec, instance, image, data_base, selector, args),
        instance.mem.backing@.len() * 4096 <= u32::MAX,
        forall|k: int|
            0 <= k < image.mappings@.len() ==> whole_pages(
                #[trigger] image.mappings@[k],
                data_base,
            ),
        data_base <= a < data_base + instance.mem.backing@.len() * 4096,
    ensures
        start_cell(spec, a) matches Some(c) && {
            &&& c.byte == instance.mem.byte(a - data_base)
            &&& c.access == Access::ReadOnly <==> exists|k: int|
                0 <= k < image.mappings@.len() && is_read_only(
                    #[trigger] image.mappings@[k],
                    data_base,
                    (instance.mem.backing@.len() * 4096) as int,
                    a,
                )
            &&& c.access == Access::ReadWrite || c.access == Access::ReadOnly
        },
{
    let len = (instance.mem.backing@.len() * 4096) as int;
    assert(spec.mem_image@.len() == len);
    let overlays = ro_overlays(image.mappings@, data_base, len);
    assert forall|x: int| 0 <= x < spec.ro_overlays@.len() implies shows_image(
        #[trigger] spec.ro_overlays@[x],
        spec,
    ) by {
        let k = lemma_overlay_of_mapping(image.mappings@, data_base, len, x);
        let m = image.mappings@[k];
        assert(whole_pages(m, data_base));
    }
    let before = Cell { access: Access::ReadWrite, byte: spec.mem_image@[a - data_base] };
    lemma_laid(before, spec, spec.ro_overlays@.len(), a);
    let c = start_cell(spec, a)->0;
    if c.access == Access::ReadOnly {
        let x = choose|x: int|
            0 <= x < spec.ro_overlays@.len() && reaches(#[trigger] spec.ro_overlays@[x], a);
        let k = lemma_overlay_of_mapping(image.mappings@, data_base, len, x);
        assert(whole_pages(image.mappings@[k], data_base));
        assert(is_read_only(image.mappings@[k], data_base, len, a));
    }
    if exists|k: int|
        0 <= k < image.mappings@.len() && is_read_only(
            #[trigger] image.mappings@[k],
            data_base,
            len,
            a,
        ) {
        let k = choose|k: int|
            0 <= k < image.mappings@.len() && is_read_only(
                #[trigger] image.mappings@[k],
                data_base,
                len,
                a,
            );
        assert(whole_pages(image.mappings@[k], data_base));
        let x = lemma_mapping_has_overlay(image.mappings@, data_base, len, k);
        assert(reaches(spec.ro_overlays@[x], a));
    }
}

/// A program starts at its endpoint with the arguments in registers 7 to 10, and in the
/// other registers what the instance kept or else what the endpoint gives.
pub proof fn law_program_starts_at_its_endpoint(
    spec: ProgramSpec,
    instance: WireInstance,
    image: KernelImageCap,
    data_base: u32,
    selector: u8,
    args: Seq<u64>,
    ep: crate::cap::EndpointDef,
    n: int,
)
    requires
        lowered(spec, instance, image, data_base, selector, args),
        args.len() == 4,
        0 <= n < image.endpoints@.len(),
        image.endpoints@[n] == (selector, ep),
        forall|m: int| 0 <= m < n ==> (#[trigger] image.endpoints@[m]).0 != selector,
    ensures
        spec.image_hash == instance.image_hash,
        spec.code_base == image.code_base,
        spec.data_base == data_base,
        spec.mem_image@.len() == instance.mem.backing@.len() * 4096,
        data_base + spec.mem_image@.len() <= u32::MAX ==> spec.declared_mem_size == data_base
            + spec.mem_image@.len(),
        spec.regs.pc == ep.entry_pc,
        forall|k: int| 0 <= k < 4 ==> spec.regs.gpr@[7 + k] == #[trigger] args[k],
        forall|k: int|
            0 <= k < 13 && !(7 <= k <= 10) && instance.regs@[k] != 0 ==> (
            #[trigger] spec.regs.gpr@[k]) == instance.regs@[k],
        forall|k: int|
            0 <= k < 13 && !(7 <= k <= 10) && instance.regs@[k] == 0 ==> (
            #[trigger] spec.regs.gpr@[k]) == ep.initial_regs@[k],
{
    lemma_first_endpoint(image.endpoints@, selector, n);
}

proof fn lemma_first_endpoint(
    endpoints: Seq<(u8, crate::cap::EndpointDef)>,
    selector: u8,
    n: int,
)
    requires
        0 <= n < endpoints.len(),
        endpoints[n].0 == selector,
        forall|m: int| 0 <= m < n ==> (#[trigger] endpoints[m]).0 != selector,
    ensures
        crate::kernel::frame::endpoint_at(endpoints, selector) == Some(endpoints[n].1),
    decreases endpoints.len(),
{
    if n > 0 {
        let rest = endpoints.drop_first();
        assert(rest[n - 1] == endpoints[n]);
        assert forall|m: int| 0 <= m < n - 1 implies (#[trigger] rest[m]).0 != selector by {
            assert(rest[m] == endpoints[m + 1]);
        }
        assert(endpoints[0].0 != selector);
        lemma_first_endpoint(rest, selector, n - 1);
    }
}

/// Two ways for a run to end have different codes, or the same code with different
/// arguments; a reply has code zero.
pub proof fn law_exit_codes_tell_the_exits_apart(x: ExitReason, y: ExitReason)
    ensures
        exit_code(x) == exit_code(y) <==> x == y,
        exit_code(x).0 == 0 <==> x == ExitReason::Halt,
        x matches ExitReason::PageFault(a) ==> exit_code(x).1 == a,
        x matches ExitReason::HostCall(i) ==> exit_code(x).1 == i,
{
}

/// Whether the memory of a program and its first `n` read-only overlays are whole pages
/// below 4 GiB.
pub open spec fn fits(spec: ProgramSpec, n: int) -> bool {
    &&& spec.mem_image@.len() > 0 ==> {
        &&& spec.data_base % 4096 == 0
        &&& spec.mem_image@.len() % 4096 == 0
        &&& spec.data_base + spec.mem_image@.len() <= 0x1_0000_0000
    }
    &&& forall|i: int|
        0 <= i < n ==> (#[trigger] spec.ro_overlays@[i]).len > 0 ==> {
            &&& spec.ro_overlays@[i].start % 4096 == 0
            &&& spec.ro_overlays@[i].start + page_round_up(spec.ro_overlays@[i].len as int)
                <= 0x1_0000_0000
        }
}

/// A program can be started exactly where its memory and its overlays are whole pages
/// below 4 GiB.
pub proof fn law_program_is_mapped_where_it_fits(spec: ProgramSpec, n: nat)
    requires
        crate::local::overlays_inside(spec),
        n <= spec.ro_overlays@.len(),
        spec.mem_image@.len() <= u64::MAX,
    ensures
        start_check(spec, n) is Ok <==> fits(spec, n as int),
    decreases n,
{
    if n > 0 {
        law_program_is_mapped_where_it_fits(spec, (n - 1) as nat);
        let o = spec.ro_overlays@[n - 1];
        assert(spec.mem_image@.subrange(o.image_off as int, o.image_off + o.len).len() == o.len);
    }
}

} // verus!
