//! Walks through page tables that also follow the entries which lead to tables of
//! somebody else: the kernel's, or those of a template.
use vstd::prelude::*;

use crate::kernel::flag::{P, PA_MASK, PS};
use crate::kernel::paging::{
    entry_index, index_at, law_leaf_entry_reads_back, leaf_entry, lemma_index_bound, page_number,
    present, AddressMap, PageTable, Perm, ENTRIES,
};
use crate::table::Table;

verus! {

/// The tables that a page table does not own, by the kernel address they are at.
pub type TableMemory = Table<u64, Vec<u64>>;

/// Where the kernel finds the table that an entry leads to. None if the entry is not in
/// use, is a large page, or leads out of kernel memory. `shift` is the lowest address
/// bit that selects the entry in its table; a top table has no large pages.
pub open spec fn leads_to(map: AddressMap, entry: u64, shift: int) -> Option<u64> {
    if !present(entry) || (shift < 39 && entry & PS != 0) {
        None
    } else {
        match map.va_of(entry & PA_MASK) {
            Some(v) => Some(v as u64),
            None => None,
        }
    }
}

/// The lowest table on the way to `va` from the table at `at`, whose entries are
/// selected by the address bits from `shift` on.
pub open spec fn walk(
    tables: Map<u64, Vec<u64>>,
    map: AddressMap,
    at: u64,
    shift: int,
    va: u64,
) -> Option<u64>
    decreases shift,
{
    if shift <= 12 {
        Some(at)
    } else {
        match leads_to(map, tables[at]@[entry_index(va, shift)], shift) {
            None => None,
            Some(next) => walk(tables, map, next, shift - 9, va),
        }
    }
}

/// Whether an entry leads to where the address space ends at most.
pub open spec fn in_space(map: AddressMap, entry: u64) -> bool {
    map.va_of(entry & PA_MASK) matches Some(v) ==> v <= u64::MAX
}

/// Whether the tables on the way to `va` from the table at `at` are live.
pub open spec fn live(
    tables: Map<u64, Vec<u64>>,
    map: AddressMap,
    at: u64,
    shift: int,
    va: u64,
) -> bool
    decreases shift,
{
    &&& tables.contains_key(at)
    &&& tables[at]@.len() == ENTRIES
    &&& shift > 12 ==> {
        let entry = tables[at]@[entry_index(va, shift)];
        &&& in_space(map, entry)
        &&& leads_to(map, entry, shift) matches Some(next) ==> live(
            tables,
            map,
            next,
            shift - 9,
            va,
        )
    }
}

/// Whether the tables of somebody else that the way to `va` goes through are live.
pub open spec fn others_live(
    pt: PageTable,
    tables: Map<u64, Vec<u64>>,
    map: AddressMap,
    va: u64,
) -> bool {
    pt.foreign(va) matches Some((entry, shift)) ==> {
        &&& in_space(map, entry)
        &&& leads_to(map, entry, shift) matches Some(at) ==> live(tables, map, at, shift - 9, va)
    }
}

/// The lowest table on the way to `va` that is somebody else's, where the way leaves the
/// tables of `pt`.
pub open spec fn others_table(
    pt: PageTable,
    tables: Map<u64, Vec<u64>>,
    map: AddressMap,
    va: u64,
) -> Option<u64> {
    match pt.foreign(va) {
        None => None,
        Some((entry, shift)) => match leads_to(map, entry, shift) {
            None => None,
            Some(at) => walk(tables, map, at, shift - 9, va),
        },
    }
}

/// The leaf entry in use for an address, whoever's table it is in.
pub open spec fn leaf_anywhere(
    pt: PageTable,
    tables: Map<u64, Vec<u64>>,
    map: AddressMap,
    va: u64,
) -> Option<u64> {
    if pt.foreign(va) is None {
        pt.leaf(va)
    } else {
        match others_table(pt, tables, map, va) {
            None => None,
            Some(at) => {
                let entry = tables[at]@[entry_index(va, 12)];
                if present(entry) {
                    Some(entry)
                } else {
                    None
                }
            },
        }
    }
}

/// Whether there are tables down to the leaf of an address, whoever's they are.
pub open spec fn reached_anywhere(
    pt: PageTable,
    tables: Map<u64, Vec<u64>>,
    map: AddressMap,
    va: u64,
) -> bool {
    if pt.foreign(va) is None {
        pt.reaches(va)
    } else {
        others_table(pt, tables, map, va) is Some
    }
}

fn follow(map: &AddressMap, entry: u64, shift: u64) -> (at: Option<u64>)
    requires
        map.wf(),
        in_space(*map, entry),
    ensures
        at == leads_to(*map, entry, shift as int),
{
    if entry & P == 0 || (shift < 39 && entry & PS != 0) {
        None
    } else {
        map.pa_to_va(entry & PA_MASK)
    }
}

fn walk_from(tables: &TableMemory, map: &AddressMap, at: u64, shift: u64, va: u64) -> (low: Option<
    u64,
>)
    requires
        map.wf(),
        live(tables@, *map, at, shift as int, va),
        shift <= 39,
        shift >= 12,
        (shift - 12) % 9 == 0,
    ensures
        low == walk(tables@, *map, at, shift as int, va),
        low matches Some(l) ==> tables@.contains_key(l) && tables@[l]@.len() == ENTRIES,
    decreases shift,
{
    if shift <= 12 {
        return Some(at);
    }
    let entry: u64 = match tables.get(&at) {
        Some(table) => table[index_at(va, shift)],
        None => vstd::pervasive::unreached(),
    };
    match follow(map, entry, shift) {
        None => None,
        Some(next) => walk_from(tables, map, next, shift - 9, va),
    }
}

fn find_others_table(pt: &PageTable, tables: &TableMemory, map: &AddressMap, va: u64) -> (low:
    Option<u64>)
    requires
        map.wf(),
        others_live(*pt, tables@, *map, va),
    ensures
        low == others_table(*pt, tables@, *map, va),
        low matches Some(l) ==> tables@.contains_key(l) && tables@[l]@.len() == ENTRIES,
{
    match pt.foreign_entry(va) {
        None => None,
        Some((entry, shift)) => {
            proof {
                pt.lemma_foreign_level(va);
            }
            match follow(map, entry, shift) {
                None => None,
                Some(at) => walk_from(tables, map, at, shift - 9, va),
            }
        },
    }
}

/// The physical address of the page that `virt` is mapped to. None if a table on the way
/// is missing, or a large page is in the way. `others` holds the tables that `pt` does
/// not own.
pub fn pt_lookup_leaf(pt: &PageTable, others: &TableMemory, map: &AddressMap, virt: u64) -> (pa:
    Option<u64>)
    requires
        map.wf(),
        others_live(*pt, others@, *map, virt),
    ensures
        pa == (match leaf_anywhere(*pt, others@, *map, virt) {
            Some(entry) => Some(entry & PA_MASK),
            None => None,
        }),
{
    if pt.foreign_entry(virt).is_none() {
        return match pt.get_leaf(virt) {
            Some(entry) => Some(entry & PA_MASK),
            None => None,
        };
    }
    match find_others_table(pt, others, map, virt) {
        None => None,
        Some(at) => {
            let entry: u64 = match others.get(&at) {
                Some(table) => table[index_at(virt, 12)],
                None => vstd::pervasive::unreached(),
            };
            if entry & P != 0 {
                Some(entry & PA_MASK)
            } else {
                None
            }
        },
    }
}

/// Whether the leaf of `va` is now `entry`, in the table that it is in, and nothing else
/// has changed.
pub open spec fn remapped(
    pt: PageTable,
    pt_after: PageTable,
    tables: Map<u64, Vec<u64>>,
    tables_after: Map<u64, Vec<u64>>,
    map: AddressMap,
    va: u64,
    entry: u64,
) -> bool {
    match others_table(pt, tables, map, va) {
        Some(at) => {
            &&& pt_after == pt
            &&& tables_after.contains_key(at)
            &&& tables_after == tables.insert(at, tables_after[at])
            &&& tables_after[at]@ == tables[at]@.update(entry_index(va, 12), entry)
        },
        None => {
            &&& tables_after == tables
            &&& forall|v: u64| #[trigger]
                pt_after.leaf(v) == if page_number(v) == page_number(va) {
                    Some(entry)
                } else {
                    pt.leaf(v)
                }
            &&& forall|v: u64| #[trigger] pt_after.foreign(v) == pt.foreign(v)
            &&& forall|v: u64| #[trigger] pt_after.blocked(v) == pt.blocked(v)
            &&& forall|v: u64| #[trigger] pt_after.missing(v) == pt.missing(v)
            &&& pt_after.frame() == pt.frame()
        },
    }
}

/// Map the page of `virt`, whose tables are there, to the page at `phys`. None, and
/// nothing changes, if a table on the way is missing or a large page is in the way.
pub fn pt_remap_leaf(
    pt: &mut PageTable,
    others: &mut TableMemory,
    map: &AddressMap,
    virt: u64,
    phys: u64,
    perm: Perm,
) -> (done: Option<()>)
    requires
        map.wf(),
        others_live(*old(pt), old(others)@, *map, virt),
    ensures
        done is Some <==> reached_anywhere(*old(pt), old(others)@, *map, virt),
        done is Some ==> remapped(
            *old(pt),
            *final(pt),
            old(others)@,
            final(others)@,
            *map,
            virt,
            leaf_entry(phys, perm),
        ),
        done is None ==> final(others)@ == old(others)@ && final(pt).frame() == old(pt).frame(),
        done is None ==> forall|v: u64| #[trigger] final(pt).leaf(v) == old(pt).leaf(v),
        done is None ==> forall|v: u64| #[trigger] final(pt).foreign(v) == old(pt).foreign(v),
        done is None ==> forall|v: u64| #[trigger] final(pt).blocked(v) == old(pt).blocked(v),
        done is None ==> forall|v: u64| #[trigger] final(pt).missing(v) == old(pt).missing(v),
{
    let entry: u64 = (phys & PA_MASK) | perm.pte_flags();
    proof {
        law_leaf_entry_reads_back(phys, perm);
    }
    if pt.foreign_entry(virt).is_none() {
        if pt.put_leaf(virt, entry) {
            return Some(());
        }
        return None;
    }
    match find_others_table(pt, others, map, virt) {
        None => None,
        Some(at) => {
            let mut table: Vec<u64> = match others.remove(&at) {
                Some(table) => table,
                None => vstd::pervasive::unreached(),
            };
            table.set(index_at(virt, 12), entry);
            others.insert(at, table);
            assert(others@ =~= old(others)@.insert(at, others@[at]));
            Some(())
        },
    }
}

proof fn lemma_walk_ends(
    tables: Map<u64, Vec<u64>>,
    map: AddressMap,
    at: u64,
    shift: int,
    va: u64,
)
    requires
        live(tables, map, at, shift, va),
    ensures
        walk(tables, map, at, shift, va) matches Some(l) ==> tables.contains_key(l)
            && tables[l]@.len() == ENTRIES,
    decreases shift,
{
    if shift > 12 {
        if let Some(next) = leads_to(map, tables[at]@[entry_index(va, shift)], shift) {
            lemma_walk_ends(tables, map, next, shift - 9, va);
        }
    }
}

/// What was mapped last is what a lookup finds, whoever's table it is in. The lowest
/// table on the way must not be on the way above itself too.
pub proof fn law_remapped_page_is_found(
    pt: PageTable,
    pt_after: PageTable,
    tables: Map<u64, Vec<u64>>,
    tables_after: Map<u64, Vec<u64>>,
    map: AddressMap,
    va: u64,
    phys: u64,
    perm: Perm,
)
    requires
        reached_anywhere(pt, tables, map, va),
        others_live(pt, tables, map, va),
        remapped(pt, pt_after, tables, tables_after, map, va, leaf_entry(phys, perm)),
        others_table(pt_after, tables_after, map, va) == others_table(pt, tables, map, va),
    ensures
        leaf_anywhere(pt_after, tables_after, map, va) == Some(leaf_entry(phys, perm)),
        leaf_entry(phys, perm) & PA_MASK == phys & PA_MASK,
{
    law_leaf_entry_reads_back(phys, perm);
    if let Some(at) = others_table(pt, tables, map, va) {
        let (entry, shift) = pt.foreign(va)->0;
        lemma_walk_ends(tables, map, leads_to(map, entry, shift)->0, shift - 9, va);
        lemma_index_bound(va, 12);
        assert(tables_after[at]@[entry_index(va, 12)] == leaf_entry(phys, perm));
    }
}

} // verus!
