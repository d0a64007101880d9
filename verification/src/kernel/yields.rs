//! Yields: the kernel's own, which it answers at once, and those that go to a
//! catcher.
use vstd::prelude::*;

use std::sync::Arc;

use crate::cap::NUM_REGS;
use crate::hash::CapHash;
use crate::kernel::caps::{DataMem, Page, Role, WireTarget};
use crate::kernel::dispatch::{same_but_slots, Kernel, ERR_YIELD_BAD_SENDER};
use crate::kernel::frame::{
    identity_at, zero_bytes, zero_hash, CapMap, KernelFrame, ResidentInstance, Root, Target,
};
use crate::kernel::gas::{Scope, TaskGasState};
use crate::kernel::key::{has_key, reg_key, sorted_set, Key};
use crate::table::TableKey;
use vstd::utf8::{encode_utf8, is_ascii_chars, is_ascii_chars_encode_utf8};

verus! {

/// The yield key with the bytes of a label.
pub open spec fn label(name: Seq<char>) -> Seq<u8> {
    encode_utf8(name)
}

/// Whether a yield key is one of the kernel's.
pub open spec fn is_kernel_key(key: Seq<u8>) -> bool {
    let prefix = label("kernel:"@);
    key.len() >= prefix.len() && key.take(prefix.len() as int) == prefix
}

/// Whether a yield key is one of the kernel's.
pub fn is_kernel_yield_key(key: &Key) -> (kernel: bool)
    ensures
        kernel == is_kernel_key(key@),
{
    let prefix = Key::from_label("kernel:");
    if key.bytes.len() < prefix.bytes.len() {
        return false;
    }
    let mut i: usize = 0;
    while i < prefix.bytes.len()
        invariant
            i <= prefix@.len() <= key@.len(),
            prefix@ == label("kernel:"@),
            forall|j: int| 0 <= j < i ==> key@[j] == prefix@[j],
        decreases prefix@.len() - i,
    {
        if key.bytes[i] != prefix.bytes[i] {
            assert(key@.take(prefix@.len() as int)[i as int] != prefix@[i as int]);
            return false;
        }
        i = i + 1;
    }
    assert(key@.take(prefix@.len() as int) =~= prefix@);
    true
}

/// What a yield comes to.
#[derive(Debug)]
pub enum YieldOutcome {
    /// The kernel answered it; the guest goes on.
    Inline,
    /// An operand is wrong; the guest traps.
    Trap,
    /// It goes to a catcher of `key`, with a copy of what is in `sender_slot`.
    Route { key: Key, sender_slot: Key },
}

/// Whether `inst` is a handle of the kernel, of the given image.
pub open spec fn is_handle(inst: ResidentInstance, image: CapHash) -> bool {
    &&& inst.image_hash_chain == image
    &&& inst.image_hash == image
    &&& inst.root matches Root::Wire(WireTarget::Hash(h)) && h@ == zero_bytes()
    &&& inst.mem.backing@ == Seq::<Option<Arc<Page>>>::empty()
    &&& inst.mem.overlay@ == Seq::<(u32, Arc<Page>)>::empty()
    &&& inst.regs@ == Seq::new(NUM_REGS as nat, |i: int| 0u64)
    &&& inst.pc == 0
    &&& inst.gas_remaining == 0
    &&& inst.runtime is None
}

/// A handle of the kernel.
pub fn make_handle(image: &CapHash, role: Role) -> (inst: ResidentInstance)
    ensures
        is_handle(inst, *image),
        *inst.role == role,
{
    let regs: [u64; NUM_REGS] = [0u64; NUM_REGS];
    assert(regs@ =~= Seq::new(NUM_REGS as nat, |i: int| 0u64));
    ResidentInstance {
        image_hash_chain: *image,
        image_hash: *image,
        root: Root::Wire(WireTarget::Hash(zero_hash())),
        mem: DataMem::empty(),
        regs,
        pc: 0,
        gas_remaining: 0,
        role: Arc::new(role),
        runtime: None,
    }
}

/// Whether a slot holds a handle that emits `key`.
pub open spec fn holds_sender(slot: Option<Target>, image: CapHash, key: Seq<u8>) -> bool {
    &&& slot matches Some(Target::Instance(i))
    &&& is_handle(*i, image)
    &&& *i.role matches Role::YieldSender(k)
    &&& k@ == key
}

/// Whether a slot holds a handle that catches the keys of a set.
pub open spec fn holds_receiver(
    slot: Option<Target>,
    image: CapHash,
    caught: spec_fn(Seq<u8>) -> bool,
) -> bool {
    &&& slot matches Some(Target::Instance(i))
    &&& is_handle(*i, image)
    &&& *i.role matches Role::YieldReceiver(keys)
    &&& forall|k: Seq<u8>| #[trigger] has_key(keys@, k) <==> caught(k)
}

/// Whether a slot holds a handle that draws on gas meter `key`.
pub open spec fn holds_gas(slot: Option<Target>, image: CapHash, key: Seq<u8>) -> bool {
    &&& slot matches Some(Target::Instance(i))
    &&& is_handle(*i, image)
    &&& *i.role matches Role::Gas(k)
    &&& k@ == key
}

/// Whether a slot holds a handle that draws on storage quota `key`.
pub open spec fn holds_quota(slot: Option<Target>, image: CapHash, key: Seq<u8>) -> bool {
    &&& slot matches Some(Target::Instance(i))
    &&& is_handle(*i, image)
    &&& *i.role matches Role::Quota(k)
    &&& k@ == key
}

/// What the instance in a slot emits, if it emits anything.
pub open spec fn sender_key(dir: CapMap, slot: Option<Target>) -> Option<Seq<u8>> {
    match identity_at(dir, slot) {
        Some(id) => match *id.role {
            Role::YieldSender(k) => Some(k@),
            _ => None,
        },
        None => None,
    }
}

/// Whether the instance in a slot catches keys at all.
pub open spec fn receives(dir: CapMap, slot: Option<Target>) -> bool {
    identity_at(dir, slot) matches Some(id) && *id.role is YieldReceiver
}

/// Whether the instance in a slot catches `key`.
pub open spec fn receives_key(dir: CapMap, slot: Option<Target>, key: Seq<u8>) -> bool {
    &&& identity_at(dir, slot) matches Some(id)
    &&& *id.role matches Role::YieldReceiver(keys)
    &&& has_key(keys@, key)
}

/// Whether no slot but those two has changed, and nothing else.
pub open spec fn only_slots(before: KernelFrame, after: KernelFrame, a: Seq<u8>, b: Seq<u8>) -> bool {
    &&& same_but_slots(before, after)
    &&& forall|k: Seq<u8>| k != a && k != b ==> #[trigger] after.slot(k) == before.slot(k)
}

/// Whether a yield has left everything as it was, with the given outcome.
pub open spec fn trapped(before: KernelFrame, after: KernelFrame, r: Result<YieldOutcome, u32>) -> bool {
    r == Ok::<YieldOutcome, u32>(YieldOutcome::Trap) && after == before
}

/// What making a new yield key comes to: register 8 names the key, 9 and 10 the
/// slots of its sender and its receiver.
pub open spec fn mint_yield_done(
    sender_image: CapHash,
    receiver_image: CapHash,
    before: KernelFrame,
    after: KernelFrame,
    r: Result<YieldOutcome, u32>,
) -> bool {
    let key = reg_key(before.regs@[8]);
    let sender_dst = reg_key(before.regs@[9]);
    let receiver_dst = reg_key(before.regs@[10]);
    if before.write_blocked(sender_dst) || before.write_blocked(receiver_dst) {
        trapped(before, after, r)
    } else {
        &&& r == Ok::<YieldOutcome, u32>(YieldOutcome::Inline)
        &&& only_slots(before, after, sender_dst, receiver_dst)
        &&& holds_receiver(after.slot(receiver_dst), receiver_image, |k: Seq<u8>| k == key)
        &&& sender_dst != receiver_dst ==> holds_sender(after.slot(sender_dst), sender_image, key)
    }
}

/// What merging two receivers comes to: registers 8 and 9 name them, 10 the slot
/// of the receiver of the keys of both.
pub open spec fn merge_done(
    dir: CapMap,
    receiver_image: CapHash,
    before: KernelFrame,
    after: KernelFrame,
    r: Result<YieldOutcome, u32>,
) -> bool {
    let a = reg_key(before.regs@[8]);
    let b = reg_key(before.regs@[9]);
    let dst = reg_key(before.regs@[10]);
    if before.write_blocked(dst) || before.is_pending(a) {
        trapped(before, after, r)
    } else if identity_at(dir, before.slot(a)) is None {
        r == Err::<YieldOutcome, u32>(ERR_YIELD_BAD_SENDER) && after == before
    } else if before.is_pending(b) {
        trapped(before, after, r)
    } else if identity_at(dir, before.slot(b)) is None {
        r == Err::<YieldOutcome, u32>(ERR_YIELD_BAD_SENDER) && after == before
    } else if !receives(dir, before.slot(a)) || !receives(dir, before.slot(b)) {
        trapped(before, after, r)
    } else {
        &&& r == Ok::<YieldOutcome, u32>(YieldOutcome::Inline)
        &&& only_slots(before, after, dst, dst)
        &&& holds_receiver(
            after.slot(dst),
            receiver_image,
            |k: Seq<u8>|
                receives_key(dir, before.slot(a), k) || receives_key(dir, before.slot(b), k),
        )
    }
}

/// What making a gas handle comes to: register 8 names the meter, 9 the slot.
pub open spec fn mint_gas_done(
    image: CapHash,
    before: KernelFrame,
    after: KernelFrame,
    r: Result<YieldOutcome, u32>,
) -> bool {
    let dst = reg_key(before.regs@[9]);
    if before.write_blocked(dst) {
        trapped(before, after, r)
    } else {
        &&& r == Ok::<YieldOutcome, u32>(YieldOutcome::Inline)
        &&& only_slots(before, after, dst, dst)
        &&& holds_gas(after.slot(dst), image, reg_key(before.regs@[8]))
    }
}

/// What making a quota handle comes to: register 8 names the quota, 9 the slot.
pub open spec fn mint_quota_done(
    image: CapHash,
    before: KernelFrame,
    after: KernelFrame,
    r: Result<YieldOutcome, u32>,
) -> bool {
    let dst = reg_key(before.regs@[9]);
    if before.write_blocked(dst) {
        trapped(before, after, r)
    } else {
        &&& r == Ok::<YieldOutcome, u32>(YieldOutcome::Inline)
        &&& only_slots(before, after, dst, dst)
        &&& holds_quota(after.slot(dst), image, reg_key(before.regs@[8]))
    }
}

/// What setting a meter comes to: register 8 names the meter, 9 is its balance from
/// now on, and 7 becomes the balance it had.
pub open spec fn set_meter_done(
    before: KernelFrame,
    after: KernelFrame,
    gas_before: TaskGasState,
    gas_after: TaskGasState,
    r: Result<YieldOutcome, u32>,
) -> bool {
    let meter: Scope = Some(reg_key(before.regs@[8]));
    &&& r == Ok::<YieldOutcome, u32>(YieldOutcome::Inline)
    &&& after == (KernelFrame { regs: after.regs, ..before })
    &&& after.regs@ == before.regs@.update(7, gas_before.balance(meter) as u64)
    &&& gas_after.in_use() == gas_before.in_use()
    &&& gas_after.root() == gas_before.root()
    &&& forall|s: Scope| #[trigger]
        gas_after.balance(s) == if s == meter {
            before.regs@[9] as i64
        } else {
            gas_before.balance(s)
        }
    &&& gas_after.meters@ == if gas_before.in_use() == meter {
        gas_before.meters@
    } else {
        gas_before.meters@.insert(reg_key(before.regs@[8]), before.regs@[9] as i64)
    }
    &&& gas_after.live_gas == if gas_before.in_use() == meter {
        before.regs@[9] as i64
    } else {
        gas_before.live_gas
    }
    &&& gas_after.host_budget == gas_before.host_budget
}

/// What a yield comes to.
pub open spec fn yield_done(
    kernel: Kernel,
    before: KernelFrame,
    after: KernelFrame,
    gas_before: TaskGasState,
    gas_after: TaskGasState,
    r: Result<YieldOutcome, u32>,
) -> bool {
    let dir = kernel.directory@;
    let slot = reg_key(before.regs@[7]);
    if before.is_pending(slot) {
        trapped(before, after, r) && gas_after == gas_before
    } else {
        match sender_key(dir, before.slot(slot)) {
            None => trapped(before, after, r) && gas_after == gas_before,
            Some(key) => if key == label("kernel:set_gas_meter"@) {
                set_meter_done(before, after, gas_before, gas_after, r)
            } else {
                &&& gas_after == gas_before
                &&& if key == label("kernel:mint_yield"@) {
                    mint_yield_done(
                        kernel.config.sender_image,
                        kernel.config.receiver_image,
                        before,
                        after,
                        r,
                    )
                } else if key == label("kernel:merge_yield_receiver"@) {
                    merge_done(dir, kernel.config.receiver_image, before, after, r)
                } else if key == label("kernel:mint_gas"@) {
                    mint_gas_done(kernel.config.gas_image, before, after, r)
                } else if key == label("kernel:mint_quota"@) {
                    mint_quota_done(kernel.config.quota_image, before, after, r)
                } else {
                    &&& after == before
                    &&& r matches Ok(YieldOutcome::Route { key: k, sender_slot: s }) && k@ == key
                        && s@ == slot
                }
            },
        }
    }
}

impl Kernel {
    fn mint_yield(&self, frame: &mut KernelFrame) -> (r: Result<YieldOutcome, u32>)
        ensures
            mint_yield_done(
                self.config.sender_image,
                self.config.receiver_image,
                *old(frame),
                *final(frame),
                r,
            ),
    {
        let key = Key::from_reg(frame.regs[8]);
        let sender_dst = Key::from_reg(frame.regs[9]);
        let receiver_dst = Key::from_reg(frame.regs[10]);
        if frame.slot_write_blocked(&sender_dst) || frame.slot_write_blocked(&receiver_dst) {
            return Ok(YieldOutcome::Trap);
        }
        let mut keys: Vec<Key> = Vec::new();
        keys.push(key.duplicate());
        assert(keys@[0]@ == key@);
        let ghost caught = keys@;
        assert forall|k: Seq<u8>| #[trigger] has_key(caught, k) <==> k == key@ by {
            if k == key@ {
                assert(caught[0]@ == k);
            }
        }
        let sender = make_handle(&self.config.sender_image, Role::YieldSender(key));
        let receiver = make_handle(&self.config.receiver_image, Role::YieldReceiver(keys));
        frame.cnode.insert(sender_dst, Target::Instance(Box::new(sender)));
        frame.cnode.insert(receiver_dst, Target::Instance(Box::new(receiver)));
        Ok(YieldOutcome::Inline)
    }

    fn merge_yield_receivers(&self, frame: &mut KernelFrame) -> (r: Result<YieldOutcome, u32>)
        ensures
            merge_done(
                self.directory@,
                self.config.receiver_image,
                *old(frame),
                *final(frame),
                r,
            ),
    {
        let a_slot = Key::from_reg(frame.regs[8]);
        let b_slot = Key::from_reg(frame.regs[9]);
        let dst = Key::from_reg(frame.regs[10]);
        if frame.slot_write_blocked(&dst) || frame.slot_is_pending(&a_slot) {
            return Ok(YieldOutcome::Trap);
        }
        let a = match frame.instance_identity(&self.directory, &a_slot) {
            Some(id) => id,
            None => return Err(ERR_YIELD_BAD_SENDER),
        };
        if frame.slot_is_pending(&b_slot) {
            return Ok(YieldOutcome::Trap);
        }
        let b = match frame.instance_identity(&self.directory, &b_slot) {
            Some(id) => id,
            None => return Err(ERR_YIELD_BAD_SENDER),
        };
        let a_keys: &Vec<Key> = match &*a.role {
            Role::YieldReceiver(keys) => keys,
            _ => return Ok(YieldOutcome::Trap),
        };
        let b_keys: &Vec<Key> = match &*b.role {
            Role::YieldReceiver(keys) => keys,
            _ => return Ok(YieldOutcome::Trap),
        };
        let merged = merge_keys(a_keys, b_keys);
        let receiver = make_handle(&self.config.receiver_image, Role::YieldReceiver(merged));
        frame.cnode.insert(dst, Target::Instance(Box::new(receiver)));
        Ok(YieldOutcome::Inline)
    }

    fn mint_gas(&self, frame: &mut KernelFrame) -> (r: Result<YieldOutcome, u32>)
        ensures
            mint_gas_done(self.config.gas_image, *old(frame), *final(frame), r),
    {
        let dst = Key::from_reg(frame.regs[9]);
        if frame.slot_write_blocked(&dst) {
            return Ok(YieldOutcome::Trap);
        }
        let handle = make_handle(&self.config.gas_image, Role::Gas(Key::from_reg(frame.regs[8])));
        frame.cnode.insert(dst, Target::Instance(Box::new(handle)));
        Ok(YieldOutcome::Inline)
    }

    fn mint_quota(&self, frame: &mut KernelFrame) -> (r: Result<YieldOutcome, u32>)
        ensures
            mint_quota_done(self.config.quota_image, *old(frame), *final(frame), r),
    {
        let dst = Key::from_reg(frame.regs[9]);
        if frame.slot_write_blocked(&dst) {
            return Ok(YieldOutcome::Trap);
        }
        let handle = make_handle(
            &self.config.quota_image,
            Role::Quota(Key::from_reg(frame.regs[8])),
        );
        frame.cnode.insert(dst, Target::Instance(Box::new(handle)));
        Ok(YieldOutcome::Inline)
    }

    /// Yield: emit the key of the sender in the slot of register 7. The kernel's own
    /// requests are answered at once; everything else goes to a catcher.
    pub fn dispatch_host_yield(&self, frame: &mut KernelFrame, gas: &mut TaskGasState) -> (r: Result<
        YieldOutcome,
        u32,
    >)
        ensures
            yield_done(*self, *old(frame), *final(frame), *old(gas), *final(gas), r),
    {
        let ghost before = *frame;
        let sender_slot = Key::from_reg(frame.regs[7]);
        if frame.slot_is_pending(&sender_slot) {
            return Ok(YieldOutcome::Trap);
        }
        let id = match frame.instance_identity(&self.directory, &sender_slot) {
            Some(id) => id,
            None => return Ok(YieldOutcome::Trap),
        };
        let key: Key = match &*id.role {
            Role::YieldSender(k) => k.duplicate(),
            _ => return Ok(YieldOutcome::Trap),
        };
        proof {
            lemma_kernel_labels();
        }
        if !is_kernel_yield_key(&key) {
            return Ok(YieldOutcome::Route { key, sender_slot });
        }
        if key.same(&Key::from_label("kernel:set_gas_meter")) {
            let meter = Key::from_reg(frame.regs[8]);
            let value: i64 = frame.regs[9] as i64;
            let previous: i64 = gas.set_meter(meter, value);
            frame.regs[7] = previous as u64;
            assert(frame.regs@ =~= before.regs@.update(7, previous as u64));
            return Ok(YieldOutcome::Inline);
        }
        if key.same(&Key::from_label("kernel:mint_yield")) {
            return self.mint_yield(frame);
        }
        if key.same(&Key::from_label("kernel:merge_yield_receiver")) {
            return self.merge_yield_receivers(frame);
        }
        if key.same(&Key::from_label("kernel:mint_gas")) {
            return self.mint_gas(frame);
        }
        if key.same(&Key::from_label("kernel:mint_quota")) {
            return self.mint_quota(frame);
        }
        Ok(YieldOutcome::Route { key, sender_slot })
    }
}

/// The keys of both lists.
fn merge_keys(a: &Vec<Key>, b: &Vec<Key>) -> (merged: Vec<Key>)
    ensures
        forall|k: Seq<u8>| #[trigger] has_key(merged@, k) <==> has_key(a@, k) || has_key(b@, k),
{
    let mut all: Vec<Key> = Vec::new();
    let mut i: usize = 0;
    while i < a.len()
        invariant
            i <= a@.len(),
            all@.len() == i,
            forall|j: int| 0 <= j < i ==> (#[trigger] all@[j])@ == a@[j]@,
        decreases a@.len() - i,
    {
        all.push(a[i].duplicate());
        i = i + 1;
    }
    let mut n: usize = 0;
    while n < b.len()
        invariant
            n <= b@.len(),
            all@.len() == a@.len() + n,
            forall|j: int| 0 <= j < a@.len() ==> (#[trigger] all@[j])@ == a@[j]@,
            forall|j: int|
                a@.len() <= j < a@.len() + n ==> (#[trigger] all@[j])@ == b@[j - a@.len()]@,
        decreases b@.len() - n,
    {
        all.push(b[n].duplicate());
        n = n + 1;
    }
    let merged = sorted_set(all.as_slice());
    proof {
        assert forall|k: Seq<u8>| #[trigger] has_key(merged@, k) <==> has_key(a@, k) || has_key(
            b@,
            k,
        ) by {
            if has_key(all@, k) {
                let j = choose|j: int| 0 <= j < all@.len() && #[trigger] all@[j]@ == k;
                if j < a@.len() {
                    assert(a@[j]@ == k);
                } else {
                    assert(b@[j - a@.len()]@ == k);
                }
            }
            if has_key(a@, k) {
                let j = choose|j: int| 0 <= j < a@.len() && #[trigger] a@[j]@ == k;
                assert(all@[j]@ == k);
            }
            if has_key(b@, k) {
                let j = choose|j: int| 0 <= j < b@.len() && #[trigger] b@[j]@ == k;
                assert(all@[a@.len() + j]@ == k);
            }
        }
    }
    merged
}

/// The labels of the requests that the kernel answers are keys of the kernel.
proof fn lemma_kernel_labels()
    ensures
        is_kernel_key(label("kernel:set_gas_meter"@)),
        is_kernel_key(label("kernel:mint_yield"@)),
        is_kernel_key(label("kernel:merge_yield_receiver"@)),
        is_kernel_key(label("kernel:mint_gas"@)),
        is_kernel_key(label("kernel:mint_quota"@)),
{
    reveal_strlit("kernel:");
    reveal_strlit("kernel:set_gas_meter");
    reveal_strlit("kernel:mint_yield");
    reveal_strlit("kernel:merge_yield_receiver");
    reveal_strlit("kernel:mint_gas");
    reveal_strlit("kernel:mint_quota");
    lemma_kernel_label("kernel:set_gas_meter"@);
    lemma_kernel_label("kernel:mint_yield"@);
    lemma_kernel_label("kernel:merge_yield_receiver"@);
    lemma_kernel_label("kernel:mint_gas"@);
    lemma_kernel_label("kernel:mint_quota"@);
}

proof fn lemma_kernel_label(name: Seq<char>)
    requires
        is_ascii_chars(name),
        name.len() >= "kernel:"@.len(),
        name.take("kernel:"@.len() as int) =~= "kernel:"@,
    ensures
        is_kernel_key(label(name)),
{
    let prefix = "kernel:"@;
    reveal_strlit("kernel:");
    assert(is_ascii_chars(prefix));
    is_ascii_chars_encode_utf8(name);
    is_ascii_chars_encode_utf8(prefix);
    assert forall|i: int| 0 <= i < prefix.len() implies label(name)[i] == label(prefix)[i] by {
        assert(name.take(prefix.len() as int)[i] == prefix[i]);
        assert(name[i] == prefix[i]);
    }
    assert(label(name).take(prefix.len() as int) =~= label(prefix));
}

} // verus!
