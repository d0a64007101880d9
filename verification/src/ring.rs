//! The stack of messages that host and guest share. Its first eight bytes say how far
//! it is filled; each message is followed by where it starts.
use vstd::bytes::{
    lemma_auto_spec_u64_to_from_le_bytes, spec_u64_from_le_bytes, spec_u64_to_le_bytes,
    u64_from_le_bytes, u64_to_le_bytes,
};
use vstd::prelude::*;

use crate::kernel::jit_cache::{write_bytes, written};

verus! {

/// Bytes of a stack or back pointer.
pub const POINTER_BYTES: usize = 8;

/// Why a message could not be taken.
#[derive(Clone, Copy, Debug, PartialEq, Eq)]
pub enum RingError {
    /// There is no memory.
    NoBuffer,
    /// The fill mark is out of range.
    InvalidStackPointer { stack_ptr: u64 },
    /// The start of the last message is out of range.
    InvalidBackPointer { back_ptr: u64, stack_ptr: u64 },
}

/// The pointer at an offset.
pub open spec fn pointer_at(ring: Seq<u8>, at: int) -> u64 {
    spec_u64_from_le_bytes(ring.subrange(at, at + POINTER_BYTES))
}

/// How far the stack is filled.
pub open spec fn stack_ptr(ring: Seq<u8>) -> u64 {
    pointer_at(ring, 0)
}

/// Where the last message starts.
pub open spec fn back_ptr(ring: Seq<u8>) -> u64 {
    pointer_at(ring, stack_ptr(ring) - POINTER_BYTES)
}

/// Why the last message cannot be taken, if it cannot.
pub open spec fn pop_error(ring: Seq<u8>) -> Option<RingError> {
    let sp = stack_ptr(ring);
    if ring.len() == 0 {
        Some(RingError::NoBuffer)
    } else if sp > ring.len() || sp < 2 * POINTER_BYTES {
        Some(RingError::InvalidStackPointer { stack_ptr: sp })
    } else if back_ptr(ring) < POINTER_BYTES || back_ptr(ring) > sp - POINTER_BYTES {
        Some(RingError::InvalidBackPointer { back_ptr: back_ptr(ring), stack_ptr: sp })
    } else {
        None
    }
}

/// The last message.
pub open spec fn last_message(ring: Seq<u8>) -> Seq<u8> {
    ring.subrange(back_ptr(ring) as int, stack_ptr(ring) - POINTER_BYTES)
}

/// The stack without its last message, whose bytes are zero.
pub open spec fn popped(ring: Seq<u8>) -> Seq<u8> {
    let back = back_ptr(ring);
    written(
        written(ring, 0, spec_u64_to_le_bytes(back)),
        back as int,
        Seq::new((stack_ptr(ring) - back) as nat, |i: int| 0u8),
    )
}

fn read_pointer(ring: &Vec<u8>, at: usize) -> (value: u64)
    requires
        at + POINTER_BYTES <= ring@.len(),
    ensures
        value == pointer_at(ring@, at as int),
{
    let size: usize = ring.len();
    assert(at + POINTER_BYTES <= size);
    let bytes = vstd::slice::slice_subrange(ring.as_slice(), at, at + POINTER_BYTES);
    u64_from_le_bytes(bytes)
}

/// Take the last message. On an error nothing changes.
pub fn pop_shared_input_raw(ring: &mut Vec<u8>) -> (message: Result<Vec<u8>, RingError>)
    requires
        old(ring)@.len() == 0 || old(ring)@.len() >= POINTER_BYTES,
    ensures
        match message {
            Ok(m) => {
                &&& pop_error(old(ring)@) is None
                &&& m@ == last_message(old(ring)@)
                &&& final(ring)@ == popped(old(ring)@)
            },
            Err(e) => pop_error(old(ring)@) == Some(e) && final(ring)@ == old(ring)@,
        },
{
    proof {
        lemma_auto_spec_u64_to_from_le_bytes();
    }
    let size: usize = ring.len();
    if size == 0 {
        return Err(RingError::NoBuffer);
    }
    let sp: u64 = read_pointer(ring, 0);
    if sp > size as u64 || sp < 16 {
        return Err(RingError::InvalidStackPointer { stack_ptr: sp });
    }
    let back: u64 = read_pointer(ring, sp as usize - POINTER_BYTES);
    if back < 8 || back > sp - 8 {
        return Err(RingError::InvalidBackPointer { back_ptr: back, stack_ptr: sp });
    }
    let body = vstd::slice::slice_subrange(
        ring.as_slice(),
        back as usize,
        sp as usize - POINTER_BYTES,
    );
    let message = crate::cap::copy_bytes(body);
    let mark = u64_to_le_bytes(back);
    write_bytes(ring, 0, mark.as_slice());
    let mut zeros: Vec<u8> = Vec::new();
    let len: u64 = sp - back;
    while (zeros.len() as u64) < len
        invariant
            zeros@.len() <= len,
            zeros@ == Seq::new(zeros@.len(), |i: int| 0u8),
        decreases len - zeros@.len(),
    {
        zeros.push(0);
        assert(zeros@ =~= Seq::new(zeros@.len(), |i: int| 0u8));
    }
    write_bytes(ring, back as usize, zeros.as_slice());
    Ok(message)
}

/// The stack with a message put on it.
pub open spec fn pushed(ring: Seq<u8>, message: Seq<u8>) -> Seq<u8> {
    let sp = stack_ptr(ring);
    let end = sp + message.len();
    written(
        written(written(ring, sp as int, message), end, spec_u64_to_le_bytes(sp)),
        0,
        spec_u64_to_le_bytes((end + POINTER_BYTES) as u64),
    )
}

/// A message that was put on the stack is the one that is taken from it, and then the
/// stack is filled as far as before, with what it held before.
pub proof fn law_pop_returns_what_was_pushed(ring: Seq<u8>, message: Seq<u8>)
    requires
        ring.len() <= u64::MAX,
        POINTER_BYTES <= stack_ptr(ring),
        stack_ptr(ring) + message.len() + POINTER_BYTES <= ring.len(),
    ensures
        pop_error(pushed(ring, message)) is None,
        last_message(pushed(ring, message)) == message,
        stack_ptr(popped(pushed(ring, message))) == stack_ptr(ring),
        popped(pushed(ring, message)).subrange(0, stack_ptr(ring) as int) == ring.subrange(
            0,
            stack_ptr(ring) as int,
        ),
{
    lemma_auto_spec_u64_to_from_le_bytes();
    let sp = stack_ptr(ring);
    let end = sp + message.len();
    let after = pushed(ring, message);
    let top = (end + POINTER_BYTES) as u64;
    assert(after.subrange(0, 8) =~= spec_u64_to_le_bytes(top));
    assert(stack_ptr(after) == top);
    assert(after.subrange(end as int, end + 8) =~= spec_u64_to_le_bytes(sp));
    assert(back_ptr(after) == sp);
    assert(last_message(after) =~= message);
    let back = popped(after);
    assert(back.subrange(0, 8) =~= spec_u64_to_le_bytes(sp));
    assert(ring.subrange(0, 8) =~= spec_u64_to_le_bytes(sp)) by {
        let first = ring.subrange(0, 8);
        assert(first.len() == 8);
        assert(spec_u64_to_le_bytes(spec_u64_from_le_bytes(first)) == first);
    }
    assert forall|i: int| 0 <= i < sp implies back[i] == ring[i] by {
        if i < 8 {
            assert(back[i] == back.subrange(0, 8)[i]);
            assert(ring[i] == ring.subrange(0, 8)[i]);
        }
    }
    assert(back.subrange(0, sp as int) =~= ring.subrange(0, sp as int));
}

} // verus!
