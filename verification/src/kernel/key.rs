//! Slot, meter and yield keys: short byte strings.
use vstd::prelude::*;
use vstd::string::StringSliceAdditionalSpecFns;
use vstd::utf8::encode_utf8;

use crate::table::{Table, TableKey};

verus! {

/// A byte string that names a slot, a meter or a yield.
#[derive(Debug, PartialEq, Eq)]
pub struct Key {
    pub bytes: Vec<u8>,
}

/// A map keyed by keys.
pub type KeyTable<V> = Table<Key, V>;

impl View for Key {
    type V = Seq<u8>;

    open spec fn view(&self) -> Seq<u8> {
        self.bytes@
    }
}

impl TableKey for Key {
    type Id = Seq<u8>;

    open spec fn id(&self) -> Seq<u8> {
        self.bytes@
    }

    fn same(&self, other: &Key) -> bool {
        same_bytes(self.bytes.as_slice(), other.bytes.as_slice())
    }
}

/// Whether two byte strings are equal.
pub fn same_bytes(a: &[u8], b: &[u8]) -> (same: bool)
    ensures
        same == (a@ == b@),
{
    if a.len() != b.len() {
        return false;
    }
    let mut i: usize = 0;
    while i < a.len()
        invariant
            i <= a@.len(),
            a@.len() == b@.len(),
            forall|j: int| 0 <= j < i ==> a@[j] == b@[j],
        decreases a@.len() - i,
    {
        if a[i] != b[i] {
            return false;
        }
        i = i + 1;
    }
    assert(a@ =~= b@);
    true
}

/// The key of a single byte.
pub open spec fn byte_key(b: u8) -> Seq<u8> {
    seq![b]
}

/// The slot that a register operand names: the key of its low byte.
pub open spec fn reg_key(reg: u64) -> Seq<u8> {
    byte_key((reg & 0xFF) as u8)
}

/// Lexicographic order of byte strings.
pub open spec fn key_less(a: Seq<u8>, b: Seq<u8>) -> bool
    decreases a.len(),
{
    if b.len() == 0 {
        false
    } else if a.len() == 0 {
        true
    } else if a[0] != b[0] {
        a[0] < b[0]
    } else {
        key_less(a.drop_first(), b.drop_first())
    }
}

impl Key {
    /// The key of a single byte.
    pub fn from_byte(b: u8) -> (key: Key)
        ensures
            key@ == byte_key(b),
    {
        let mut bytes: Vec<u8> = Vec::new();
        bytes.push(b);
        Key { bytes }
    }

    /// The key that a register operand names.
    pub fn from_reg(reg: u64) -> (key: Key)
        ensures
            key@ == reg_key(reg),
    {
        assert(reg & 0xFF <= 0xFF) by (bit_vector);
        Key::from_byte((reg & 0xFF) as u8)
    }

    /// The key with the bytes of a label.
    pub fn from_label(label: &str) -> (key: Key)
        ensures
            key@ == encode_utf8(label@),
    {
        Key { bytes: crate::cap::copy_bytes(label.as_bytes()) }
    }

    /// A copy.
    pub fn duplicate(&self) -> (copy: Key)
        ensures
            copy@ == self@,
    {
        Key { bytes: crate::cap::copy_bytes(self.bytes.as_slice()) }
    }

    /// Whether `self` comes before `other`.
    pub fn less(&self, other: &Key) -> (less: bool)
        ensures
            less == key_less(self@, other@),
    {
        let mut i: usize = 0;
        assert(self@.skip(0) =~= self@);
        assert(other@.skip(0) =~= other@);
        while i < self.bytes.len() && i < other.bytes.len()
            invariant
                i <= self@.len(),
                i <= other@.len(),
                key_less(self@, other@) == key_less(self@.skip(i as int), other@.skip(i as int)),
            decreases self@.len() - i,
        {
            assert(self@.skip(i as int).drop_first() =~= self@.skip(i + 1));
            assert(other@.skip(i as int).drop_first() =~= other@.skip(i + 1));
            if self.bytes[i] != other.bytes[i] {
                return self.bytes[i] < other.bytes[i];
            }
            i = i + 1;
        }
        i < other.bytes.len()
    }
}

proof fn lemma_key_less_irreflexive(a: Seq<u8>)
    ensures
        !key_less(a, a),
    decreases a.len(),
{
    if a.len() > 0 {
        lemma_key_less_irreflexive(a.drop_first());
    }
}

proof fn lemma_key_less_transitive(a: Seq<u8>, b: Seq<u8>, c: Seq<u8>)
    requires
        key_less(a, b),
        key_less(b, c),
    ensures
        key_less(a, c),
    decreases a.len(),
{
    if a.len() > 0 && b.len() > 0 && c.len() > 0 && a[0] == b[0] && b[0] == c[0] {
        lemma_key_less_transitive(a.drop_first(), b.drop_first(), c.drop_first());
    }
}

proof fn lemma_key_less_total(a: Seq<u8>, b: Seq<u8>)
    ensures
        key_less(a, b) || key_less(b, a) || a == b,
    decreases a.len(),
{
    if a.len() > 0 && b.len() > 0 && a[0] == b[0] {
        lemma_key_less_total(a.drop_first(), b.drop_first());
        if a.drop_first() == b.drop_first() {
            assert(a =~= seq![a[0]] + a.drop_first());
            assert(b =~= seq![b[0]] + b.drop_first());
        }
    } else if a.len() == 0 && b.len() == 0 {
        assert(a =~= b);
    }
}

/// The contents of a list of keys.
pub open spec fn key_seq(keys: Seq<Key>) -> Seq<Seq<u8>> {
    keys.map_values(|k: Key| k@)
}

/// Whether `key` is in a list of keys.
pub open spec fn has_key(keys: Seq<Key>, key: Seq<u8>) -> bool {
    exists|i: int| 0 <= i < keys.len() && #[trigger] keys[i]@ == key
}

/// Whether a list of keys is strictly ascending.
pub open spec fn ascending(keys: Seq<Key>) -> bool {
    forall|i: int, j: int|
        #![trigger keys[i], keys[j]]
        0 <= i < j < keys.len() ==> key_less(keys[i]@, keys[j]@)
}

/// Whether `key` is in `keys`.
pub fn contains_key(keys: &[Key], key: &Key) -> (found: bool)
    ensures
        found == has_key(keys@, key@),
{
    let mut i: usize = 0;
    while i < keys.len()
        invariant
            i <= keys@.len(),
            forall|j: int| 0 <= j < i ==> #[trigger] keys@[j]@ != key@,
        decreases keys@.len() - i,
    {
        if keys[i].same(key) {
            assert(keys@[i as int]@ == key@);
            return true;
        }
        i = i + 1;
    }
    false
}

/// Insert `key` into an ascending list, unless it is there.
fn insert_sorted(keys: &mut Vec<Key>, key: &Key)
    requires
        ascending(old(keys)@),
    ensures
        ascending(final(keys)@),
        forall|k: Seq<u8>| #[trigger]
            has_key(final(keys)@, k) <==> has_key(old(keys)@, k) || k == key@,
{
    let ghost before = keys@;
    let mut i: usize = 0;
    while i < keys.len() && keys[i].less(key)
        invariant
            i <= keys@.len(),
            keys@ == before,
            ascending(before),
            forall|j: int| 0 <= j < i ==> key_less((#[trigger] before[j])@, key@),
        decreases keys@.len() - i,
    {
        i = i + 1;
    }
    if i < keys.len() && keys[i].same(key) {
        assert(before[i as int]@ == key@);
        return;
    }
    let copy = key.duplicate();
    let ghost c = copy;
    keys.insert(i, copy);
    proof {
        let after = keys@;
        assert(after =~= before.insert(i as int, c));
        if i < before.len() {
            lemma_key_less_total(before[i as int]@, key@);
        }
        assert forall|a: int, b: int|
            #![trigger after[a], after[b]]
            0 <= a < b < after.len() implies key_less(after[a]@, after[b]@) by {
            let a0 = if a < i { a } else { a - 1 };
            let b0 = if b < i { b } else { b - 1 };
            if a == i {
                if b0 > i {
                    assert(key_less(before[i as int]@, before[b0]@));
                    lemma_key_less_transitive(key@, before[i as int]@, before[b0]@);
                }
            } else if b == i {
            } else {
                assert(key_less(before[a0]@, before[b0]@));
            }
        }
        assert forall|k: Seq<u8>| #[trigger] has_key(after, k) <==> has_key(before, k) || k
            == key@ by {
            if has_key(after, k) {
                let x = choose|x: int| 0 <= x < after.len() && #[trigger] after[x]@ == k;
                if x < i {
                    assert(before[x]@ == k);
                } else if x > i {
                    assert(before[x - 1]@ == k);
                }
            }
            if has_key(before, k) {
                let x = choose|x: int| 0 <= x < before.len() && #[trigger] before[x]@ == k;
                if x < i {
                    assert(after[x]@ == k);
                } else {
                    assert(after[x + 1]@ == k);
                }
            }
            if k == key@ {
                assert(after[i as int]@ == k);
            }
        }
    }
}

/// The keys of `keys` in ascending order, each once.
pub fn sorted_set(keys: &[Key]) -> (set: Vec<Key>)
    ensures
        ascending(set@),
        forall|k: Seq<u8>| #[trigger] has_key(set@, k) <==> has_key(keys@, k),
{
    let mut set: Vec<Key> = Vec::new();
    let mut i: usize = 0;
    while i < keys.len()
        invariant
            i <= keys@.len(),
            ascending(set@),
            forall|k: Seq<u8>| #[trigger]
                has_key(set@, k) <==> has_key(keys@.take(i as int), k),
        decreases keys@.len() - i,
    {
        insert_sorted(&mut set, &keys[i]);
        proof {
            let shorter = keys@.take(i as int);
            let longer = keys@.take(i + 1);
            assert forall|k: Seq<u8>| #[trigger] has_key(set@, k) <==> has_key(longer, k) by {
                if has_key(longer, k) {
                    let x = choose|x: int| 0 <= x < longer.len() && #[trigger] longer[x]@ == k;
                    if x < i {
                        assert(shorter[x]@ == k);
                    }
                }
                if has_key(shorter, k) {
                    let x = choose|x: int| 0 <= x < shorter.len() && #[trigger] shorter[x]@ == k;
                    assert(longer[x]@ == k);
                }
                assert(longer[i as int]@ == keys@[i as int]@);
            }
        }
        i = i + 1;
    }
    assert(keys@.take(i as int) =~= keys@);
    set
}

/// Two ascending lists with the same keys are the same list of keys: what a
/// catch set lists is determined by what it catches.
pub proof fn law_ascending_lists_are_canonical(a: Seq<Key>, b: Seq<Key>)
    requires
        ascending(a),
        ascending(b),
        forall|k: Seq<u8>| #[trigger] has_key(a, k) <==> has_key(b, k),
    ensures
        key_seq(a) == key_seq(b),
    decreases a.len(),
{
    if a.len() == 0 {
        if b.len() > 0 {
            assert(has_key(b, b[0]@));
            assert(has_key(a, b[0]@));
        }
        assert(key_seq(a) =~= key_seq(b));
    } else {
        assert(a[a.len() - 1]@ == a.last()@);
        assert(has_key(a, a.last()@));
        if b.len() == 0 {
            assert(false);
        }
        assert(has_key(b, b[b.len() - 1]@));
        assert(has_key(a, b.last()@));
        let ia = choose|i: int| 0 <= i < a.len() && #[trigger] a[i]@ == b.last()@;
        let ib = choose|i: int| 0 <= i < b.len() && #[trigger] b[i]@ == a.last()@;
        if ia < a.len() - 1 {
            assert(key_less(a[ia]@, a[a.len() - 1]@));
            if ib < b.len() - 1 {
                assert(key_less(b[ib]@, b[b.len() - 1]@));
                lemma_key_less_transitive(a.last()@, b.last()@, a.last()@);
            }
            lemma_key_less_irreflexive(a.last()@);
        }
        assert(a.last()@ == b.last()@);
        let x = a.drop_last();
        let y = b.drop_last();
        assert forall|k: Seq<u8>| #[trigger] has_key(x, k) <==> has_key(y, k) by {
            if has_key(x, k) {
                let i = choose|i: int| 0 <= i < x.len() && #[trigger] x[i]@ == k;
                assert(a[i]@ == k);
                assert(key_less(a[i]@, a[a.len() - 1]@));
                lemma_key_less_irreflexive(k);
                assert(has_key(a, k));
                assert(has_key(b, k));
                let j = choose|j: int| 0 <= j < b.len() && #[trigger] b[j]@ == k;
                assert(j < b.len() - 1);
                assert(y[j]@ == k);
            }
            if has_key(y, k) {
                let i = choose|i: int| 0 <= i < y.len() && #[trigger] y[i]@ == k;
                assert(b[i]@ == k);
                assert(key_less(b[i]@, b[b.len() - 1]@));
                lemma_key_less_irreflexive(k);
                assert(has_key(b, k));
                assert(has_key(a, k));
                let j = choose|j: int| 0 <= j < a.len() && #[trigger] a[j]@ == k;
                assert(j < a.len() - 1);
                assert(x[j]@ == k);
            }
        }
        assert(ascending(x)) by {
            assert forall|i: int, j: int|
                #![trigger x[i], x[j]]
                0 <= i < j < x.len() implies key_less(x[i]@, x[j]@) by {
                assert(key_less(a[i]@, a[j]@));
            }
        }
        assert(ascending(y)) by {
            assert forall|i: int, j: int|
                #![trigger y[i], y[j]]
                0 <= i < j < y.len() implies key_less(y[i]@, y[j]@) by {
                assert(key_less(b[i]@, b[j]@));
            }
        }
        law_ascending_lists_are_canonical(x, y);
        assert(key_seq(a) =~= key_seq(x).push(a.last()@));
        assert(key_seq(b) =~= key_seq(y).push(b.last()@));
    }
}

} // verus!
