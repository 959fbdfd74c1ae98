//! Basic mutable dict type: an open-addressing hash table keyed by Symbols.
use vstd::prelude::*;

use fnv::FnvHasher;
use std::hash::Hasher;

use crate::error::{ErrorKind, ErrorKindView, RuntimeError};
use crate::memory::Memory;
use crate::rawarray::{ArraySize, RawArray};
use crate::taggedptr::TaggedPtr;

verus! {

/// The state of a fresh FNV hasher, the FNV-1a 64-bit offset basis
pub const FNV_OFFSET_BASIS: u64 = 0xcbf29ce484222325;

/// The FNV-1a 64-bit prime
pub const FNV_PRIME: u64 = 0x100000001b3;

/// FNV-1a: from the given state, for each byte in turn, xor the byte into the
/// state and multiply by the FNV prime, wrapping at 64 bits.
pub open spec fn fnv1a(state: u64, bytes: Seq<u8>) -> u64
    decreases bytes.len(),
{
    if bytes.len() == 0 {
        state
    } else {
        fnv1a(((state ^ (bytes[0] as u64)) as int * FNV_PRIME as int) as u64, bytes.drop_first())
    }
}

/// Hashes the bytes with `fnv::FnvHasher`: a `FnvHasher::default()` fed the
/// bytes through `Hasher::write`, then read with `Hasher::finish`. The crate's
/// source sets the default state to the FNV-1a offset basis, folds each written
/// byte in as FNV-1a does, and `finish` returns the state.
#[verifier::external_body]
fn fnv_hash(bytes: &[u8]) -> (h: u64)
    ensures
        h == fnv1a(FNV_OFFSET_BASIS, bytes@),
{
    let mut hasher = FnvHasher::default();
    hasher.write(bytes);
    hasher.finish()
}

/// The bytes that hashing a name feeds to the hasher: its UTF-8 encoding and a
/// terminating 0xff byte, as `str` hashing does.
pub open spec fn name_hash_bytes(name: Seq<char>) -> Seq<u8> {
    vstd::utf8::encode_utf8(name) + seq![0xffu8]
}

/// The hash of a symbol with the given name
pub open spec fn spec_name_hash(name: Seq<char>) -> u64 {
    fnv1a(FNV_OFFSET_BASIS, name_hash_bytes(name))
}

/// Hash the name of a Symbol key
pub fn symbol_hash(mem: &Memory, key: TaggedPtr) -> (h: u64)
    requires
        key is Symbol,
        mem.valid_ptr(key),
    ensures
        h == spec_name_hash(mem.syms@[key->Symbol_0 as int]),
{
    let name = mem.symbol_name(key);
    let mut bytes = vstd::slice::slice_to_vec(name.as_bytes());
    bytes.push(0xffu8);
    assert(bytes@ =~= name_hash_bytes(name@));
    fnv_hash(bytes.as_slice())
}

/// Internal entry representation, keeping a copy of the hash for the key. A
/// slot whose key is nil is free, unless it is marked removed: the entry that
/// was there was taken out, and searches go on past it.
#[derive(Copy, Clone)]
pub struct DictItem {
    pub key: TaggedPtr,
    pub value: TaggedPtr,
    pub hash: u64,
    pub removed: bool,
}

impl DictItem {
    /// A free entry
    pub fn blank() -> (d: DictItem)
        ensures
            d == DictItem::blank_spec(),
    {
        DictItem { key: TaggedPtr::Nil, value: TaggedPtr::Nil, hash: 0, removed: false }
    }

    /// A free entry
    pub open spec fn blank_spec() -> DictItem {
        DictItem { key: TaggedPtr::Nil, value: TaggedPtr::Nil, hash: 0, removed: false }
    }

    /// The entry binding a key to a value
    pub open spec fn bound(key: TaggedPtr, value: TaggedPtr, hash: u64) -> DictItem {
        DictItem { key, value, hash, removed: false }
    }

    /// The marker an entry leaves when it is removed
    pub open spec fn removed_from(item: DictItem) -> DictItem {
        DictItem { key: TaggedPtr::Nil, removed: true, ..item }
    }
}

/// Does a search for the key stop at the entry: the entry holds that key, or
/// the slot is free
pub open spec fn stops_at(item: DictItem, key: TaggedPtr) -> bool {
    item.key == key || (item.key is Nil && !item.removed)
}

/// Linear probing: the slot where a search for `key` stops, having looked at
/// `n` slots already and being at `index` now: the first slot that holds the
/// key or is free, or none if all slots were looked at.
pub open spec fn probe(entries: Seq<DictItem>, key: TaggedPtr, index: nat, n: nat) -> Option<nat>
    decreases entries.len() - n,
{
    if n >= entries.len() || index >= entries.len() {
        None
    } else if stops_at(entries[index as int], key) {
        Some(index)
    } else {
        probe(entries, key, (index + 1) % entries.len(), n + 1)
    }
}

/// The slot a search for `key` finds, starting at its `hash` modulo the capacity
pub open spec fn find_slot(entries: Seq<DictItem>, key: TaggedPtr, hash: u64) -> Option<nat> {
    if entries.len() == 0 {
        None
    } else {
        probe(entries, key, (hash as nat) % entries.len(), 0)
    }
}

/// The number of entries whose key is not nil
pub open spec fn used_count(entries: Seq<DictItem>) -> nat
    decreases entries.len(),
{
    if entries.len() == 0 {
        0
    } else {
        used_count(entries.drop_last()) + if entries.last().key is Nil {
            0nat
        } else {
            1nat
        }
    }
}

/// The counted entries are no more than the entries
proof fn lemma_used_count_bound(entries: Seq<DictItem>)
    ensures
        used_count(entries) <= entries.len(),
    decreases entries.len(),
{
    if entries.len() > 0 {
        lemma_used_count_bound(entries.drop_last());
    }
}

/// Replacing one entry changes the count only by what the two entries count
proof fn lemma_used_count_update(entries: Seq<DictItem>, i: int, item: DictItem)
    requires
        0 <= i < entries.len(),
    ensures
        used_count(entries.update(i, item)) + (if entries[i].key is Nil {
            0int
        } else {
            1int
        }) == used_count(entries) + (if item.key is Nil {
            0int
        } else {
            1int
        }),
    decreases entries.len(),
{
    let updated = entries.update(i, item);
    if i == entries.len() - 1 {
        assert(updated.drop_last() =~= entries.drop_last());
    } else {
        assert(updated.drop_last() =~= entries.drop_last().update(i, item));
        lemma_used_count_update(entries.drop_last(), i, item);
    }
}

/// A probe that stops at a slot keeps stopping there when that slot is
/// replaced by an entry holding the key: the slots before it are unchanged.
proof fn lemma_probe_update(entries: Seq<DictItem>, key: TaggedPtr, index: nat, n: nat, slot: nat, item: DictItem)
    requires
        probe(entries, key, index, n) == Some(slot),
        item.key == key,
    ensures
        probe(entries.update(slot as int, item), key, index, n) == Some(slot),
    decreases entries.len() - n,
{
    lemma_probe_in_range(entries, key, index, n);
    let updated = entries.update(slot as int, item);
    if index != slot {
        assert(updated[index as int] == entries[index as int]);
        lemma_probe_update(entries, key, (index + 1) % entries.len(), n + 1, slot, item);
    }
}

/// A probe that stops at a slot keeps stopping there when another slot is
/// replaced by an entry the search does not stop at.
proof fn lemma_probe_keeps(entries: Seq<DictItem>, key: TaggedPtr, index: nat, n: nat, t: nat, s: nat, item: DictItem)
    requires
        probe(entries, key, index, n) == Some(t),
        s < entries.len(),
        s != t,
        !stops_at(item, key),
    ensures
        probe(entries.update(s as int, item), key, index, n) == Some(t),
    decreases entries.len() - n,
{
    lemma_probe_in_range(entries, key, index, n);
    let updated = entries.update(s as int, item);
    if index != t {
        assert(!stops_at(updated[index as int], key));
        lemma_probe_keeps(entries, key, (index + 1) % entries.len(), n + 1, t, s, item);
    } else {
        assert(updated[t as int] == entries[t as int]);
    }
}

/// The slot a probe finds is a valid index, and the search stops there
proof fn lemma_probe_in_range(entries: Seq<DictItem>, key: TaggedPtr, index: nat, n: nat)
    ensures
        probe(entries, key, index, n) matches Some(slot) ==> slot < entries.len() && stops_at(entries[slot as int], key),
    decreases entries.len() - n,
{
    if !(n >= entries.len() || index >= entries.len()) && !stops_at(entries[index as int], key) {
        lemma_probe_in_range(entries, key, (index + 1) % entries.len(), n + 1);
    }
}

/// The outcome of finding the entry for a key: the key's hash and the slot
/// found, the one holding the key or the first free one on its way, or the
/// error. A key must be a Symbol; a dict with no storage, or with neither the
/// key nor a free slot, has no slot for it.
pub open spec fn spec_find_entry(syms: Seq<Seq<char>>, entries: Seq<DictItem>, key: TaggedPtr) -> Result<(nat, u64), ErrorKindView> {
    if entries.len() == 0 {
        Err(ErrorKindView::BoundsError)
    } else if !(key is Symbol) {
        Err(ErrorKindView::UnhashableError)
    } else {
        let hash = spec_name_hash(syms[key->Symbol_0 as int]);
        match find_slot(entries, key, hash) {
            Some(slot) => Ok((slot, hash)),
            None => Err(ErrorKindView::BoundsError),
        }
    }
}

/// No key is in two slots
pub open spec fn unique_keys(entries: Seq<DictItem>) -> bool {
    forall|i: int, j: int|
        0 <= i < entries.len() && 0 <= j < entries.len() && i != j && !(#[trigger] entries[i].key is Nil) ==> entries[i].key
            != #[trigger] entries[j].key
}

/// Every entry in use is the one that a search for its key, from its hash,
/// finds
pub open spec fn keys_found(entries: Seq<DictItem>) -> bool {
    forall|i: int|
        0 <= i < entries.len() && !(#[trigger] entries[i].key is Nil) ==> find_slot(entries, entries[i].key, entries[i].hash)
            == Some(i as nat)
}

/// Every entry in use holds a symbol of the symbol table as its key, with
/// the hash of that symbol's name
pub open spec fn hashes_match(entries: Seq<DictItem>, syms: Seq<Seq<char>>) -> bool {
    forall|i: int|
        0 <= i < entries.len() && !(#[trigger] entries[i].key is Nil) ==> {
            &&& entries[i].key is Symbol
            &&& entries[i].key->Symbol_0 < syms.len()
            &&& entries[i].hash == spec_name_hash(syms[entries[i].key->Symbol_0 as int])
        }
}

/// A table of free slots keeps its keys in order
proof fn lemma_blank_keys(n: nat, syms: Seq<Seq<char>>)
    ensures
        unique_keys(Seq::new(n, |i: int| DictItem::blank_spec())),
        keys_found(Seq::new(n, |i: int| DictItem::blank_spec())),
        hashes_match(Seq::new(n, |i: int| DictItem::blank_spec()), syms),
{
}

/// Hashes that match a symbol table match every table that extends it
pub proof fn lemma_hashes_match_extends(entries: Seq<DictItem>, syms: Seq<Seq<char>>, more: Seq<Seq<char>>)
    requires
        hashes_match(entries, syms),
        syms.is_prefix_of(more),
    ensures
        hashes_match(entries, more),
{
    assert forall|i: int| 0 <= i < entries.len() && !(#[trigger] entries[i].key is Nil) implies {
        &&& entries[i].key is Symbol
        &&& entries[i].key->Symbol_0 < more.len()
        &&& entries[i].hash == spec_name_hash(more[entries[i].key->Symbol_0 as int])
    } by {
        assert(more[entries[i].key->Symbol_0 as int] == syms[entries[i].key->Symbol_0 as int]);
    }
}

/// Binding a key keeps keys unique, found from their hashes, and matching
/// their hashes
proof fn lemma_assoc_keeps_keys(syms: Seq<Seq<char>>, entries: Seq<DictItem>, key: TaggedPtr, value: TaggedPtr)
    requires
        unique_keys(entries),
        keys_found(entries),
        hashes_match(entries, syms),
        key is Symbol ==> key->Symbol_0 < syms.len(),
        spec_find_entry(syms, entries, key) is Ok,
    ensures
        ({
            let (slot, hash) = spec_find_entry(syms, entries, key)->Ok_0;
            let after = entries.update(slot as int, DictItem::bound(key, value, hash));
            &&& unique_keys(after)
            &&& keys_found(after)
            &&& hashes_match(after, syms)
        }),
{
    let (slot, hash) = spec_find_entry(syms, entries, key)->Ok_0;
    let item = DictItem::bound(key, value, hash);
    let after = entries.update(slot as int, item);
    let start = (hash as nat) % entries.len();
    lemma_probe_in_range(entries, key, start, 0);
    assert forall|j: int| 0 <= j < entries.len() && j != slot && !(entries[j].key is Nil) implies entries[j].key != key by {
        if entries[j].key == key {
            assert(entries[j].hash == hash);
            assert(find_slot(entries, entries[j].key, entries[j].hash) == Some(j as nat));
        }
    }
    assert forall|i: int, j: int|
        0 <= i < after.len() && 0 <= j < after.len() && i != j && !(#[trigger] after[i].key is Nil) implies after[i].key
            != #[trigger] after[j].key by {
        if i != slot && j != slot {
            assert(after[i] == entries[i] && after[j] == entries[j]);
        } else if i == slot {
            assert(after[j] == entries[j]);
        } else {
            assert(after[i] == entries[i]);
        }
    }
    assert forall|i: int| 0 <= i < after.len() && !(#[trigger] after[i].key is Nil) implies find_slot(
        after,
        after[i].key,
        after[i].hash,
    ) == Some(i as nat) by {
        if i == slot {
            lemma_probe_update(entries, key, start, 0, slot, item);
        } else {
            assert(after[i] == entries[i]);
            let k_i = entries[i].key;
            let h_i = entries[i].hash;
            assert(find_slot(entries, k_i, h_i) == Some(i as nat));
            lemma_probe_keeps(entries, k_i, (h_i as nat) % entries.len(), 0, i as nat, slot, item);
        }
    }
    assert forall|i: int| 0 <= i < after.len() && !(#[trigger] after[i].key is Nil) implies {
        &&& after[i].key is Symbol
        &&& after[i].key->Symbol_0 < syms.len()
        &&& after[i].hash == spec_name_hash(syms[after[i].key->Symbol_0 as int])
    } by {
        if i != slot {
            assert(after[i] == entries[i]);
        }
    }
}

/// Removing the entry in a used slot keeps keys unique, found from their
/// hashes, and matching their hashes
proof fn lemma_dissoc_keeps_keys(syms: Seq<Seq<char>>, entries: Seq<DictItem>, slot: nat)
    requires
        unique_keys(entries),
        keys_found(entries),
        slot < entries.len(),
        !(entries[slot as int].key is Nil),
    ensures
        ({
            let after = entries.update(slot as int, DictItem::removed_from(entries[slot as int]));
            &&& unique_keys(after)
            &&& keys_found(after)
            &&& hashes_match(entries, syms) ==> hashes_match(after, syms)
        }),
{
    let item = DictItem::removed_from(entries[slot as int]);
    let after = entries.update(slot as int, item);
    assert forall|i: int, j: int|
        0 <= i < after.len() && 0 <= j < after.len() && i != j && !(#[trigger] after[i].key is Nil) implies after[i].key
            != #[trigger] after[j].key by {
        assert(i != slot);
        assert(after[i] == entries[i]);
        if j != slot {
            assert(after[j] == entries[j]);
        }
    }
    assert forall|i: int| 0 <= i < after.len() && !(#[trigger] after[i].key is Nil) implies find_slot(
        after,
        after[i].key,
        after[i].hash,
    ) == Some(i as nat) by {
        assert(i != slot);
        assert(after[i] == entries[i]);
        let k_i = entries[i].key;
        let h_i = entries[i].hash;
        assert(find_slot(entries, k_i, h_i) == Some(i as nat));
        lemma_probe_keeps(entries, k_i, (h_i as nat) % entries.len(), 0, i as nat, slot, item);
    }
    if hashes_match(entries, syms) {
        assert forall|i: int| 0 <= i < after.len() && !(#[trigger] after[i].key is Nil) implies {
            &&& after[i].key is Symbol
            &&& after[i].key->Symbol_0 < syms.len()
            &&& after[i].hash == spec_name_hash(syms[after[i].key->Symbol_0 as int])
        } by {
            assert(after[i] == entries[i]);
        }
    }
}

/// A mutable Dict key/value associative data structure: an open-addressing
/// table with linear probing. There is no resizing, and removing an entry
/// leaves a marker in its slot, which is not used again until the dict is
/// cleared.
pub struct Dict {
    length: ArraySize,
    data: RawArray<DictItem>,
}

impl View for Dict {
    type V = Seq<DictItem>;

    /// The slots of the table
    closed spec fn view(&self) -> Seq<DictItem> {
        Seq::new(self.data.slots().len(), |i: int| self.data.slots()[i]->0)
    }
}

impl Dict {
    /// Well-formedness: every slot is written, the length counts the used
    /// slots, no key is in two slots, and every key is found from its hash
    pub closed spec fn wf(&self) -> bool {
        &&& self.data.wf()
        &&& forall|i: int| 0 <= i < self.data.slots().len() ==> (#[trigger] self.data.slots()[i]) is Some
        &&& self.length == used_count(self@)
        &&& unique_keys(self@)
        &&& keys_found(self@)
    }

    /// In a well-formed dict no key is in two slots, and every key is found
    /// from its hash
    pub proof fn lemma_keys(&self)
        requires
            self.wf(),
        ensures
            unique_keys(self@),
            keys_found(self@),
    {
    }

    /// The number of used entries
    pub closed spec fn spec_length(&self) -> nat {
        self.length as nat
    }

    proof fn lemma_view_len(&self)
        requires
            self.wf(),
        ensures
            self@.len() == self.data.spec_capacity(),
            self@.len() <= ArraySize::MAX,
            self.spec_length() == used_count(self@),
    {
        self.data.lemma_capacity_bound();
    }

    /// A dict with no storage
    pub fn new() -> (d: Dict)
        ensures
            d.wf(),
            d@ == Seq::<DictItem>::empty(),
            d.spec_length() == 0,
    {
        let d = Dict { length: 0, data: RawArray::new() };
        proof {
            d.data.lemma_capacity_bound();
        }
        assert(d@ =~= Seq::<DictItem>::empty());
        d
    }

    /// A dict with the given number of free slots
    pub fn with_capacity(capacity: ArraySize) -> (d: Dict)
        ensures
            d.wf(),
            d@ == Seq::new(capacity as nat, |i: int| DictItem::blank_spec()),
            d.spec_length() == 0,
    {
        let mut d = Dict { length: 0, data: RawArray::with_capacity(capacity) };
        d.fill_with_blank_entries();
        d
    }

    /// Reset all slots to a blank entry
    fn fill_with_blank_entries(&mut self)
        requires
            old(self).data.wf(),
        ensures
            final(self).wf(),
            final(self).data.spec_capacity() == old(self).data.spec_capacity(),
            final(self)@ == Seq::new(old(self).data.spec_capacity(), |i: int| DictItem::blank_spec()),
            final(self).spec_length() == 0,
    {
        let capacity = self.data.capacity();
        let blank_entry = DictItem::blank();
        let mut index: ArraySize = 0;
        proof {
            self.data.lemma_capacity_bound();
        }
        while index < capacity
            invariant
                self.data.wf(),
                capacity == self.data.spec_capacity(),
                capacity == old(self).data.spec_capacity(),
                index <= capacity,
                blank_entry == DictItem::blank_spec(),
                forall|j: int| 0 <= j < index ==> #[trigger] self.data.slots()[j] == Some(DictItem::blank_spec()),
            decreases capacity - index,
        {
            proof {
                self.data.lemma_capacity_bound();
            }
            self.data.write(index, blank_entry);
            proof {
                self.data.lemma_capacity_bound();
            }
            index = index + 1;
        }
        self.length = 0;
        proof {
            self.data.lemma_capacity_bound();
            let blanks = Seq::new(capacity as nat, |i: int| DictItem::blank_spec());
            assert(self@ =~= blanks);
            lemma_used_count_blank(capacity as nat);
        }
    }

    /// Reset to no entries, keeping the capacity
    pub fn clear(&mut self)
        requires
            old(self).wf(),
        ensures
            final(self).wf(),
            final(self)@ == Seq::new(old(self)@.len(), |i: int| DictItem::blank_spec()),
            final(self).spec_length() == 0,
    {
        proof {
            old(self).lemma_view_len();
        }
        self.fill_with_blank_entries();
    }

    /// The number of used entries
    pub fn length(&self) -> (n: ArraySize)
        requires
            self.wf(),
        ensures
            n == self.spec_length(),
            n == used_count(self@),
    {
        self.length
    }

    /// Given a key, generate the hash and search for the entry that holds
    /// the key or the next free entry. Return the slot found and the hash.
    fn find_entry(&self, mem: &Memory, key: TaggedPtr) -> (r: Result<(ArraySize, u64), RuntimeError>)
        requires
            self.wf(),
            mem.valid_ptr(key),
        ensures
            match spec_find_entry(mem.syms@, self@, key) {
                Ok((slot, hash)) => r matches Ok((s, h)) && s == slot && h == hash && slot < self@.len(),
                Err(kind) => r matches Err(e) && e@.kind == kind && e@.pos is None,
            },
    {
        let capacity = self.data.capacity();
        proof {
            self.lemma_view_len();
        }
        if capacity == 0 {
            return Err(RuntimeError::new(ErrorKind::BoundsError));
        }
        // hash the key
        let hash = match key {
            TaggedPtr::Symbol(_) => symbol_hash(mem, key),
            _ => return Err(RuntimeError::new(ErrorKind::UnhashableError)),
        };
        let ghost entries = self@;
        // find the next available entry slot
        let mut index: ArraySize = (hash % (capacity as u64)) as ArraySize;
        let mut n: ArraySize = 0;
        while n < capacity
            invariant
                entries == self@,
                self.wf(),
                capacity == entries.len(),
                capacity == self.data.spec_capacity(),
                capacity > 0,
                key is Symbol,
                hash == spec_name_hash(mem.syms@[key->Symbol_0 as int]),
                index < capacity,
                n <= capacity,
                find_slot(entries, key, hash) == probe(entries, key, index as nat, n as nat),
            decreases capacity - n,
        {
            proof {
            self.lemma_view_len();
        }
        let entry = self.data.read(index).unwrap();
            assert(entry == entries[index as int]);
            if entry.key == key || (entry.key.is_nil() && !entry.removed) {
                assert(probe(entries, key, index as nat, n as nat) == Some(index as nat));
                return Ok((index, hash));
            }
            let next: ArraySize = if index + 1 == capacity {
                0
            } else {
                index + 1
            };
            assert(next as nat == (index as nat + 1) % (capacity as nat)) by {
                if index + 1 == capacity {
                    vstd::arithmetic::div_mod::lemma_mod_self_0(capacity as int);
                } else {
                    vstd::arithmetic::div_mod::lemma_small_mod((index + 1) as nat, capacity as nat);
                }
            }
            index = next;
            n = n + 1;
        }
        Err(RuntimeError::new(ErrorKind::BoundsError))
    }

    /// Return the value bound to the key, or `KeyError` where there is none
    pub fn lookup(&self, mem: &Memory, key: TaggedPtr) -> (r: Result<TaggedPtr, RuntimeError>)
        requires
            self.wf(),
            mem.valid_ptr(key),
        ensures
            match spec_find_entry(mem.syms@, self@, key) {
                Ok((slot, _)) => if self@[slot as int].key is Nil {
                    r matches Err(e) && e@.kind == ErrorKindView::KeyError && e@.pos is None
                } else {
                    r == Ok::<TaggedPtr, RuntimeError>(self@[slot as int].value)
                },
                Err(kind) => r matches Err(e) && e@.kind == kind && e@.pos is None,
            },
    {
        let (index, _) = match self.find_entry(mem, key) {
            Ok(found) => found,
            Err(e) => return Err(e),
        };
        proof {
            self.lemma_view_len();
        }
        let entry = self.data.read(index).unwrap();
        if !entry.key.is_nil() {
            Ok(entry.value)
        } else {
            Err(RuntimeError::new(ErrorKind::KeyError))
        }
    }

    /// Bind the value to the key, adding an entry or replacing the value of
    /// the entry the key finds.
    pub fn assoc(&mut self, mem: &Memory, key: TaggedPtr, value: TaggedPtr) -> (r: Result<(), RuntimeError>)
        requires
            old(self).wf(),
            hashes_match(old(self)@, mem.syms@),
            mem.valid_ptr(key),
        ensures
            final(self).wf(),
            hashes_match(final(self)@, mem.syms@),
            match spec_find_entry(mem.syms@, old(self)@, key) {
                Ok((slot, hash)) => r is Ok && final(self)@ == old(self)@.update(slot as int, DictItem::bound(key, value, hash)),
                Err(kind) => r matches Err(e) && e@.kind == kind && e@.pos is None && final(self)@
                    == old(self)@,
            },
    {
        let (index, hash) = match self.find_entry(mem, key) {
            Ok(found) => found,
            Err(e) => return Err(e),
        };
        proof {
            self.lemma_view_len();
        }
        let entry = self.data.read(index).unwrap();
        let ghost old_entries = self@;
        let item = DictItem { key, value, hash, removed: false };
        proof {
            lemma_assoc_keeps_keys(mem.syms@, old_entries, key, value);
            self.lemma_view_len();
            lemma_used_count_update(old_entries, index as int, item);
            lemma_used_count_bound(old_entries.update(index as int, item));
        }
        if entry.key.is_nil() {
            self.length = self.length + 1;
        }
        self.data.write(index, item);
        assert(self@ =~= old_entries.update(index as int, item));
        Ok(())
    }

    /// Remove the binding of the key, returning its value, or `KeyError`
    /// where there is none. The slot is marked removed; its hash and value stay.
    pub fn dissoc(&mut self, mem: &Memory, key: TaggedPtr) -> (r: Result<TaggedPtr, RuntimeError>)
        requires
            old(self).wf(),
            mem.valid_ptr(key),
        ensures
            final(self).wf(),
            hashes_match(old(self)@, mem.syms@) ==> hashes_match(final(self)@, mem.syms@),
            match spec_find_entry(mem.syms@, old(self)@, key) {
                Ok((slot, _)) => if old(self)@[slot as int].key is Nil {
                    r matches Err(e) && e@.kind == ErrorKindView::KeyError && e@.pos is None && final(self)@
                        == old(self)@
                } else {
                    r == Ok::<TaggedPtr, RuntimeError>(old(self)@[slot as int].value) && final(self)@
                        == old(self)@.update(slot as int, DictItem::removed_from(old(self)@[slot as int]))
                },
                Err(kind) => r matches Err(e) && e@.kind == kind && e@.pos is None && final(self)@
                    == old(self)@,
            },
    {
        let (index, _) = match self.find_entry(mem, key) {
            Ok(found) => found,
            Err(e) => return Err(e),
        };
        proof {
            self.lemma_view_len();
        }
        let entry = self.data.read(index).unwrap();
        if entry.key.is_nil() {
            return Err(RuntimeError::new(ErrorKind::KeyError));
        }
        let ghost old_entries = self@;
        let item = DictItem { key: TaggedPtr::Nil, removed: true, ..entry };
        proof {
            lemma_dissoc_keeps_keys(mem.syms@, old_entries, index as nat);
            self.lemma_view_len();
            lemma_used_count_update(old_entries, index as int, item);
        }
        self.length = self.length - 1;
        self.data.write(index, item);
        assert(self@ =~= old_entries.update(index as int, item));
        Ok(entry.value)
    }

    /// Whether the key is bound to a value
    pub fn key_exists(&self, mem: &Memory, key: TaggedPtr) -> (r: Result<bool, RuntimeError>)
        requires
            self.wf(),
            mem.valid_ptr(key),
        ensures
            match spec_find_entry(mem.syms@, self@, key) {
                Ok((slot, _)) => r == Ok::<bool, RuntimeError>(!(self@[slot as int].key is Nil)),
                Err(kind) => r matches Err(e) && e@.kind == kind && e@.pos is None,
            },
    {
        let (index, _) = match self.find_entry(mem, key) {
            Ok(found) => found,
            Err(e) => return Err(e),
        };
        proof {
            self.lemma_view_len();
        }
        let entry = self.data.read(index).unwrap();
        Ok(!entry.key.is_nil())
    }
}

/// A table of free slots counts no entries
proof fn lemma_used_count_blank(n: nat)
    ensures
        used_count(Seq::new(n, |i: int| DictItem::blank_spec())) == 0,
    decreases n,
{
    if n > 0 {
        assert(Seq::new(n, |i: int| DictItem::blank_spec()).drop_last() =~= Seq::new(
            (n - 1) as nat,
            |i: int| DictItem::blank_spec(),
        ));
        lemma_used_count_blank((n - 1) as nat);
    }
}

/// The slot found for a key is one of the table's slots
pub proof fn lemma_find_entry_in_range(syms: Seq<Seq<char>>, entries: Seq<DictItem>, key: TaggedPtr)
    ensures
        spec_find_entry(syms, entries, key) matches Ok((slot, _)) ==> slot < entries.len(),
{
    if entries.len() > 0 && key is Symbol {
        let hash = spec_name_hash(syms[key->Symbol_0 as int]);
        lemma_probe_in_range(entries, key, (hash as nat) % entries.len(), 0);
    }
}

/// After binding a value to a key, looking that key up gives the value.
pub proof fn law_lookup_after_assoc(syms: Seq<Seq<char>>, entries: Seq<DictItem>, key: TaggedPtr, value: TaggedPtr)
    requires
        spec_find_entry(syms, entries, key) is Ok,
    ensures
        ({
            let (slot, hash) = spec_find_entry(syms, entries, key)->Ok_0;
            let after = entries.update(slot as int, DictItem::bound(key, value, hash));
            &&& spec_find_entry(syms, after, key) == Ok::<(nat, u64), ErrorKindView>((slot, hash))
            &&& !(after[slot as int].key is Nil)
            &&& after[slot as int].value == value
        }),
{
    let (slot, hash) = spec_find_entry(syms, entries, key)->Ok_0;
    let item = DictItem::bound(key, value, hash);
    lemma_probe_in_range(entries, key, (hash as nat) % entries.len(), 0);
    lemma_probe_update(entries, key, (hash as nat) % entries.len(), 0, slot, item);
}

/// Binding a key leaves the binding of every other key as it was: looking
/// that key up finds the same slot, holding the same entry.
pub proof fn law_assoc_keeps_others(
    syms: Seq<Seq<char>>,
    entries: Seq<DictItem>,
    key: TaggedPtr,
    value: TaggedPtr,
    other: TaggedPtr,
)
    requires
        spec_find_entry(syms, entries, key) is Ok,
        other != key,
        spec_find_entry(syms, entries, other) matches Ok((t, _)) && !(entries[t as int].key is Nil),
    ensures
        ({
            let (slot, hash) = spec_find_entry(syms, entries, key)->Ok_0;
            let after = entries.update(slot as int, DictItem::bound(key, value, hash));
            let (t, _) = spec_find_entry(syms, entries, other)->Ok_0;
            &&& spec_find_entry(syms, after, other) == spec_find_entry(syms, entries, other)
            &&& after[t as int] == entries[t as int]
        }),
{
    let (slot, hash) = spec_find_entry(syms, entries, key)->Ok_0;
    let (t, h) = spec_find_entry(syms, entries, other)->Ok_0;
    let item = DictItem::bound(key, value, hash);
    lemma_probe_in_range(entries, key, (hash as nat) % entries.len(), 0);
    lemma_probe_in_range(entries, other, (h as nat) % entries.len(), 0);
    assert(slot != t);
    lemma_probe_keeps(entries, other, (h as nat) % entries.len(), 0, t, slot, item);
}

/// After removing a key's binding, looking that key up finds no binding: the
/// search goes past the removed entry and stops at a free slot or at none. No
/// key is in two slots of a dict (`Dict::lemma_keys`).
pub proof fn law_lookup_after_dissoc(syms: Seq<Seq<char>>, entries: Seq<DictItem>, key: TaggedPtr)
    requires
        unique_keys(entries),
        spec_find_entry(syms, entries, key) matches Ok((slot, _)) && !(entries[slot as int].key is Nil),
    ensures
        ({
            let (slot, hash) = spec_find_entry(syms, entries, key)->Ok_0;
            let after = entries.update(slot as int, DictItem::removed_from(entries[slot as int]));
            spec_find_entry(syms, after, key) matches Ok((s2, _)) ==> after[s2 as int].key is Nil
        }),
{
    let (slot, hash) = spec_find_entry(syms, entries, key)->Ok_0;
    lemma_probe_in_range(entries, key, (hash as nat) % entries.len(), 0);
    let after = entries.update(slot as int, DictItem::removed_from(entries[slot as int]));
    lemma_probe_in_range(after, key, (hash as nat) % after.len(), 0);
    if let Some(s2) = find_slot(after, key, hash) {
        assert(key is Symbol);
        assert(entries[slot as int].key == key);
        if s2 == slot {
            assert(after[s2 as int].key is Nil);
        } else {
            assert(after[s2 as int] == entries[s2 as int]);
            assert(entries[s2 as int].key != key);
        }
    }
}

/// Removing a key's binding leaves the binding of every other key as it was:
/// looking that key up finds the same slot, holding the same entry.
pub proof fn law_dissoc_keeps_others(syms: Seq<Seq<char>>, entries: Seq<DictItem>, key: TaggedPtr, other: TaggedPtr)
    requires
        spec_find_entry(syms, entries, key) matches Ok((slot, _)) && !(entries[slot as int].key is Nil),
        other != key,
        spec_find_entry(syms, entries, other) matches Ok((t, _)) && !(entries[t as int].key is Nil),
    ensures
        ({
            let (slot, _) = spec_find_entry(syms, entries, key)->Ok_0;
            let after = entries.update(slot as int, DictItem::removed_from(entries[slot as int]));
            let (t, _) = spec_find_entry(syms, entries, other)->Ok_0;
            &&& spec_find_entry(syms, after, other) == spec_find_entry(syms, entries, other)
            &&& after[t as int] == entries[t as int]
        }),
{
    let (slot, hash) = spec_find_entry(syms, entries, key)->Ok_0;
    let (t, h) = spec_find_entry(syms, entries, other)->Ok_0;
    let item = DictItem::removed_from(entries[slot as int]);
    lemma_probe_in_range(entries, key, (hash as nat) % entries.len(), 0);
    lemma_probe_in_range(entries, other, (h as nat) % entries.len(), 0);
    assert(slot != t);
    assert(other is Symbol);
    lemma_probe_keeps(entries, other, (h as nat) % entries.len(), 0, t, slot, item);
}

/// Is the key bound: a search for it finds a slot in use
pub open spec fn is_bound(syms: Seq<Seq<char>>, entries: Seq<DictItem>, key: TaggedPtr) -> bool {
    spec_find_entry(syms, entries, key) matches Ok((t, _)) && !(entries[t as int].key is Nil)
}

/// Removing a key from a dict: looking the key up afterwards finds no
/// binding, and every other key bound before keeps its binding, found in the
/// same slot.
pub proof fn law_dissoc(d: &Dict, syms: Seq<Seq<char>>, key: TaggedPtr, other: TaggedPtr)
    requires
        d.wf(),
        is_bound(syms, d@, key),
    ensures
        ({
            let (slot, _) = spec_find_entry(syms, d@, key)->Ok_0;
            let after = d@.update(slot as int, DictItem::removed_from(d@[slot as int]));
            &&& !is_bound(syms, after, key)
            &&& other != key && is_bound(syms, d@, other) ==> {
                &&& spec_find_entry(syms, after, other) == spec_find_entry(syms, d@, other)
                &&& after[spec_find_entry(syms, d@, other)->Ok_0.0 as int] == d@[spec_find_entry(syms, d@, other)->Ok_0.0 as int]
            }
        }),
{
    d.lemma_keys();
    law_lookup_after_dissoc(syms, d@, key);
    if other != key && is_bound(syms, d@, other) {
        law_dissoc_keeps_others(syms, d@, key, other);
    }
}

} // verus!
