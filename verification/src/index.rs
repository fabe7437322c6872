//! Lookup tables keyed by byte strings of the source.
//!
//! A key is stored as the span of one of its occurrences in the source, never
//! as a copy, and is compared by the bytes that the span covers.

use std::collections::HashMap;
use vstd::prelude::*;
use crate::bytes::Span;
use crate::node::NodeHandle;
use crate::util::bytes_eq;

verus! {

/// The first entry of `entries` at or after `from` whose key is `key`, or
/// `entries.len()` if there is none.
pub open spec fn position<V>(src: Seq<u8>, entries: Seq<(Span, V)>, key: Seq<u8>, from: int) -> int
    decreases entries.len() - from,
{
    if from < 0 || from >= entries.len() {
        entries.len() as int
    } else if entries[from].0.of(src) == key {
        from
    } else {
        position(src, entries, key, from + 1)
    }
}

/// Every key lies inside a buffer of `len` bytes.
pub open spec fn keys_within<V>(entries: Seq<(Span, V)>, len: nat) -> bool {
    forall|i: int| 0 <= i < entries.len() ==> (#[trigger] entries[i]).0.within(len)
}

/// No key occurs twice.
pub open spec fn keys_unique<V>(src: Seq<u8>, entries: Seq<(Span, V)>) -> bool {
    forall|i: int, j: int|
        0 <= i < j < entries.len() ==> (#[trigger] entries[i]).0.of(src) != (
        #[trigger] entries[j]).0.of(src)
}

/// `position` finds the first match: an index inside `entries` whose key is
/// `key`, with no such key between `from` and it; or `entries.len()`, with no
/// such key from `from` on.
pub proof fn lemma_position<V>(src: Seq<u8>, entries: Seq<(Span, V)>, key: Seq<u8>, from: int)
    requires
        0 <= from <= entries.len(),
    ensures
        from <= position(src, entries, key, from) <= entries.len(),
        position(src, entries, key, from) < entries.len() ==> entries[position(
            src,
            entries,
            key,
            from,
        )].0.of(src) == key,
        forall|i: int|
            from <= i < position(src, entries, key, from) ==> (#[trigger] entries[i]).0.of(src)
                != key,
    decreases entries.len() - from,
{
    if from < entries.len() && entries[from].0.of(src) != key {
        lemma_position(src, entries, key, from + 1);
    }
}

/// A new value under a stored key leaves every key where it is.
pub proof fn lemma_position_update<V>(
    src: Seq<u8>,
    entries: Seq<(Span, V)>,
    at: int,
    value: V,
    key: Seq<u8>,
    from: int,
)
    requires
        0 <= at < entries.len(),
        0 <= from <= entries.len(),
    ensures
        position(src, entries.update(at, (entries[at].0, value)), key, from) == position(
            src,
            entries,
            key,
            from,
        ),
    decreases entries.len() - from,
{
    if from < entries.len() && entries[from].0.of(src) != key {
        lemma_position_update(src, entries, at, value, key, from + 1);
    }
}

/// An entry added at the end is found under its own key if that key was not
/// there before, and changes nothing for any other key.
pub proof fn lemma_position_push<V>(
    src: Seq<u8>,
    entries: Seq<(Span, V)>,
    entry: (Span, V),
    key: Seq<u8>,
    from: int,
)
    requires
        0 <= from <= entries.len(),
    ensures
        position(src, entries.push(entry), key, from) == if position(src, entries, key, from)
            < entries.len() {
            position(src, entries, key, from)
        } else if entry.0.of(src) == key {
            entries.len() as int
        } else {
            (entries.len() + 1) as int
        },
    decreases entries.len() - from,
{
    if from < entries.len() {
        if entries[from].0.of(src) != key {
            lemma_position_push(src, entries, entry, key, from + 1);
        }
    } else {
        assert(position(src, entries.push(entry), key, from + 1) == entries.len() + 1);
    }
}

/// Searches `entries` for `key`, front to back.
pub fn find<V>(src: &[u8], entries: &Vec<(Span, V)>, key: &[u8]) -> (r: Option<usize>)
    requires
        keys_within(entries@, src@.len()),
    ensures
        r is Some <==> position(src@, entries@, key@, 0) < entries@.len(),
        r matches Some(i) ==> i == position(src@, entries@, key@, 0),
{
    let mut i: usize = 0;
    while i < entries.len()
        invariant
            i <= entries.len(),
            keys_within(entries@, src@.len()),
            position(src@, entries@, key@, 0) == position(src@, entries@, key@, i as int),
        decreases entries.len() - i,
    {
        let stored = entries[i].0;
        if bytes_eq(stored.slice(src), key) {
            return Some(i);
        }
        i += 1;
    }
    None
}

/// The entries after `value` was stored under `key`: in place of the value
/// of the first entry with the same key bytes, or else as a new last entry.
pub open spec fn stored<V>(src: Seq<u8>, entries: Seq<(Span, V)>, key: Span, value: V) -> Seq<
    (Span, V),
> {
    let at = position(src, entries, key.of(src), 0);
    if at < entries.len() {
        entries.update(at, (entries[at].0, value))
    } else {
        entries.push((key, value))
    }
}

/// After `value` was stored under `key`, that key is found with that value,
/// and every other key is found as before.
pub proof fn lemma_stored<V>(
    src: Seq<u8>,
    entries: Seq<(Span, V)>,
    key: Span,
    value: V,
    other: Seq<u8>,
)
    ensures
        ({
            let after = stored(src, entries, key, value);
            let found = position(src, after, other, 0);
            let before = position(src, entries, other, 0);
            &&& found < after.len() <==> other == key.of(src) || before < entries.len()
            &&& found < after.len() ==> after[found].1 == if other == key.of(src) {
                value
            } else {
                entries[before].1
            }
        }),
{
    let at = position(src, entries, key.of(src), 0);
    lemma_position(src, entries, key.of(src), 0);
    lemma_position(src, entries, other, 0);
    if at < entries.len() {
        lemma_position_update(src, entries, at, value, other, 0);
    } else {
        lemma_position_push(src, entries, (key, value), other, 0);
    }
}

/// Stores `value` under `key`; see [`stored`].
pub fn store<V>(src: &[u8], entries: &mut Vec<(Span, V)>, key: Span, value: V)
    requires
        keys_within(old(entries)@, src@.len()),
        key.within(src@.len()),
    ensures
        final(entries)@ == stored(src@, old(entries)@, key, value),
        keys_within(final(entries)@, src@.len()),
        keys_unique(src@, old(entries)@) ==> keys_unique(src@, final(entries)@),
{
    proof {
        lemma_position(src@, entries@, key.of(src@), 0);
    }
    match find(src, entries, key.slice(src)) {
        Some(i) => {
            let kept = entries[i].0;
            entries[i] = (kept, value);
        },
        None => {
            entries.push((key, value));
        },
    }
}

pub const FNV_OFFSET_BASIS: u64 = 0xcbf29ce484222325;

pub const FNV_PRIME: u64 = 0x100000001b3;

/// The 64-bit FNV-1a hash of a byte string.
pub open spec fn spec_hash(bytes: Seq<u8>) -> u64
    decreases bytes.len(),
{
    if bytes.len() == 0 {
        FNV_OFFSET_BASIS
    } else {
        (spec_hash(bytes.drop_last()) ^ (bytes.last() as u64)).wrapping_mul(FNV_PRIME)
    }
}

pub fn hash(bytes: &[u8]) -> (h: u64)
    ensures
        h == spec_hash(bytes@),
{
    let mut h: u64 = FNV_OFFSET_BASIS;
    let mut i: usize = 0;
    while i < bytes.len()
        invariant
            i <= bytes.len(),
            h == spec_hash(bytes@.take(i as int)),
        decreases bytes.len() - i,
    {
        assert(bytes@.take(i + 1).drop_last() =~= bytes@.take(i as int));
        h = (h ^ (bytes[i] as u64)).wrapping_mul(FNV_PRIME);
        i += 1;
    }
    assert(bytes@.take(bytes.len() as int) =~= bytes@);
    h
}

/// A hash table from byte strings of the source to values.
///
/// Entries are filed by the hash of their key; entries whose keys share a
/// hash stand in one short list, which is searched by comparing bytes.
pub struct SpanMap<V> {
    buckets: HashMap<u64, Vec<(Span, V)>>,
}

impl<V: Copy> SpanMap<V> {
    /// The entries filed under the hash of `key`.
    pub closed spec fn bucket(&self, key: Seq<u8>) -> Seq<(Span, V)> {
        if self.buckets@.contains_key(spec_hash(key)) {
            self.buckets@[spec_hash(key)]@
        } else {
            Seq::empty()
        }
    }

    /// Every stored key lies inside `src`.
    pub closed spec fn wf(&self, src: Seq<u8>) -> bool {
        forall|h: u64| #[trigger]
            self.buckets@.contains_key(h) ==> keys_within(self.buckets@[h]@, src.len())
    }

    /// The table as a map from key bytes to values.
    pub closed spec fn view(&self, src: Seq<u8>) -> Map<Seq<u8>, V> {
        Map::new(
            |key: Seq<u8>| position(src, self.bucket(key), key, 0) < self.bucket(key).len(),
            |key: Seq<u8>| self.bucket(key)[position(src, self.bucket(key), key, 0)].1,
        )
    }

    pub fn new() -> (m: Self)
        ensures
            forall|src: Seq<u8>| #[trigger] m.wf(src),
            forall|src: Seq<u8>| #[trigger] m.view(src) == Map::<Seq<u8>, V>::empty(),
    {
        let m = SpanMap { buckets: HashMap::new() };
        m
    }

    /// The value stored under `key`.
    pub fn get(&self, src: &[u8], key: &[u8]) -> (r: Option<V>)
        requires
            self.wf(src@),
        ensures
            r == if self.view(src@).contains_key(key@) {
                Some(self.view(src@)[key@])
            } else {
                None
            },
    {
        let h = hash(key);
        match self.buckets.get(&h) {
            Some(bucket) => {
                match find(src, bucket, key) {
                    Some(i) => Some(bucket[i].1),
                    None => None,
                }
            },
            None => None,
        }
    }

    /// Stores `value` under the bytes that `key` covers, in place of any
    /// value stored under these bytes before.
    pub fn insert(&mut self, src: &[u8], key: Span, value: V)
        requires
            old(self).wf(src@),
            key.within(src@.len()),
        ensures
            final(self).wf(src@),
            final(self).view(src@) == old(self).view(src@).insert(key.of(src@), value),
    {
        let ghost before = *self;
        let h = hash(key.slice(src));
        let mut bucket = match self.buckets.remove(&h) {
            Some(bucket) => bucket,
            None => Vec::new(),
        };
        let ghost entries = bucket@;
        store(src, &mut bucket, key, value);
        self.buckets.insert(h, bucket);
        proof {
            assert forall|k: Seq<u8>|
                (#[trigger] self.view(src@).contains_key(k)) == before.view(src@).insert(
                    key.of(src@),
                    value,
                ).contains_key(k) by {
                lemma_stored(src@, entries, key, value, k);
            }
            assert forall|k: Seq<u8>| #[trigger]
                self.view(src@).contains_key(k) implies self.view(src@)[k] == before.view(
                src@,
            ).insert(key.of(src@), value)[k] by {
                lemma_stored(src@, entries, key, value, k);
            }
        }
    }
}

/// The class lists after `handle` was appended to the list of `key`; a key
/// without a list gets one.
pub open spec fn with_class(
    index: Map<Seq<u8>, Seq<NodeHandle>>,
    key: Seq<u8>,
    handle: NodeHandle,
) -> Map<Seq<u8>, Seq<NodeHandle>> {
    index.insert(
        key,
        if index.contains_key(key) {
            index[key].push(handle)
        } else {
            seq![handle]
        },
    )
}

/// For each class name the handles of the elements that carry it, in the
/// order in which they were added.
pub struct ClassIndex {
    slots: SpanMap<usize>,
    lists: Vec<Vec<NodeHandle>>,
}

impl ClassIndex {
    /// Every stored key lies inside `src`, and every key has a list of its own.
    pub closed spec fn wf(&self, src: Seq<u8>) -> bool {
        &&& self.slots.wf(src)
        &&& forall|k: Seq<u8>| #[trigger]
            self.slots.view(src).contains_key(k) ==> self.slots.view(src)[k] < self.lists.len()
        &&& forall|j: Seq<u8>, k: Seq<u8>|
            #![trigger self.slots.view(src)[j], self.slots.view(src)[k]]
            self.slots.view(src).contains_key(j) && self.slots.view(src).contains_key(k) && j
                != k ==> self.slots.view(src)[j] != self.slots.view(src)[k]
    }

    /// The index as a map from class names to lists of handles.
    pub closed spec fn view(&self, src: Seq<u8>) -> Map<Seq<u8>, Seq<NodeHandle>> {
        Map::new(
            |k: Seq<u8>| self.slots.view(src).contains_key(k),
            |k: Seq<u8>| self.lists[self.slots.view(src)[k] as int]@,
        )
    }

    pub fn new() -> (m: Self)
        ensures
            forall|src: Seq<u8>| #[trigger] m.wf(src),
            forall|src: Seq<u8>| #[trigger] m.view(src) == Map::<Seq<u8>, Seq<NodeHandle>>::empty(),
    {
        let m = ClassIndex { slots: SpanMap::new(), lists: Vec::new() };
        m
    }

    /// The list stored under `key`.
    pub fn get(&self, src: &[u8], key: &[u8]) -> (r: Option<&Vec<NodeHandle>>)
        requires
            self.wf(src@),
        ensures
            r is Some <==> self.view(src@).contains_key(key@),
            r matches Some(list) ==> list@ == self.view(src@)[key@],
    {
        match self.slots.get(src, key) {
            Some(slot) => Some(&self.lists[slot]),
            None => None,
        }
    }

    /// Appends `handle` to the list of the bytes that `key` covers.
    pub fn push(&mut self, src: &[u8], key: Span, handle: NodeHandle)
        requires
            old(self).wf(src@),
            key.within(src@.len()),
        ensures
            final(self).wf(src@),
            final(self).view(src@) == with_class(old(self).view(src@), key.of(src@), handle),
    {
        let ghost before = *self;
        match self.slots.get(src, key.slice(src)) {
            Some(slot) => {
                self.lists[slot].push(handle);
            },
            None => {
                let slot = self.lists.len();
                self.slots.insert(src, key, slot);
                let mut list = Vec::new();
                list.push(handle);
                self.lists.push(list);
            },
        }
    }
}

} // verus!
