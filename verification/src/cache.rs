//! Direct-mapped caches of what was found out about classes and names.

use vstd::prelude::*;

verus! {

/// The number of slots of a cache, a power of two.
pub const CACHE_SLOTS: usize = 0x800;

/// Selects a slot from a key.
pub const CACHE_MASK: usize = 0x7FF;

/// The largest tag that a slot can hold.
pub const MAX_TAG: u32 = 3;

/// The filled slots of the cache of classes: the key of the class and its tag.
pub type ClassSlots = Map<int, (u64, u32)>;

/// The filled slots of the cache of names: the id of the name and its tag.
pub type NameSlots = Map<int, (u32, u32)>;

/// The slot for a key.
pub fn cache_idx(key: usize) -> (r: usize)
    ensures
        r == key % CACHE_SLOTS,
{
    assert(key & 0x7FF == key % 0x800) by (bit_vector);
    key & CACHE_MASK
}

/// The slot for a class: the low bits of its address say little.
pub open spec fn class_slot(class: usize) -> int {
    ((class / 8) % CACHE_SLOTS) as int
}

/// The key for a class: its address with the lowest bit set, so that no key is zero.
pub open spec fn class_key(class: usize) -> u64 {
    class as u64 | 1
}

/// The tag that the cache holds for a class.
pub open spec fn class_lookup(slots: ClassSlots, class: usize) -> Option<u32> {
    if slots.dom().contains(class_slot(class)) && slots[class_slot(class)].0 == class_key(class) {
        Some(slots[class_slot(class)].1)
    } else {
        None
    }
}

/// The cache with a tag stored for a class.
pub open spec fn class_store(slots: ClassSlots, class: usize, tag: u32) -> ClassSlots {
    slots.insert(class_slot(class), (class_key(class), tag))
}

/// The slot for a name.
pub open spec fn name_slot(id: u32) -> int {
    (id as usize % CACHE_SLOTS) as int
}

/// The tag that the cache holds for a name.
pub open spec fn name_lookup(slots: NameSlots, id: u32) -> Option<u32> {
    if slots.dom().contains(name_slot(id)) && slots[name_slot(id)].0 == id {
        Some(slots[name_slot(id)].1)
    } else {
        None
    }
}

/// The cache with a tag stored for a name.
pub open spec fn name_store(slots: NameSlots, id: u32, tag: u32) -> NameSlots {
    slots.insert(name_slot(id), (id, tag))
}

/// The tags of classes. A slot is empty while its key is zero.
#[derive(Debug)]
pub struct ClassCache {
    keys: Vec<u64>,
    tags: Vec<u64>,
}

impl View for ClassCache {
    type V = ClassSlots;

    closed spec fn view(&self) -> ClassSlots {
        Map::new(
            |i: int| 0 <= i < CACHE_SLOTS && self.keys@[i] != 0,
            |i: int| (self.keys@[i], self.tags@[i] as u32),
        )
    }
}

impl ClassCache {
    /// The cache has all its slots, and every tag fits its slot.
    pub closed spec fn wf(&self) -> bool {
        &&& self.keys@.len() == CACHE_SLOTS
        &&& self.tags@.len() == CACHE_SLOTS
        &&& forall|i: int| 0 <= i < CACHE_SLOTS ==> #[trigger] self.tags@[i] <= MAX_TAG
    }

    /// An empty cache.
    pub fn new() -> (c: ClassCache)
        ensures
            c.wf(),
            c@ == Map::<int, (u64, u32)>::empty(),
    {
        let c = ClassCache { keys: vec![0u64; CACHE_SLOTS], tags: vec![0u64; CACHE_SLOTS] };
        assert(c@ =~= Map::<int, (u64, u32)>::empty());
        c
    }

    /// The tag held for a class.
    pub fn get(&self, class: usize) -> (r: Option<u32>)
        requires
            self.wf(),
        ensures
            r == class_lookup(self@, class),
            r is Some ==> r->0 <= MAX_TAG,
    {
        assert(class >> 3 == class / 8) by (bit_vector);
        let idx: usize = cache_idx(class >> 3);
        let key: u64 = class as u64 | 1;
        let low: u64 = class as u64;
        assert(low | 1 != 0) by (bit_vector);
        if self.keys[idx] == key {
            let tag: u64 = self.tags[idx];
            assert(tag <= 3 ==> tag & 0x3 == tag) by (bit_vector);
            Some((tag & 0x3) as u32)
        } else {
            None
        }
    }

    /// Stores a tag for a class.
    pub fn put(&mut self, class: usize, tag: u32)
        requires
            old(self).wf(),
            tag <= MAX_TAG,
        ensures
            final(self).wf(),
            final(self)@ == class_store(old(self)@, class, tag),
    {
        assert(class >> 3 == class / 8) by (bit_vector);
        let idx: usize = cache_idx(class >> 3);
        let key: u64 = class as u64 | 1;
        let low: u64 = class as u64;
        assert(low | 1 != 0) by (bit_vector);
        self.keys.set(idx, key);
        self.tags.set(idx, tag as u64);
        assert(self@ =~= class_store(old(self)@, class, tag));
    }
}

/// One slot of the cache of names: a lowest bit that says that it is filled, the
/// tag above it, and the id in the upper half.
pub open spec fn packed(id: u32, tag: u32) -> u64 {
    1 | ((tag as u64) << 1) | ((id as u64) << 32)
}

proof fn lemma_packed(id: u32, tag: u32)
    requires
        tag <= 3,
    ensures
        packed(id, tag) & 1 == 1,
        (packed(id, tag) >> 32) as u32 == id,
        ((packed(id, tag) >> 1) & 0x3) as u32 == tag,
{
    let word = packed(id, tag);
    assert(word & 1 == 1 && (word >> 32) as u32 == id && ((word >> 1) & 0x3) as u32 == tag)
        by (bit_vector)
        requires
            tag <= 3,
            word == 1 | ((tag as u64) << 1) | ((id as u64) << 32),
    ;
}

/// The tags of names.
#[derive(Debug)]
pub struct NameCache {
    words: Vec<u64>,
}

impl View for NameCache {
    type V = NameSlots;

    closed spec fn view(&self) -> NameSlots {
        Map::new(
            |i: int| 0 <= i < CACHE_SLOTS && self.words@[i] & 1 != 0,
            |i: int| ((self.words@[i] >> 32) as u32, ((self.words@[i] >> 1) & 0x3) as u32),
        )
    }
}

impl NameCache {
    /// The cache has all its slots.
    pub closed spec fn wf(&self) -> bool {
        self.words@.len() == CACHE_SLOTS
    }

    /// An empty cache.
    pub fn new() -> (c: NameCache)
        ensures
            c.wf(),
            c@ == Map::<int, (u32, u32)>::empty(),
    {
        let c = NameCache { words: vec![0u64; CACHE_SLOTS] };
        assert(0u64 & 1 == 0) by (bit_vector);
        assert(c@ =~= Map::<int, (u32, u32)>::empty());
        c
    }

    /// The tag held for a name.
    pub fn get(&self, id: u32) -> (r: Option<u32>)
        requires
            self.wf(),
        ensures
            r == name_lookup(self@, id),
            r is Some ==> r->0 <= MAX_TAG,
    {
        let idx: usize = cache_idx(id as usize);
        let word: u64 = self.words[idx];
        assert((word >> 1) & 0x3 <= 3) by (bit_vector);
        if word & 1 != 0 && (word >> 32) as u32 == id {
            Some(((word >> 1) & 0x3) as u32)
        } else {
            None
        }
    }

    /// Stores a tag for a name.
    pub fn put(&mut self, id: u32, tag: u32)
        requires
            old(self).wf(),
            tag <= MAX_TAG,
        ensures
            final(self).wf(),
            final(self)@ == name_store(old(self)@, id, tag),
    {
        let idx: usize = cache_idx(id as usize);
        let word: u64 = 1 | ((tag as u64) << 1) | ((id as u64) << 32);
        proof {
            lemma_packed(id, tag);
        }
        self.words.set(idx, word);
        assert(self@ =~= name_store(old(self)@, id, tag));
    }
}

} // verus!
