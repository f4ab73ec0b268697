//! A small cache of the symbols looked up last.
use crate::record;
use crate::slices;
use crate::symbol::Symbol;
use vstd::prelude::*;
use vstd::utf8::*;

verus! {

/// How many entries a cache has: a power of two.
pub const CACHE_CAPACITY: usize = 1024;

/// The bits of a hash that choose the entry.
pub const CACHE_MASK: u64 = 1023;

/// How many neighbouring entries a lookup tries.
pub const CACHE_LINE: usize = 4;

/// A symbol with the offset of its record and the low half of its hash.
#[derive(Clone, Copy)]
pub struct CacheEntry {
    pub offset: u32,
    pub hash: u32,
    pub symbol: Symbol,
}

/// The entry that a hash belongs to.
pub open spec fn cache_slot(hash: u64) -> int {
    (hash & CACHE_MASK) as int
}

/// The first entry of the line that a hash belongs to.
pub open spec fn cache_line(hash: u64) -> int {
    cache_slot(hash) - cache_slot(hash) % CACHE_LINE as int
}

impl CacheEntry {
    /// Whether the entry is for the text `text` with the hash `hash`, where
    /// `bytes` is the arena.
    pub open spec fn matches(self, hash: u64, bytes: Seq<u8>, text: Seq<char>) -> bool {
        &&& self.hash == hash as u32
        &&& record::record_at(bytes, self.offset as int) == Some(encode_utf8(text))
    }
}

/// A direct-mapped cache that is searched by lines of four entries.
pub struct ThreadLocalCache {
    entries: Vec<Option<CacheEntry>>,
}

impl View for ThreadLocalCache {
    type V = Seq<Option<CacheEntry>>;

    closed spec fn view(&self) -> Seq<Option<CacheEntry>> {
        self.entries@
    }
}

impl ThreadLocalCache {
    pub open spec fn wf(&self) -> bool {
        self@.len() == CACHE_CAPACITY
    }

    /// An empty cache.
    pub(crate) fn new() -> (cache: ThreadLocalCache)
        ensures
            cache.wf(),
            forall|i: int| 0 <= i < CACHE_CAPACITY ==> (#[trigger] cache@[i]) is None,
    {
        let mut entries: Vec<Option<CacheEntry>> = Vec::with_capacity(CACHE_CAPACITY);
        let mut i: usize = 0;
        while i < CACHE_CAPACITY
            invariant
                i <= CACHE_CAPACITY,
                entries@.len() == i,
                forall|j: int| 0 <= j < i ==> (#[trigger] entries@[j]) is None,
            decreases CACHE_CAPACITY - i,
        {
            entries.push(None);
            i = i + 1;
        }
        ThreadLocalCache { entries }
    }

    /// The symbol of the first entry of the line of `hash` that is for `value`.
    pub(crate) fn lookup(&self, hash: u64, bytes: &[u8], value: &str) -> (symbol: Option<Symbol>)
        requires
            self.wf(),
        ensures
            match symbol {
                Some(s) => exists|i: int|
                    cache_line(hash) <= i < cache_line(hash) + CACHE_LINE && {
                        &&& (#[trigger] self@[i]) matches Some(e)
                        &&& e.matches(hash, bytes@, value@)
                        &&& e.symbol == s
                        &&& forall|j: int|
                            cache_line(hash) <= j < i ==> !((#[trigger] self@[j]) matches Some(f)
                                && f.matches(hash, bytes@, value@))
                    },
                None => forall|i: int|
                    cache_line(hash) <= i < cache_line(hash) + CACHE_LINE ==> !((
                    #[trigger] self@[i]) matches Some(e) && e.matches(hash, bytes@, value@)),
            },
    {
        let hash_trunc: u32 = #[verifier::truncate] (hash as u32);
        let slot: u64 = hash & CACHE_MASK;
        assert((hash & 1023) & !3u64 == (hash & 1023) - (hash & 1023) % 4 && hash & 1023 < 1024)
            by (bit_vector);
        let line: usize = (slot & !3u64) as usize;
        let wanted: &[u8] = value.as_bytes();
        let mut i: usize = line;
        while i < line + CACHE_LINE
            invariant
                self.wf(),
                line == cache_line(hash),
                line <= i <= line + CACHE_LINE,
                line + CACHE_LINE <= CACHE_CAPACITY,
                hash_trunc == hash as u32,
                wanted@ == encode_utf8(value@),
                forall|j: int|
                    line <= j < i ==> !((#[trigger] self@[j]) matches Some(e) && e.matches(
                        hash,
                        bytes@,
                        value@,
                    )),
            decreases line + CACHE_LINE - i,
        {
            if let Some(entry) = self.entries[i] {
                assert(self@[i as int] == Some(entry));
                if entry.hash == hash_trunc {
                    if let Some(text) = record::read_record(bytes, entry.offset as usize) {
                        if slices::items_equal(text, wanted) {
                            return Some(entry.symbol);
                        }
                    }
                }
            }
            i = i + 1;
        }
        None
    }

    /// Puts an entry in the place that its hash belongs to.
    pub(crate) fn store(&mut self, hash: u64, offset: u32, symbol: Symbol)
        requires
            old(self).wf(),
        ensures
            final(self).wf(),
            final(self)@ == old(self)@.update(
                cache_slot(hash),
                Some((CacheEntry { offset, hash: hash as u32, symbol })),
            ),
    {
        assert(hash & 1023 < 1024) by (bit_vector);
        let slot: usize = (hash & CACHE_MASK) as usize;
        let hash_trunc: u32 = #[verifier::truncate] (hash as u32);
        self.entries[slot] = Some(CacheEntry { offset, hash: hash_trunc, symbol });
    }
}

} // verus!
