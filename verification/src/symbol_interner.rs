//! Interning of texts as symbols.
use crate::cache;
use crate::cache::{CacheEntry, ThreadLocalCache, CACHE_LINE};
use crate::capacity;
use crate::error::InternError;
use crate::hash;
use crate::interner_model;
use crate::interner_model::{
    InternerView, ARENA_CAPACITY, DEFAULT_SHARD_COUNT, MAX_SHARD_COUNT, SHORT_ARENA,
};
use crate::pool::MemoryPool;
use crate::record;
use crate::shards;
use crate::slices;
use crate::string_array::ChunkedStringArray;
use crate::symbol;
use crate::symbol::{Symbol, INDEX_MASK};
use crate::symbol_table;
use crate::symbol_table::SymbolTable;
use vstd::multiset::Multiset;
use vstd::prelude::*;
use vstd::utf8::*;

verus! {

/// One shard: the table that finds symbols, and the offsets by index.
struct Shard {
    entries: SymbolTable,
    strings: ChunkedStringArray,
}

/// A set of texts, each known by a four-byte [`Symbol`].
///
/// The same text always has the same symbol. All texts stand in one arena,
/// whose bytes can be saved with [`bytes`](Self::bytes) and loaded with
/// [`from_bytes`](Self::from_bytes).
pub struct SymbolInterner {
    pool: MemoryPool,
    shards: Vec<Shard>,
    shard_mask: u64,
    cache: ThreadLocalCache,
    texts: Ghost<Seq<Seq<char>>>,
}

/// The offsets of the texts of a shard, by index.
spec fn shard_offsets(v: InternerView, shard: int) -> Seq<u32> {
    let ps = v.shard_positions(shard);
    Seq::new(ps.len(), |i: int| record::text_offset(v.texts, ps[i]) as u32)
}

/// The table entry for a text with a given symbol.
spec fn table_entry(text: Seq<char>, raw: u32) -> (u64, u32, u32) {
    (hash::text_hash(text), record::prefix4(encode_utf8(text)), raw)
}

/// The table entries for the texts of a shard, by index.
spec fn shard_entries(v: InternerView, shard: int) -> Seq<(u64, u32, u32)> {
    let ps = v.shard_positions(shard);
    Seq::new(
        ps.len(),
        |i: int| table_entry(v.texts[ps[i]], symbol::symbol_raw(shard, i) as u32),
    )
}

impl Shard {
    /// The shard holds what shard number `shard` of `v` holds.
    closed spec fn represents(&self, v: InternerView, shard: int) -> bool {
        &&& self.strings.wf()
        &&& self.strings@ == shard_offsets(v, shard)
        &&& symbol_table::table_entries(self.entries) == shard_entries(v, shard).to_multiset()
    }
}

/// The cache entry is for one of the texts of `v`.
spec fn cache_entry_ok(v: InternerView, e: CacheEntry) -> bool {
    exists|p: int|
        0 <= p < v.texts.len() && e.offset == record::text_offset(v.texts, p) && e.symbol@
            == #[trigger] v.symbol_at(p)
}

proof fn lemma_shard_push(v: InternerView, text: Seq<char>, shard: int)
    requires
        v.valid(),
        !v.has(text),
        v.intern_result(text) is Ok,
        0 <= shard < v.shard_count,
    ensures
        v.shard_of(text) != shard ==> {
            &&& shard_offsets(v.intern(text), shard) == shard_offsets(v, shard)
            &&& shard_entries(v.intern(text), shard) == shard_entries(v, shard)
        },
        v.shard_of(text) == shard ==> {
            let index = v.shard_positions(shard).len() as int;
            &&& shard_offsets(v.intern(text), shard) == shard_offsets(v, shard).push(
                record::arena_len(v.texts) as u32,
            )
            &&& shard_entries(v.intern(text), shard) == shard_entries(v, shard).push(
                table_entry(text, symbol::symbol_raw(shard, index) as u32),
            )
        },
{
    let after = v.intern(text);
    interner_model::lemma_positions_push(v.shard_count, v.texts, text, shard);
    let ps = v.shard_positions(shard);
    assert forall|i: int| 0 <= i < ps.len() implies {
        &&& record::text_offset(after.texts, #[trigger] ps[i]) == record::text_offset(
            v.texts,
            ps[i],
        )
        &&& after.texts[ps[i]] == v.texts[ps[i]]
    } by {
        interner_model::lemma_positions(v.shard_count, v.texts, shard, i);
        record::lemma_text_offset_push(v.texts, text, ps[i]);
    }
    assert(after.texts.take(v.texts.len() as int) =~= v.texts);
    if v.shard_of(text) == shard {
        let index = ps.len() as int;
        assert(shard_offsets(after, shard) =~= shard_offsets(v, shard).push(
            record::arena_len(v.texts) as u32,
        ));
        assert(shard_entries(after, shard) =~= shard_entries(v, shard).push(
            table_entry(text, symbol::symbol_raw(shard, index) as u32),
        ));
    } else {
        assert(shard_offsets(after, shard) =~= shard_offsets(v, shard));
        assert(shard_entries(after, shard) =~= shard_entries(v, shard));
    }
}

/// The symbol of a new text has the next index of its shard.
proof fn lemma_new_symbol(v: InternerView, text: Seq<char>)
    requires
        v.valid(),
        !v.has(text),
        v.intern_result(text) is Ok,
    ensures
        v.intern(text).valid(),
        v.intern(text).texts.index_of(text) == v.texts.len(),
        v.intern(text).symbol_of(text) == v.intern(text).symbol_at(v.texts.len() as int),
        v.intern(text).symbol_of(text) == symbol::symbol_raw(
            v.shard_of(text),
            v.shard_positions(v.shard_of(text)).len() as int,
        ),
        record::text_offset(v.intern(text).texts, v.texts.len() as int) == record::arena_len(
            v.texts,
        ),
{
    let after = v.intern(text);
    let p = v.texts.len() as int;
    v.intern_keeps_valid(text);
    v.intern_is_idempotent(text);
    after.lemma_index_of(text);
    assert(after.texts[p] == text);
    assert(after.texts.index_of(text) == p);
    after.lemma_symbol_at(p);
    assert(after.texts.take(p) =~= v.texts);
}

proof fn lemma_default_shards()
    ensures
        interner_model::shard_count_for(DEFAULT_SHARD_COUNT as nat) == DEFAULT_SHARD_COUNT,
{
    reveal_with_fuel(shards::doubled_up_to, 6);
}

/// What the cache holds stays right when a text is added.
proof fn lemma_cache_entry_kept(v: InternerView, text: Seq<char>, e: CacheEntry)
    requires
        cache_entry_ok(v, e),
    ensures
        cache_entry_ok(v.intern(text), e),
{
    let p = choose|p: int|
        0 <= p < v.texts.len() && e.offset == record::text_offset(v.texts, p) && e.symbol@
            == #[trigger] v.symbol_at(p);
    v.lemma_intern_keeps_symbol_at(text, p);
    assert(e.symbol@ == v.intern(text).symbol_at(p));
}

impl View for SymbolInterner {
    type V = InternerView;

    closed spec fn view(&self) -> InternerView {
        InternerView {
            shard_count: self.shards@.len() as int,
            texts: self.texts@,
            poisoned: self.pool.poisoned(),
        }
    }
}

impl SymbolInterner {
    /// The pool, the shards and the cache hold what the view says.
    pub closed spec fn represents_view(&self) -> bool {
        &&& self.shard_mask == self.shards@.len() - 1
        &&& self.pool.wf()
        &&& self.pool.capacity() == ARENA_CAPACITY
        &&& self.pool.bytes() == self@.bytes()
        &&& forall|s: int|
            0 <= s < self.shards@.len() ==> (#[trigger] self.shards@[s]).represents(self@, s)
        &&& self.cache.wf()
        &&& forall|i: int|
            0 <= i < self.cache@.len() && (#[trigger] self.cache@[i]) is Some ==> cache_entry_ok(
                self@,
                self.cache@[i]->0,
            )
    }

    /// The interner is well formed.
    pub open spec fn wf(&self) -> bool {
        self@.valid() && self.represents_view()
    }

    /// An interner with the default number of shards.
    pub fn new() -> (interner: SymbolInterner)
        ensures
            interner.wf(),
            interner@ == InternerView::empty(DEFAULT_SHARD_COUNT as int),
    {
        proof {
            lemma_default_shards();
            interner_model::lemma_arena_capacity_fits(0, DEFAULT_SHARD_COUNT as int);
        }
        SymbolInterner::with_capacity_and_shards(0, DEFAULT_SHARD_COUNT)
    }

    /// An interner with the default number of shards and with tables for
    /// `symbols` symbols. The tables only save growing later: how much they
    /// have allocated is not part of the contract.
    pub fn with_capacity(symbols: usize) -> (interner: SymbolInterner)
        requires
            interner_model::capacity_fits(symbols as int, DEFAULT_SHARD_COUNT as int),
        ensures
            interner.wf(),
            interner@ == InternerView::empty(DEFAULT_SHARD_COUNT as int),
    {
        proof {
            lemma_default_shards();
        }
        SymbolInterner::with_capacity_and_shards(symbols, DEFAULT_SHARD_COUNT)
    }

    /// An interner with tables for `symbols` symbols. The number of shards is
    /// `count`, brought between 1 and 256 and rounded up to a power of two. How
    /// much the tables have allocated is not part of the contract.
    pub fn with_capacity_and_shards(symbols: usize, count: usize) -> (interner: SymbolInterner)
        requires
            interner_model::capacity_fits(
                symbols as int,
                interner_model::shard_count_for(count as nat),
            ),
        ensures
            interner.wf(),
            interner@ == InternerView::empty(interner_model::shard_count_for(count as nat)),
    {
        proof {
            interner_model::lemma_shard_count_for(count as nat);
        }
        let count: usize = SymbolInterner::rounded_shard_count(count);
        let per_shard: usize = shards::div_ceil(symbols, count);
        let ghost v = InternerView::empty(count as int);
        let mut shards: Vec<Shard> = Vec::with_capacity(count);
        let mut i: usize = 0;
        while i < count
            invariant
                i <= count,
                shards@.len() == i,
                capacity::table_capacity_fits(per_shard as int),
                v == InternerView::empty(count as int),
                forall|s: int| 0 <= s < i ==> (#[trigger] shards@[s]).represents(v, s),
            decreases count - i,
        {
            let shard = Shard {
                entries: SymbolTable::with_capacity(per_shard),
                strings: ChunkedStringArray::new(),
            };
            proof {
                assert(shard_offsets(v, i as int) =~= Seq::empty());
                let listed = shard_entries(v, i as int);
                assert(listed =~= Seq::empty());
                listed.to_multiset_ensures();
                assert(listed.to_multiset() =~= Multiset::empty());
            }
            shards.push(shard);
            i = i + 1;
        }
        let interner = SymbolInterner {
            pool: MemoryPool::new(ARENA_CAPACITY, count as u32),
            shards,
            shard_mask: (count - 1) as u64,
            cache: ThreadLocalCache::new(),
            texts: Ghost(Seq::empty()),
        };
        proof {
            assert(interner@ =~= v);
            assert(interner.pool.bytes() =~= v.bytes());
            assert(v.texts.no_duplicates());
        }
        interner
    }

    /// The number of shards for an interner that is asked for `count`.
    fn rounded_shard_count(count: usize) -> (rounded: usize)
        ensures
            rounded == interner_model::shard_count_for(count as nat),
    {
        let wanted: usize = if count < 1 {
            1
        } else if count > MAX_SHARD_COUNT {
            MAX_SHARD_COUNT
        } else {
            count
        };
        proof {
            reveal_with_fuel(shards::doubled_up_to, 10);
        }
        shards::next_power_of_two(wanted)
    }

    /// Whether an interner with tables for `symbols` symbols can be asked for.
    pub fn capacity_fits(symbols: usize, count: usize) -> (fits: bool)
        ensures
            fits == interner_model::capacity_fits(
                symbols as int,
                interner_model::shard_count_for(count as nat),
            ),
    {
        proof {
            interner_model::lemma_shard_count_for(count as nat);
        }
        let per_shard: usize = shards::div_ceil(
            symbols,
            SymbolInterner::rounded_shard_count(count),
        );
        capacity::capacity_fits(per_shard)
    }

    /// How many texts are interned.
    pub fn len(&self) -> (len: usize)
        requires
            self.wf(),
        ensures
            len == self@.texts.len(),
    {
        let ghost v = self@;
        let mut len: usize = 0;
        let mut i: usize = 0;
        proof {
            interner_model::shards_partition_texts(v.shard_count, v.texts);
            interner_model::lemma_texts_len(v.texts);
        }
        while i < self.shards.len()
            invariant
                self.wf(),
                v == self@,
                i <= self.shards@.len(),
                len == interner_model::texts_below(v.shard_count, v.texts, i as nat),
                interner_model::texts_below(v.shard_count, v.texts, v.shard_count as nat)
                    == v.texts.len(),
                v.texts.len() <= u32::MAX,
            decreases self.shards@.len() - i,
        {
            assert(self.shards@[i as int].represents(v, i as int));
            proof {
                interner_model::lemma_texts_below_monotone(
                    v.shard_count,
                    v.texts,
                    (i + 1) as nat,
                    v.shard_count as nat,
                );
            }
            len = len + self.shards[i].strings.len();
            i = i + 1;
        }
        len
    }

    /// Whether no text is interned.
    pub fn is_empty(&self) -> (empty: bool)
        requires
            self.wf(),
        ensures
            empty == (self@.texts.len() == 0),
    {
        self.len() == 0
    }

    /// Whether a table entry is for `value`, which has the given hash and prefix.
    fn entry_is_for(
        &self,
        shard_id: usize,
        entry: &(u64, u32, u32),
        hash: u64,
        prefix: u32,
        value: &str,
    ) -> (matches: bool)
        requires
            self.wf(),
            shard_id < self@.shard_count,
            symbol::raw_index(entry.2) >= 0,
        ensures
            matches <==> {
                let ps = self@.shard_positions(shard_id as int);
                let index = symbol::raw_index(entry.2);
                &&& entry.0 == hash
                &&& entry.1 == prefix
                &&& index < ps.len()
                &&& self@.texts[ps[index]] == value@
            },
    {
        if entry.0 != hash || entry.1 != prefix {
            return false;
        }
        match Symbol::from_raw(entry.2) {
            None => {
                proof {
                    assert(symbol::raw_index(0) == -1);
                }
                false
            },
            Some(symbol) => match self.shards[shard_id].strings.get(symbol.index()) {
                None => false,
                Some(offset) => {
                    let ghost ps = self@.shard_positions(shard_id as int);
                    let ghost p = ps[symbol::raw_index(entry.2)];
                    proof {
                        interner_model::lemma_positions(
                            self@.shard_count,
                            self@.texts,
                            shard_id as int,
                            symbol::raw_index(entry.2),
                        );
                        record::lemma_arena_text(self@.shard_count, self@.texts, p);
                        record::lemma_records_subrange(self@.texts, p);
                        encode_utf8_decode_utf8(self@.texts[p]);
                        encode_utf8_decode_utf8(value@);
                    }
                    match record::read_record(self.pool.committed_bytes(), offset as usize) {
                        None => false,
                        Some(text) => slices::items_equal(text, value.as_bytes()),
                    }
                },
            },
        }
    }

    /// Looks `value` up in the table of its shard.
    fn find_in_shard(&self, hash: u64, prefix: u32, value: &str) -> (symbol: Option<Symbol>)
        requires
            self.wf(),
            hash == hash::text_hash(value@),
            prefix == record::prefix4(encode_utf8(value@)),
        ensures
            match symbol {
                Some(s) => self@.has(value@) && s@ == self@.symbol_of(value@),
                None => !self@.has(value@),
            },
    {
        let ghost v = self@;
        let ghost shard = v.shard_of(value@);
        proof {
            interner_model::lemma_text_shard_in_range(v.shard_count, value@);
        }
        let shard_id: usize = (hash & self.shard_mask) as usize;
        let ghost listed = shard_entries(v, shard);
        proof {
            assert(self.shards@[shard].represents(v, shard));
            listed.to_multiset_ensures();
            assert forall|i: int| 0 <= i < listed.len() implies symbol::raw_index(
                (#[trigger] listed[i]).2,
            ) == i by {
                assert(v.shard_positions(shard).len() <= INDEX_MASK);
                symbol::symbol_raw_parts(shard, i);
            }
        }
        let eq = |entry: &(u64, u32, u32)| -> (matches: bool)
            requires
                symbol::raw_index(entry.2) >= 0,
            ensures
                matches <==> {
                    let ps = self@.shard_positions(shard_id as int);
                    let index = symbol::raw_index(entry.2);
                    &&& entry.0 == hash
                    &&& entry.1 == prefix
                    &&& index < ps.len()
                    &&& self@.texts[ps[index]] == value@
                },
            { self.entry_is_for(shard_id, entry, hash, prefix, value) };
        match self.shards[shard_id].entries.find(hash, eq) {
            Some(entry) => {
                proof {
                    assert(listed.contains(*entry));
                    let i = listed.index_of(*entry);
                    let p = v.shard_positions(shard)[i];
                    interner_model::lemma_positions(v.shard_count, v.texts, shard, i);
                    v.lemma_symbol_at(p);
                    v.lemma_index_of(value@);
                    assert(v.texts.index_of(value@) == p);
                    assert(entry.2 != 0);
                }
                Symbol::from_raw(entry.2)
            },
            None => {
                proof {
                    if v.has(value@) {
                        v.lemma_index_of(value@);
                        let p = v.texts.index_of(value@);
                        interner_model::lemma_position_listed(v.shard_count, v.texts, p);
                        let i = v.index_in_shard(p);
                        assert(listed.contains(listed[i]));
                        assert(symbol_table::table_entries(self.shards@[shard].entries).contains(
                            listed[i],
                        ));
                    }
                }
                None
            },
        }
    }

    /// Whether the cache entry `i` is for the text `text` with the hash `hash`.
    spec fn cached_at(&self, i: int, hash: u64, text: Seq<char>) -> bool {
        self.cache@[i] matches Some(e) && e.matches(hash, self.pool.bytes(), text)
    }

    /// Looks `value` up in the cache: finds it exactly where an entry of the
    /// line of `hash` is for it.
    fn find_in_cache(&self, hash: u64, value: &str) -> (symbol: Option<Symbol>)
        requires
            self.wf(),
        ensures
            match symbol {
                Some(s) => {
                    &&& self@.has(value@)
                    &&& s@ == self@.symbol_of(value@)
                    &&& exists|i: int|
                        cache::cache_line(hash) <= i < cache::cache_line(hash) + CACHE_LINE
                            && #[trigger] self.cached_at(i, hash, value@)
                },
                None => forall|i: int|
                    cache::cache_line(hash) <= i < cache::cache_line(hash) + CACHE_LINE
                        ==> !#[trigger] self.cached_at(i, hash, value@),
            },
    {
        let symbol = self.cache.lookup(hash, self.pool.committed_bytes(), value);
        proof {
            if symbol is Some {
                let v = self@;
                let i = choose|i: int|
                    cache::cache_line(hash) <= i < cache::cache_line(hash) + CACHE_LINE && {
                        &&& (#[trigger] self.cache@[i]) matches Some(e)
                        &&& e.matches(hash, self.pool.bytes(), value@)
                        &&& e.symbol == symbol->0
                    };
                assert(hash & 1023 < 1024) by (bit_vector);
                assert(self.cached_at(i, hash, value@));
                let e = self.cache@[i]->0;
                assert(cache_entry_ok(v, e));
                let p = choose|p: int|
                    0 <= p < v.texts.len() && e.offset == record::text_offset(v.texts, p)
                        && e.symbol@ == #[trigger] v.symbol_at(p);
                record::lemma_arena_text(v.shard_count, v.texts, p);
                encode_utf8_decode_utf8(v.texts[p]);
                encode_utf8_decode_utf8(value@);
                assert(v.texts[p] == value@);
                v.lemma_index_of(value@);
                assert(v.texts.index_of(value@) == p);
            }
        }
        symbol
    }

    /// Poisoning the pool changes nothing else.
    proof fn lemma_poisoned_wf(&self, before: InternerView)
        requires
            before.valid(),
            self@ == (InternerView { poisoned: true, ..before }),
            self.shard_mask == self.shards@.len() - 1,
            self.pool.wf(),
            self.pool.capacity() == ARENA_CAPACITY,
            self.pool.bytes() == before.bytes(),
            forall|s: int|
                0 <= s < self.shards@.len() ==> (#[trigger] self.shards@[s]).represents(before, s),
            self.cache.wf(),
            forall|i: int|
                0 <= i < self.cache@.len() && (#[trigger] self.cache@[i]) is Some
                    ==> cache_entry_ok(before, self.cache@[i]->0),
        ensures
            self.wf(),
    {
        let v = self@;
        assert forall|s: int| 0 <= s < self.shards@.len() implies {
            &&& (#[trigger] v.shard_positions(s)).len() <= INDEX_MASK
            &&& self.shards@[s].represents(v, s)
        } by {
            assert(v.shard_positions(s) == before.shard_positions(s));
            assert(self.shards@[s].represents(before, s));
            assert(shard_offsets(v, s) =~= shard_offsets(before, s));
            assert(shard_entries(v, s) =~= shard_entries(before, s));
        }
        assert forall|i: int|
            0 <= i < self.cache@.len() && (#[trigger] self.cache@[i]) is Some implies cache_entry_ok(
            v,
            self.cache@[i]->0,
        ) by {
            let e = self.cache@[i]->0;
            assert(cache_entry_ok(before, e));
            let p = choose|p: int|
                0 <= p < before.texts.len() && e.offset == record::text_offset(before.texts, p)
                    && e.symbol@ == #[trigger] before.symbol_at(p);
            assert(e.symbol@ == v.symbol_at(p));
        }
    }

    /// Remembers the symbol of an interned text in the cache entry for its
    /// hash, and changes nothing else.
    fn remember(&mut self, hash: u64, offset: u32, symbol: Symbol)
        requires
            old(self).wf(),
            cache_entry_ok(old(self)@, (CacheEntry { offset, hash: hash as u32, symbol })),
        ensures
            final(self).wf(),
            final(self)@ == old(self)@,
            final(self).cache@ == old(self).cache@.update(
                cache::cache_slot(hash),
                Some((CacheEntry { offset, hash: hash as u32, symbol })),
            ),
            final(self).pool == old(self).pool,
            final(self).shards == old(self).shards,
            final(self).shard_mask == old(self).shard_mask,
    {
        self.cache.store(hash, offset, symbol);
        proof {
            assert(hash & 1023 < 1024) by (bit_vector);
            assert(self@ == old(self)@);
            assert forall|i: int|
                0 <= i < self.cache@.len() && (
                #[trigger] self.cache@[i]) is Some implies cache_entry_ok(
                self@,
                self.cache@[i]->0,
            ) by {
                if i != cache::cache_slot(hash) {
                    assert(self.cache@[i] == old(self).cache@[i]);
                }
            }
            assert forall|s: int| 0 <= s < self.shards@.len() implies (
            #[trigger] self.shards@[s]).represents(self@, s) by {
                assert(old(self).shards@[s].represents(self@, s));
            }
        }
    }

    /// Adds a text that is not interned yet.
    fn add_text(&mut self, hash: u64, prefix: u32, value: &str) -> (symbol: Symbol)
        requires
            old(self).wf(),
            !old(self)@.has(value@),
            old(self)@.intern_result(value@) is Ok,
            hash == hash::text_hash(value@),
            prefix == record::prefix4(encode_utf8(value@)),
        ensures
            final(self).wf(),
            final(self)@ == old(self)@.intern(value@),
            symbol@ == final(self)@.symbol_of(value@),
    {
        let ghost v = self@;
        let ghost after = v.intern(value@);
        let ghost shard = v.shard_of(value@);
        proof {
            interner_model::lemma_text_shard_in_range(v.shard_count, value@);
            record::lemma_arena_len(v.shard_count, v.texts);
            lemma_new_symbol(v, value@);
            lemma_shard_push(v, value@, shard);
            assert(self.shards@[shard].represents(v, shard));
            shard_entries(v, shard).to_multiset_ensures();
        }
        let shard_id: usize = (hash & self.shard_mask) as usize;
        let offset: u32 = match self.pool.alloc_record(value) {
            Ok(offset) => offset,
            Err(_) => {
                assert(false);
                0
            },
        };
        let index: usize = self.shards[shard_id].strings.push(offset);
        let symbol = Symbol::new(shard_id as u8, index);
        self.shards[shard_id].entries.insert_unique((hash, prefix, symbol.into_raw()));
        self.texts = Ghost(self.texts@.push(value@));
        proof {
            record::lemma_records_push(v.texts, value@);
            assert(self@ =~= after);
            assert(self.pool.bytes() =~= after.bytes());
            assert forall|s: int| 0 <= s < self.shards@.len() implies (
            #[trigger] self.shards@[s]).represents(after, s) by {
                lemma_shard_push(v, value@, s);
                assert(old(self).shards@[s].represents(v, s));
            }
            assert forall|i: int|
                0 <= i < self.cache@.len() && (
                #[trigger] self.cache@[i]) is Some implies cache_entry_ok(
                after,
                self.cache@[i]->0,
            ) by {
                lemma_cache_entry_kept(v, value@, self.cache@[i]->0);
            }
            assert(symbol@ == after.symbol_at(v.texts.len() as int));
            assert(cache_entry_ok(after, (CacheEntry { offset, hash: hash as u32, symbol })));
        }
        self.remember(hash, offset, symbol);
        symbol
    }

    /// The symbol of `value`, which is interned if it is not yet.
    ///
    /// There must be room for a text that is not interned yet;
    /// [`try_get_or_intern`](Self::try_get_or_intern) asks for nothing and says
    /// where there is none.
    pub fn get_or_intern(&mut self, value: &str) -> (symbol: Symbol)
        requires
            old(self).wf(),
            old(self)@.intern_result(value@) is Ok,
        ensures
            final(self).wf(),
            final(self)@ == old(self)@.intern(value@),
            final(self)@.has(value@),
            symbol@ == final(self)@.symbol_of(value@),
    {
        proof {
            self@.intern_is_idempotent(value@);
        }
        let hash: u64 = hash::hash_text(value);
        let prefix: u32 = record::read_prefix4(value.as_bytes());
        if let Some(symbol) = self.find_in_cache(hash, value) {
            return symbol;
        }
        match self.find_in_shard(hash, prefix, value) {
            Some(symbol) => {
                let ghost v = self@;
                proof {
                    v.lemma_index_of(value@);
                    v.lemma_symbol_at(v.texts.index_of(value@));
                }
                if let Some(offset) = self.offset_of(symbol) {
                    proof {
                        let p = v.texts.index_of(value@);
                        record::lemma_records_subrange(v.texts, p);
                        assert(v.symbol_at(p) == symbol@);
                    }
                    self.remember(hash, offset, symbol);
                }
                symbol
            },
            None => self.add_text(hash, prefix, value),
        }
    }

    /// The symbol of `value`, which is interned if it is not yet, or why there
    /// is no room for it.
    pub fn try_get_or_intern(&mut self, value: &str) -> (result: Result<Symbol, InternError>)
        requires
            old(self).wf(),
        ensures
            final(self).wf(),
            final(self)@ == old(self)@.after_intern(value@),
            match result {
                Ok(symbol) => old(self)@.intern_result(value@) == Ok::<u32, InternError>(symbol@),
                Err(e) => old(self)@.intern_result(value@) == Err::<u32, InternError>(e),
            },
    {
        if self.contains(value) {
            return Ok(self.get_or_intern(value));
        }
        let ghost v = self@;
        proof {
            record::lemma_arena_len(v.shard_count, v.texts);
            interner_model::lemma_text_shard_in_range(v.shard_count, value@);
            assert(self.shards@[v.shard_of(value@)].represents(v, v.shard_of(value@)));
        }
        match self.pool.check(value) {
            Err(e) => {
                if e == InternError::PoolExhausted {
                    self.pool.poison();
                    proof {
                        self.lemma_poisoned_wf(v);
                    }
                }
                Err(e)
            },
            Ok(_) => {
                let hash: u64 = hash::hash_text(value);
                let shard_id: usize = (hash & self.shard_mask) as usize;
                if self.shards[shard_id].strings.len() >= INDEX_MASK as usize {
                    Err(InternError::ShardFull)
                } else {
                    let prefix: u32 = record::read_prefix4(value.as_bytes());
                    Ok(self.add_text(hash, prefix, value))
                }
            },
        }
    }

    /// The symbol of `value`, if it is interned.
    pub fn get(&self, value: &str) -> (symbol: Option<Symbol>)
        requires
            self.wf(),
        ensures
            match symbol {
                Some(s) => self@.has(value@) && s@ == self@.symbol_of(value@),
                None => !self@.has(value@),
            },
    {
        let hash: u64 = hash::hash_text(value);
        let prefix: u32 = record::read_prefix4(value.as_bytes());
        if let Some(symbol) = self.find_in_cache(hash, value) {
            return Some(symbol);
        }
        self.find_in_shard(hash, prefix, value)
    }

    /// Whether `value` is interned.
    pub fn contains(&self, value: &str) -> (contained: bool)
        requires
            self.wf(),
        ensures
            contained == self@.has(value@),
    {
        self.get(value).is_some()
    }

    /// Where in the bytes of the interner the text of a symbol stands; none for
    /// a symbol that stands for no text here.
    ///
    /// A raw value whose low 24 bits are all zero names no index and must not
    /// be asked for, unless its shard is beyond those of the interner.
    pub fn offset_of(&self, symbol: Symbol) -> (offset: Option<u32>)
        requires
            self.wf(),
            symbol::raw_shard(symbol@) < self@.shard_count ==> symbol::raw_index(symbol@) >= 0,
        ensures
            offset == self@.offset_of(symbol@),
    {
        let shard_id: usize = symbol.shard_id();
        if shard_id >= self.shards.len() {
            return None;
        }
        assert(self.shards@[shard_id as int].represents(self@, shard_id as int));
        self.shards[shard_id].strings.offset_at(symbol.index())
    }

    /// The text that a symbol stands for; none for a symbol that stands for no
    /// text here.
    ///
    /// A raw value whose low 24 bits are all zero names no index and must not
    /// be asked for, unless its shard is beyond those of the interner.
    pub fn resolve(&self, symbol: Symbol) -> (text: Option<&str>)
        requires
            self.wf(),
            symbol::raw_shard(symbol@) < self@.shard_count ==> symbol::raw_index(symbol@) >= 0,
        ensures
            match text {
                Some(t) => self@.resolve(symbol@) == Some(t@),
                None => self@.resolve(symbol@) is None,
            },
    {
        let shard_id: usize = symbol.shard_id();
        if shard_id >= self.shards.len() {
            return None;
        }
        assert(self.shards@[shard_id as int].represents(self@, shard_id as int));
        match self.shards[shard_id].strings.get(symbol.index()) {
            None => None,
            Some(offset) => {
                proof {
                    self@.offset_leads_to_text(symbol@);
                }
                record::read_text(self.pool.committed_bytes(), offset as usize)
            },
        }
    }

    /// The text that a symbol of this interner stands for.
    pub fn resolve_unchecked(&self, symbol: Symbol) -> (text: &str)
        requires
            self.wf(),
            self@.resolve(symbol@) is Some,
        ensures
            self@.resolve(symbol@) == Some(text@),
    {
        match self.resolve(symbol) {
            Some(text) => text,
            None => {
                assert(false);
                ""
            },
        }
    }

    /// The bytes of the arena, from which [`from_bytes`](Self::from_bytes)
    /// loads the interner again.
    pub fn bytes(&self) -> (bytes: &[u8])
        requires
            self.wf(),
        ensures
            bytes@ == self@.bytes(),
    {
        self.pool.committed_bytes()
    }

    /// The text at `offset` in the bytes of an interner; none at zero, where
    /// the record would run past the end, or where it is not well-formed UTF-8.
    pub fn resolve_raw_offset(bytes: &[u8], offset: u32) -> (text: Option<&str>)
        ensures
            match text {
                Some(t) => offset != 0 && record::text_at(bytes@, offset as int) == Some(t@),
                None => offset == 0 || record::text_at(bytes@, offset as int) is None,
            },
    {
        if offset == 0 {
            return None;
        }
        record::read_text(bytes, offset as usize)
    }

    /// Interns the texts of an arena up to the first for which there is no room.
    fn load_records(&mut self, bytes: &[u8]) -> (result: Result<(), InternError>)
        requires
            old(self).wf(),
        ensures
            final(self).wf(),
            match result {
                Ok(_) => old(self)@.intern_all(record::texts_from(bytes@, 4)) == Ok::<
                    InternerView,
                    InternError,
                >(final(self)@),
                Err(e) => old(self)@.intern_all(record::texts_from(bytes@, 4)) == Err::<
                    InternerView,
                    InternError,
                >(e),
            },
    {
        let ghost start = self@;
        let ghost all = record::texts_from(bytes@, 4);
        let ghost mut done: Seq<Seq<char>> = Seq::empty();
        let end: usize = bytes.len();
        let mut cursor: usize = 4;
        assert(done + record::texts_from(bytes@, 4) =~= all);
        loop
            invariant
                self.wf(),
                start == old(self)@,
                all == record::texts_from(bytes@, 4),
                end == bytes@.len(),
                start.intern_all(done) == Ok::<InternerView, InternError>(self@),
                done + record::texts_from(bytes@, cursor as int) == all,
            decreases
                    if cursor < bytes@.len() {
                        bytes@.len() - cursor
                    } else {
                        0
                    },
        {
            match record::read_record(bytes, cursor) {
                None => {
                    assert(done + record::texts_from(bytes@, cursor as int) =~= done);
                    return Ok(());
                },
                Some(rec) => {
                    let ghost rest = record::texts_from(bytes@, cursor + 4 + rec@.len());
                    if let Ok(text) = std::str::from_utf8(rec) {
                        proof {
                            assert(done + (seq![text@] + rest) =~= done.push(text@) + rest);
                            assert(done.push(text@) =~= all.take(done.len() + 1int));
                            assert(done.push(text@).drop_last() =~= done);
                            done = done.push(text@);
                        }
                        if let Err(e) = self.try_get_or_intern(text) {
                            proof {
                                lemma_intern_all_err(start, all, done.len(), e);
                            }
                            return Err(e);
                        }
                    }
                    cursor = cursor + 4 + rec.len();
                },
            }
        }
    }

    /// The number of shards that the header of an arena asks for.
    fn header_shard_count(bytes: &[u8]) -> (count: usize)
        ensures
            interner_model::shard_count_for(count as nat) == interner_model::loaded_shard_count(
                bytes@,
            ),
    {
        match MemoryPool::read_shard_count_header(bytes) {
            Some(count) => count as usize,
            None => DEFAULT_SHARD_COUNT,
        }
    }

    /// Loads an interner from the bytes of another one: the symbols are those
    /// that the other one gave out.
    ///
    /// Records that are not well-formed UTF-8 are passed over, and so is what
    /// follows the last whole record. The texts must all find room;
    /// [`try_from_bytes`](Self::try_from_bytes) asks for nothing and says
    /// where they do not.
    pub fn from_bytes(bytes: &[u8]) -> (interner: SymbolInterner)
        requires
            interner_model::load(bytes@) is Ok,
        ensures
            interner.wf(),
            interner_model::load(bytes@) == Ok::<InternerView, InternError>(interner@),
    {
        let mut interner = SymbolInterner::with_capacity_and_shards(
            bytes.len() / 16,
            SymbolInterner::header_shard_count(bytes),
        );
        if let Err(_) = interner.load_records(bytes) {
            assert(false);
        }
        interner
    }

    /// Loads an interner from bytes of any kind, or says why they cannot be
    /// loaded.
    pub fn try_from_bytes(bytes: &[u8]) -> (result: Result<SymbolInterner, InternError>)
        ensures
            match result {
                Ok(interner) => interner.wf() && interner_model::load(bytes@) == Ok::<
                    InternerView,
                    InternError,
                >(interner@),
                Err(e) => interner_model::load(bytes@) == Err::<InternerView, InternError>(e),
            },
    {
        if bytes.len() <= SHORT_ARENA {
            // Too short for any record to be turned away.
            proof {
                interner_model::short_bytes_load(bytes@);
            }
            return Ok(SymbolInterner::from_bytes(bytes));
        }
        let count: usize = SymbolInterner::header_shard_count(bytes);
        proof {
            interner_model::lemma_shard_count_for(count as nat);
        }
        if !SymbolInterner::capacity_fits(bytes.len() / 16, count) {
            return Err(InternError::TableTooLarge);
        }
        let mut interner = SymbolInterner::with_capacity_and_shards(bytes.len() / 16, count);
        match interner.load_records(bytes) {
            Ok(_) => Ok(interner),
            Err(e) => Err(e),
        }
    }
}

impl Default for SymbolInterner {
    fn default() -> (interner: SymbolInterner)
        ensures
            interner.wf(),
            interner@ == InternerView::empty(DEFAULT_SHARD_COUNT as int),
    {
        SymbolInterner::new()
    }
}

/// The first text that is not taken decides.
proof fn lemma_intern_all_err(v: InternerView, texts: Seq<Seq<char>>, n: nat, e: InternError)
    requires
        n <= texts.len(),
        v.intern_all(texts.take(n as int)) == Err::<InternerView, InternError>(e),
    ensures
        v.intern_all(texts) == Err::<InternerView, InternError>(e),
    decreases texts.len(),
{
    if n < texts.len() {
        assert(texts.drop_last().take(n as int) =~= texts.take(n as int));
        lemma_intern_all_err(v, texts.drop_last(), n, e);
    } else {
        assert(texts.take(n as int) =~= texts);
    }
}

} // verus!
