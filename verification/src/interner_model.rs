//! What a symbol interner holds, and the laws of interning.
use crate::capacity;
use crate::error::InternError;
use crate::hash;
use crate::pool;
use crate::record;
use crate::shards;
use crate::symbol;
use crate::symbol::{INDEX_MASK, SHARD_STRIDE};
use vstd::arithmetic::power2::*;
use vstd::prelude::*;
use vstd::utf8::*;

verus! {

/// How many shards an interner has unless it is told otherwise.
pub const DEFAULT_SHARD_COUNT: usize = 16;

/// How many shards an interner has at most.
pub const MAX_SHARD_COUNT: usize = 256;

/// How many bytes the arena of an interner may hold: 256 MB.
pub const ARENA_CAPACITY: u32 = 0x1000_0000;

/// The length up to which the bytes of an arena hold too little to fill
/// the pool or a shard: 64 MB.
pub const SHORT_ARENA: usize = 0x400_0000;

/// What a symbol interner holds.
///
/// The texts and their order determine everything else: a text belongs to the
/// shard that its hash chooses, and its index there is the number of earlier
/// texts of that shard.
#[verifier::ext_equal]
pub struct InternerView {
    /// How many shards there are.
    pub shard_count: int,
    /// The texts, in the order in which they were interned.
    pub texts: Seq<Seq<char>>,
    /// Whether the arena has turned a text away for want of room.
    pub poisoned: bool,
}

/// The number of shards that an interner gets when asked for `count`.
pub open spec fn shard_count_for(count: nat) -> int {
    if count < 1 {
        1
    } else if count > MAX_SHARD_COUNT {
        MAX_SHARD_COUNT as int
    } else {
        shards::next_pow2(count) as int
    }
}

/// The shard of a text among `shard_count` shards.
pub open spec fn text_shard(shard_count: int, text: Seq<char>) -> int {
    shards::shard_for(hash::text_hash(text), (shard_count - 1) as u64)
}

/// The positions of those texts that belong to `shard`, in order.
pub open spec fn positions(shard_count: int, texts: Seq<Seq<char>>, shard: int) -> Seq<int>
    decreases texts.len(),
{
    if texts.len() == 0 {
        Seq::empty()
    } else {
        let earlier = positions(shard_count, texts.drop_last(), shard);
        if text_shard(shard_count, texts.last()) == shard {
            earlier.push(texts.len() - 1)
        } else {
            earlier
        }
    }
}

impl InternerView {
    /// An interner without texts.
    pub open spec fn empty(shard_count: int) -> InternerView {
        InternerView { shard_count, texts: Seq::empty(), poisoned: false }
    }

    /// The positions of the texts that belong to `shard`, in order.
    pub open spec fn shard_positions(self, shard: int) -> Seq<int> {
        positions(self.shard_count, self.texts, shard)
    }

    /// The shard of a text.
    pub open spec fn shard_of(self, text: Seq<char>) -> int {
        text_shard(self.shard_count, text)
    }

    /// The number of shards is a power of two, no text occurs twice, the arena
    /// lies within its limit, and no shard has given out more symbols than it has.
    pub open spec fn valid(self) -> bool {
        &&& 1 <= self.shard_count <= MAX_SHARD_COUNT
        &&& is_pow2(self.shard_count)
        &&& self.texts.no_duplicates()
        &&& record::arena_len(self.texts) <= ARENA_CAPACITY
        &&& forall|shard: int|
            0 <= shard < self.shard_count ==> (#[trigger] self.shard_positions(shard)).len()
                <= INDEX_MASK
    }

    /// Whether `text` has been interned.
    pub open spec fn has(self, text: Seq<char>) -> bool {
        self.texts.contains(text)
    }

    /// How many texts of the shard of `texts[p]` come before it.
    pub open spec fn index_in_shard(self, p: int) -> int {
        positions(self.shard_count, self.texts.take(p), self.shard_of(self.texts[p])).len() as int
    }

    /// The raw symbol of `texts[p]`.
    pub open spec fn symbol_at(self, p: int) -> u32 {
        symbol::symbol_raw(self.shard_of(self.texts[p]), self.index_in_shard(p)) as u32
    }

    /// The raw symbol of an interned text.
    pub open spec fn symbol_of(self, text: Seq<char>) -> u32 {
        self.symbol_at(self.texts.index_of(text))
    }

    /// The position of the text that a raw symbol stands for, if it stands for one.
    pub open spec fn position_of_symbol(self, raw: u32) -> Option<int> {
        let shard = symbol::raw_shard(raw);
        let index = symbol::raw_index(raw);
        if shard < self.shard_count && 0 <= index < self.shard_positions(shard).len() {
            Some(self.shard_positions(shard)[index])
        } else {
            None
        }
    }

    /// The text that a raw symbol stands for, if it stands for one.
    pub open spec fn resolve(self, raw: u32) -> Option<Seq<char>> {
        match self.position_of_symbol(raw) {
            Some(p) => Some(self.texts[p]),
            None => None,
        }
    }

    /// Where in the arena the text of a raw symbol stands, if it stands for one.
    pub open spec fn offset_of(self, raw: u32) -> Option<u32> {
        match self.position_of_symbol(raw) {
            Some(p) => Some(record::text_offset(self.texts, p) as u32),
            None => None,
        }
    }

    /// The bytes of the arena.
    pub open spec fn bytes(self) -> Seq<u8> {
        record::arena(self.shard_count, self.texts)
    }

    /// The interner once `text` has been interned.
    pub open spec fn intern(self, text: Seq<char>) -> InternerView {
        if self.has(text) {
            self
        } else {
            InternerView { texts: self.texts.push(text), ..self }
        }
    }

    /// What interning `text` leads to: its raw symbol, or why there is none.
    pub open spec fn intern_result(self, text: Seq<char>) -> Result<u32, InternError> {
        if self.has(text) {
            Ok(self.symbol_of(text))
        } else {
            match pool::alloc_result(
                self.poisoned,
                record::arena_len(self.texts),
                ARENA_CAPACITY,
                text,
            ) {
                Err(e) => Err(e),
                Ok(_) => if self.shard_positions(self.shard_of(text)).len() >= INDEX_MASK {
                    Err(InternError::ShardFull)
                } else {
                    Ok(self.intern(text).symbol_of(text))
                },
            }
        }
    }

    /// The interner once it was asked to intern `text`, with or without success.
    pub open spec fn after_intern(self, text: Seq<char>) -> InternerView {
        match self.intern_result(text) {
            Ok(_) => self.intern(text),
            Err(InternError::PoolExhausted) => InternerView { poisoned: true, ..self },
            Err(_) => self,
        }
    }

    /// The interner once all of `texts` have been interned one by one, or why
    /// the first of them that is not taken is not.
    pub open spec fn intern_all(self, texts: Seq<Seq<char>>) -> Result<InternerView, InternError>
        decreases texts.len(),
    {
        if texts.len() == 0 {
            Ok(self)
        } else {
            match self.intern_all(texts.drop_last()) {
                Err(e) => Err(e),
                Ok(earlier) => match earlier.intern_result(texts.last()) {
                    Err(e) => Err(e),
                    Ok(_) => Ok(earlier.intern(texts.last())),
                },
            }
        }
    }
}

/// The number of shards for an interner that is loaded from `bytes`.
pub open spec fn loaded_shard_count(bytes: Seq<u8>) -> int {
    shard_count_for(
        if bytes.len() < 4 {
            DEFAULT_SHARD_COUNT as nat
        } else {
            record::u32_value(bytes.subrange(0, 4)) as nat
        },
    )
}

/// Whether the tables of an interner for `symbols` symbols can be asked for.
pub open spec fn capacity_fits(symbols: int, shard_count: int) -> bool {
    capacity::table_capacity_fits(shards::ceil_div(symbols, shard_count))
}

/// The interner that is loaded from the bytes of an arena, or why there is none.
pub open spec fn load(bytes: Seq<u8>) -> Result<InternerView, InternError> {
    if !capacity_fits(bytes.len() as int / 16, loaded_shard_count(bytes)) {
        Err(InternError::TableTooLarge)
    } else {
        InternerView::empty(loaded_shard_count(bytes)).intern_all(record::texts_from(bytes, 4))
    }
}

pub proof fn lemma_shard_count_for(count: nat)
    ensures
        1 <= shard_count_for(count) <= MAX_SHARD_COUNT,
        is_pow2(shard_count_for(count)),
        is_pow2(count as int) && count <= MAX_SHARD_COUNT ==> shard_count_for(count) == count,
{
    assert(is_pow2(1) && is_pow2(256)) by {
        reveal_with_fuel(is_pow2, 10);
    }
    if 1 <= count <= MAX_SHARD_COUNT {
        shards::next_pow2_bounds(count);
        if is_pow2(count as int) {
            shards::next_pow2_of_pow2(count);
        }
        lemma_next_pow2_within(count);
    } else if is_pow2(count as int) {
        reveal_with_fuel(is_pow2, 1);
    }
}

proof fn lemma_next_pow2_within(count: nat)
    requires
        1 <= count <= 256,
    ensures
        shards::next_pow2(count) <= 256,
{
    reveal_with_fuel(shards::doubled_up_to, 10);
}

pub proof fn lemma_text_shard_in_range(shard_count: int, text: Seq<char>)
    requires
        1 <= shard_count <= MAX_SHARD_COUNT,
    ensures
        0 <= text_shard(shard_count, text) < shard_count,
{
    shards::lemma_shard_in_range(hash::text_hash(text), (shard_count - 1) as u64);
}

pub proof fn lemma_positions_push(
    shard_count: int,
    texts: Seq<Seq<char>>,
    text: Seq<char>,
    shard: int,
)
    ensures
        positions(shard_count, texts.push(text), shard) == if text_shard(shard_count, text)
            == shard {
            positions(shard_count, texts, shard).push(texts.len() as int)
        } else {
            positions(shard_count, texts, shard)
        },
{
    assert(texts.push(text).drop_last() =~= texts);
}

/// The positions of a shard are those of its texts, and each is preceded by as
/// many texts of the shard as its index says.
pub proof fn lemma_positions(shard_count: int, texts: Seq<Seq<char>>, shard: int, i: int)
    requires
        0 <= i < positions(shard_count, texts, shard).len(),
    ensures
        0 <= positions(shard_count, texts, shard)[i] < texts.len(),
        text_shard(shard_count, texts[positions(shard_count, texts, shard)[i]]) == shard,
        positions(
            shard_count,
            texts.take(positions(shard_count, texts, shard)[i]),
            shard,
        ).len() == i,
    decreases texts.len(),
{
    let earlier = positions(shard_count, texts.drop_last(), shard);
    if i < earlier.len() {
        lemma_positions(shard_count, texts.drop_last(), shard, i);
        let p = earlier[i];
        assert(texts.drop_last().take(p) =~= texts.take(p));
    } else {
        assert(texts.take(texts.len() - 1) =~= texts.drop_last());
    }
}

/// Every text stands in the list of its shard, at its index.
pub proof fn lemma_position_listed(shard_count: int, texts: Seq<Seq<char>>, p: int)
    requires
        0 <= p < texts.len(),
    ensures
        ({
            let shard = text_shard(shard_count, texts[p]);
            let index = positions(shard_count, texts.take(p), shard).len();
            &&& index < positions(shard_count, texts, shard).len()
            &&& positions(shard_count, texts, shard)[index as int] == p
        }),
    decreases texts.len(),
{
    let shard = text_shard(shard_count, texts[p]);
    if p == texts.len() - 1 {
        assert(texts.take(p) =~= texts.drop_last());
    } else {
        lemma_position_listed(shard_count, texts.drop_last(), p);
        assert(texts.drop_last().take(p) =~= texts.take(p));
    }
}

/// The shard of a text is what the low bits of its hash say.
pub proof fn shards_follow_the_hash(shard_count: int, text: Seq<char>)
    requires
        1 <= shard_count <= MAX_SHARD_COUNT,
    ensures
        text_shard(shard_count, text) == hash::fx_hash(text, usize::BITS) & (shard_count - 1) as u64,
        0 <= text_shard(shard_count, text) < shard_count,
{
    lemma_text_shard_in_range(shard_count, text);
}

/// The number of shards is the least power of two that is not below the number
/// asked for, between 1 and 256.
pub proof fn shard_count_is_the_least_power(count: nat)
    ensures
        is_pow2(shard_count_for(count)),
        count <= 1 ==> shard_count_for(count) == 1,
        1 < count <= 256 ==> count <= shard_count_for(count) < 2 * count,
        count >= 256 ==> shard_count_for(count) == 256,
{
    lemma_shard_count_for(count);
    if 1 <= count <= MAX_SHARD_COUNT {
        shards::next_pow2_bounds(count);
        if count == 256 {
            lemma_next_pow2_within(count);
        }
    }
}

/// The positions of a shard are those of its texts, each once and in order.
pub proof fn positions_are_those_of_the_shard(
    shard_count: int,
    texts: Seq<Seq<char>>,
    shard: int,
    p: int,
)
    ensures
        positions(shard_count, texts, shard).contains(p) <==> 0 <= p < texts.len() && text_shard(
            shard_count,
            texts[p],
        ) == shard,
        forall|i: int, j: int|
            0 <= i < j < positions(shard_count, texts, shard).len() ==> #[trigger] positions(
                shard_count,
                texts,
                shard,
            )[i] < #[trigger] positions(shard_count, texts, shard)[j],
    decreases texts.len(),
{
    let ps = positions(shard_count, texts, shard);
    if texts.len() > 0 {
        positions_are_those_of_the_shard(shard_count, texts.drop_last(), shard, p);
        let earlier = positions(shard_count, texts.drop_last(), shard);
        assert forall|i: int, j: int| 0 <= i < j < ps.len() implies #[trigger] ps[i]
            < #[trigger] ps[j] by {
            if j == earlier.len() {
                lemma_positions(shard_count, texts.drop_last(), shard, i);
            }
        }
    }
    if ps.contains(p) {
        let i = choose|i: int| 0 <= i < ps.len() && ps[i] == p;
        lemma_positions(shard_count, texts, shard, i);
    }
    if 0 <= p < texts.len() && text_shard(shard_count, texts[p]) == shard {
        lemma_position_listed(shard_count, texts, p);
    }
}

/// Texts that belong to other shards take no index of a shard.
proof fn lemma_positions_skip(shard_count: int, texts: Seq<Seq<char>>, shard: int, p: int, q: int)
    requires
        0 <= p <= q <= texts.len(),
        forall|r: int| p <= r < q ==> text_shard(shard_count, #[trigger] texts[r]) != shard,
    ensures
        positions(shard_count, texts.take(q), shard) == positions(
            shard_count,
            texts.take(p),
            shard,
        ),
    decreases q - p,
{
    if p < q {
        assert(texts.take(q).drop_last() =~= texts.take(q - 1));
        assert(text_shard(shard_count, texts[q - 1]) != shard);
        lemma_positions_skip(shard_count, texts, shard, p, q - 1);
    }
}

/// How many texts belong to the first `n` shards.
pub open spec fn texts_below(shard_count: int, texts: Seq<Seq<char>>, n: nat) -> nat
    decreases n,
{
    if n == 0 {
        0
    } else {
        texts_below(shard_count, texts, (n - 1) as nat) + positions(
            shard_count,
            texts,
            n - 1,
        ).len()
    }
}

proof fn lemma_texts_below_push(
    shard_count: int,
    texts: Seq<Seq<char>>,
    text: Seq<char>,
    n: nat,
)
    ensures
        texts_below(shard_count, texts.push(text), n) == texts_below(shard_count, texts, n) + if 0
            <= text_shard(shard_count, text) < n {
            1nat
        } else {
            0
        },
    decreases n,
{
    if n > 0 {
        lemma_texts_below_push(shard_count, texts, text, (n - 1) as nat);
        lemma_positions_push(shard_count, texts, text, n - 1);
    }
}

proof fn lemma_texts_below_empty(shard_count: int, n: nat)
    ensures
        texts_below(shard_count, Seq::empty(), n) == 0,
    decreases n,
{
    if n > 0 {
        lemma_texts_below_empty(shard_count, (n - 1) as nat);
    }
}

/// Every text belongs to exactly one shard.
pub proof fn shards_partition_texts(shard_count: int, texts: Seq<Seq<char>>)
    requires
        1 <= shard_count <= MAX_SHARD_COUNT,
    ensures
        texts_below(shard_count, texts, shard_count as nat) == texts.len(),
    decreases texts.len(),
{
    if texts.len() == 0 {
        assert(texts =~= Seq::empty());
        lemma_texts_below_empty(shard_count, shard_count as nat);
    } else {
        shards_partition_texts(shard_count, texts.drop_last());
        lemma_texts_below_push(
            shard_count,
            texts.drop_last(),
            texts.last(),
            shard_count as nat,
        );
        lemma_text_shard_in_range(shard_count, texts.last());
        assert(texts.drop_last().push(texts.last()) =~= texts);
    }
}

pub proof fn lemma_texts_below_monotone(
    shard_count: int,
    texts: Seq<Seq<char>>,
    n: nat,
    m: nat,
)
    requires
        n <= m,
    ensures
        texts_below(shard_count, texts, n) <= texts_below(shard_count, texts, m),
    decreases m,
{
    if n < m {
        lemma_texts_below_monotone(shard_count, texts, n, (m - 1) as nat);
    }
}

/// An arena takes at least four bytes for each text.
pub proof fn lemma_texts_len(texts: Seq<Seq<char>>)
    ensures
        4 + 4 * texts.len() <= record::arena_len(texts),
    decreases texts.len(),
{
    if texts.len() > 0 {
        lemma_texts_len(texts.drop_last());
        record::lemma_records_push(texts.drop_last(), texts.last());
        assert(texts.drop_last().push(texts.last()) =~= texts);
    }
}

impl InternerView {
    /// The symbol of a text has the shard and the index of the text.
    pub proof fn lemma_symbol_at(self, p: int)
        requires
            self.valid(),
            0 <= p < self.texts.len(),
        ensures
            0 <= self.shard_of(self.texts[p]) < self.shard_count,
            0 <= self.index_in_shard(p) < INDEX_MASK,
            self.symbol_at(p) == symbol::symbol_raw(
                self.shard_of(self.texts[p]),
                self.index_in_shard(p),
            ),
            symbol::raw_shard(self.symbol_at(p)) == self.shard_of(self.texts[p]),
            symbol::raw_index(self.symbol_at(p)) == self.index_in_shard(p),
            self.position_of_symbol(self.symbol_at(p)) == Some(p),
    {
        let shard = self.shard_of(self.texts[p]);
        lemma_text_shard_in_range(self.shard_count, self.texts[p]);
        lemma_position_listed(self.shard_count, self.texts, p);
        assert(self.shard_positions(shard).len() <= INDEX_MASK);
        symbol::symbol_raw_parts(shard, self.index_in_shard(p));
    }

    /// A raw value that stands for a text is the symbol of that text.
    pub proof fn lemma_position_of_symbol(self, raw: u32)
        requires
            self.valid(),
            self.position_of_symbol(raw) is Some,
        ensures
            0 <= self.position_of_symbol(raw)->0 < self.texts.len(),
            self.symbol_at(self.position_of_symbol(raw)->0) == raw,
    {
        let shard = symbol::raw_shard(raw);
        let index = symbol::raw_index(raw);
        lemma_positions(self.shard_count, self.texts, shard, index);
        let p = self.shard_positions(shard)[index];
        self.lemma_symbol_at(p);
        vstd::arithmetic::div_mod::lemma_fundamental_div_mod(raw as int, SHARD_STRIDE as int);
    }

    pub proof fn lemma_index_of(self, text: Seq<char>)
        requires
            self.has(text),
        ensures
            0 <= self.texts.index_of(text) < self.texts.len(),
            self.texts[self.texts.index_of(text)] == text,
    {
        let i = choose|i: int| 0 <= i < self.texts.len() && self.texts[i] == text;
        assert(self.texts[i] == text);
    }

    /// A new interner holds nothing; the texts of an interner are those listed,
    /// and interning appends a text that is not listed yet and changes nothing
    /// else.
    pub proof fn interning_appends_what_is_new(self, shard_count: int, text: Seq<char>)
        ensures
            InternerView::empty(shard_count).shard_count == shard_count,
            InternerView::empty(shard_count).texts.len() == 0,
            !InternerView::empty(shard_count).poisoned,
            self.has(text) <==> exists|p: int|
                0 <= p < self.texts.len() && #[trigger] self.texts[p] == text,
            self.has(text) ==> self.intern(text) == self,
            !self.has(text) ==> {
                &&& self.intern(text).texts.len() == self.texts.len() + 1
                &&& self.intern(text).texts[self.texts.len() as int] == text
                &&& forall|p: int|
                    0 <= p < self.texts.len() ==> #[trigger] self.intern(text).texts[p]
                        == self.texts[p]
                &&& self.intern(text).shard_count == self.shard_count
                &&& self.intern(text).poisoned == self.poisoned
            },
    {
    }

    /// When a new text is taken, and why it is not: a poisoned arena takes none,
    /// the length must fit a `u32` together with its own four bytes, the record
    /// must fit the 256 MB of the arena, and its shard must have an index left.
    pub proof fn room_decides_what_is_taken(self, text: Seq<char>)
        requires
            !self.has(text),
        ensures
            ({
                let size = 4 + encode_utf8(text).len();
                let used = self.bytes().len();
                let result = self.intern_result(text);
                &&& self.poisoned ==> result == Err::<u32, InternError>(InternError::PoolExhausted)
                &&& !self.poisoned && size > 0xFFFF_FFFF ==> result == Err::<u32, InternError>(
                    InternError::TextTooLong,
                )
                &&& !self.poisoned && size <= 0xFFFF_FFFF && used + size > 0x1000_0000 ==> result
                    == Err::<u32, InternError>(InternError::PoolExhausted)
                &&& !self.poisoned && size <= 0xFFFF_FFFF && used + size <= 0x1000_0000
                    && self.shard_positions(self.shard_of(text)).len() >= 0xFF_FFFF ==> result
                    == Err::<u32, InternError>(InternError::ShardFull)
                &&& !self.poisoned && size <= 0xFFFF_FFFF && used + size <= 0x1000_0000
                    && self.shard_positions(self.shard_of(text)).len() < 0xFF_FFFF ==> result
                    == Ok::<u32, InternError>(self.intern(text).symbol_of(text))
            }),
    {
        record::lemma_arena_len(self.shard_count, self.texts);
    }

    /// What a request for a text leaves behind: the text where it is taken, a
    /// poisoned arena where it has no room, and nothing else.
    pub proof fn requests_change_nothing_else(self, text: Seq<char>)
        ensures
            self.has(text) ==> self.intern_result(text) == Ok::<u32, InternError>(
                self.symbol_of(text),
            ) && self.after_intern(text) == self,
            self.intern_result(text) is Ok ==> self.after_intern(text) == self.intern(text),
            self.intern_result(text) is Err ==> {
                &&& self.after_intern(text).texts == self.texts
                &&& self.after_intern(text).shard_count == self.shard_count
                &&& self.after_intern(text).poisoned == (self.poisoned || self.intern_result(text)
                    == Err::<u32, InternError>(InternError::PoolExhausted))
            },
    {
    }

    /// The first text of a shard gets the first symbol of the shard, and every
    /// text a symbol of its shard.
    pub proof fn first_symbols_of_shards(self, p: int)
        requires
            self.valid(),
            0 <= p < self.texts.len(),
        ensures
            self.symbol_of(self.texts[p]) == self.symbol_at(p),
            symbol::raw_shard(self.symbol_at(p)) == self.shard_of(self.texts[p]),
            (forall|r: int|
                0 <= r < p ==> self.shard_of(#[trigger] self.texts[r]) != self.shard_of(
                    self.texts[p],
                )) ==> self.symbol_at(p) == self.shard_of(self.texts[p]) * 0x100_0000 + 1,
    {
        let shard = self.shard_of(self.texts[p]);
        self.lemma_symbol_at(p);
        assert(self.has(self.texts[p]));
        self.lemma_index_of(self.texts[p]);
        assert(self.texts.index_of(self.texts[p]) == p);
        if forall|r: int| 0 <= r < p ==> self.shard_of(#[trigger] self.texts[r]) != shard {
            lemma_positions_skip(self.shard_count, self.texts, shard, 0, p);
            assert(self.texts.take(0) =~= Seq::empty());
        }
    }

    /// Symbols of a shard are given out in order: the next text of the same
    /// shard gets the next symbol.
    pub proof fn symbols_are_given_out_in_order(self, p: int, q: int)
        requires
            self.valid(),
            0 <= p < q < self.texts.len(),
            self.shard_of(self.texts[p]) == self.shard_of(self.texts[q]),
            forall|r: int|
                p < r < q ==> self.shard_of(#[trigger] self.texts[r]) != self.shard_of(
                    self.texts[q],
                ),
        ensures
            self.symbol_of(self.texts[q]) == self.symbol_of(self.texts[p]) + 1,
    {
        let shard = self.shard_of(self.texts[p]);
        self.lemma_symbol_at(p);
        self.lemma_symbol_at(q);
        self.first_symbols_of_shards(p);
        self.first_symbols_of_shards(q);
        lemma_positions_skip(self.shard_count, self.texts, shard, p + 1, q);
        assert(self.texts.take(p + 1).drop_last() =~= self.texts.take(p));
    }

    /// The bytes of an interner are its number of shards, and behind it the
    /// length and the UTF-8 form of every text in the order of interning; the
    /// offset of a symbol is where its text was put.
    pub proof fn bytes_follow_the_texts(self, text: Seq<char>)
        requires
            self.valid(),
            self.intern_result(text) is Ok,
        ensures
            self.texts.len() == 0 ==> self.bytes() == record::u32_bytes(self.shard_count as u32),
            !self.has(text) ==> {
                &&& self.intern(text).bytes() == self.bytes() + record::u32_bytes(
                    encode_utf8(text).len() as u32,
                ) + encode_utf8(text)
                &&& self.intern(text).offset_of(self.intern(text).symbol_of(text)) == Some(
                    self.bytes().len() as u32,
                )
                &&& self.intern(text).resolve(self.intern(text).symbol_of(text)) == Some(text)
            },
    {
        record::arenas_grow_by_length_and_text(self.shard_count, self.texts, text);
        if self.texts.len() == 0 {
            assert(self.texts =~= Seq::empty());
        }
        if !self.has(text) {
            let after = self.intern(text);
            let p = self.texts.len() as int;
            self.intern_keeps_valid(text);
            self.intern_is_idempotent(text);
            after.lemma_index_of(text);
            assert(after.texts[p] == text);
            assert(after.texts.index_of(text) == p);
            after.lemma_symbol_at(p);
        }
    }

    /// Interning many texts is interning all but the last and then the last; the
    /// first one that is not taken decides.
    pub proof fn many_are_interned_one_by_one(self, texts: Seq<Seq<char>>, text: Seq<char>)
        ensures
            self.intern_all(Seq::empty()) == Ok::<InternerView, InternError>(self),
            match self.intern_all(texts) {
                Err(e) => self.intern_all(texts.push(text)) == Err::<InternerView, InternError>(e),
                Ok(v) => match v.intern_result(text) {
                    Err(e) => self.intern_all(texts.push(text)) == Err::<InternerView, InternError>(
                        e,
                    ),
                    Ok(_) => self.intern_all(texts.push(text)) == Ok::<InternerView, InternError>(
                        v.intern(text),
                    ),
                },
            },
    {
        assert(texts.push(text).drop_last() =~= texts);
    }

    /// The symbol of an interned text stands for that text.
    pub proof fn symbol_resolves_to_its_text(self, text: Seq<char>)
        requires
            self.valid(),
            self.has(text),
        ensures
            self.symbol_of(text) != 0,
            self.resolve(self.symbol_of(text)) == Some(text),
    {
        self.lemma_index_of(text);
        self.lemma_symbol_at(self.texts.index_of(text));
    }

    /// Only symbols of interned texts stand for a text: what resolves to a
    /// text is the symbol of that text.
    pub proof fn resolved_symbol_is_the_symbol_of_its_text(self, raw: u32)
        requires
            self.valid(),
            self.resolve(raw) is Some,
        ensures
            self.has(self.resolve(raw)->0),
            self.symbol_of(self.resolve(raw)->0) == raw,
    {
        self.lemma_position_of_symbol(raw);
        let p = self.position_of_symbol(raw)->0;
        let text = self.texts[p];
        assert(self.has(text));
        self.lemma_index_of(text);
        assert(self.texts.index_of(text) == p);
    }

    /// One text has one symbol, and different texts have different symbols.
    pub proof fn symbols_tell_texts_apart(self, a: Seq<char>, b: Seq<char>)
        requires
            self.valid(),
            self.has(a),
            self.has(b),
        ensures
            self.symbol_of(a) == self.symbol_of(b) <==> a == b,
    {
        self.symbol_resolves_to_its_text(a);
        self.symbol_resolves_to_its_text(b);
    }

    /// Interning a text makes it known and makes nothing else known; doing it
    /// again changes nothing.
    pub proof fn intern_is_idempotent(self, text: Seq<char>)
        ensures
            self.intern(text).has(text),
            forall|other: Seq<char>| #[trigger]
                self.intern(text).has(other) <==> self.has(other) || other == text,
            self.intern(text).intern(text) == self.intern(text),
            self.intern(text).texts.len() == self.texts.len() + if self.has(text) {
                0int
            } else {
                1
            },
    {
        if !self.has(text) {
            let pushed = self.texts.push(text);
            assert(pushed[pushed.len() - 1] == text);
            assert forall|other: Seq<char>| #[trigger]
                self.intern(text).has(other) <==> self.has(other) || other == text by {
                if self.has(other) {
                    self.lemma_index_of(other);
                    assert(pushed[self.texts.index_of(other)] == other);
                }
                if pushed.contains(other) {
                    let i = choose|i: int| 0 <= i < pushed.len() && pushed[i] == other;
                    if i < self.texts.len() {
                        assert(self.texts[i] == other);
                    }
                }
            }
        }
    }

    /// An interner stays valid when it takes a text.
    pub proof fn intern_keeps_valid(self, text: Seq<char>)
        requires
            self.valid(),
            self.intern_result(text) is Ok,
        ensures
            self.intern(text).valid(),
    {
        if !self.has(text) {
            record::lemma_records_push(self.texts, text);
            let after = self.intern(text);
            assert forall|shard: int| 0 <= shard < after.shard_count implies (
            #[trigger] after.shard_positions(shard)).len() <= INDEX_MASK by {
                lemma_positions_push(self.shard_count, self.texts, text, shard);
                assert(self.shard_positions(shard).len() <= INDEX_MASK);
            }
            assert(after.texts.no_duplicates()) by {
                assert forall|i: int, j: int|
                    0 <= i < after.texts.len() && 0 <= j < after.texts.len() && i
                        != j implies after.texts[i] != after.texts[j] by {
                    if i < self.texts.len() {
                        assert(self.texts[i] != text);
                    }
                    if j < self.texts.len() {
                        assert(self.texts[j] != text);
                    }
                }
            }
        }
    }

    /// Interning moves nothing: the texts interned before keep their positions,
    /// and so their symbols.
    pub proof fn lemma_intern_keeps_symbol_at(self, text: Seq<char>, p: int)
        requires
            0 <= p < self.texts.len(),
        ensures
            self.intern(text).texts[p] == self.texts[p],
            self.intern(text).symbol_at(p) == self.symbol_at(p),
            record::text_offset(self.intern(text).texts, p) == record::text_offset(self.texts, p),
    {
        if !self.has(text) {
            assert(self.texts.push(text).take(p) =~= self.texts.take(p));
        }
    }

    /// A text keeps its symbol when another one is interned.
    pub proof fn intern_keeps_symbol_of(self, text: Seq<char>, known: Seq<char>)
        requires
            self.valid(),
            self.intern_result(text) is Ok,
            self.has(known),
        ensures
            self.intern(text).has(known),
            self.intern(text).symbol_of(known) == self.symbol_of(known),
    {
        let after = self.intern(text);
        self.intern_keeps_valid(text);
        self.lemma_index_of(known);
        let p = self.texts.index_of(known);
        self.lemma_intern_keeps_symbol_at(text, p);
        assert(after.texts[p] == known);
        after.lemma_index_of(known);
        assert(after.texts.index_of(known) == p);
    }

    /// A symbol, once given out, stands for the same text and for the same
    /// place in the arena ever after.
    pub proof fn intern_keeps_resolved(self, text: Seq<char>, raw: u32)
        requires
            self.valid(),
            self.intern_result(text) is Ok,
            self.resolve(raw) is Some,
        ensures
            self.intern(text).resolve(raw) == self.resolve(raw),
            self.intern(text).offset_of(raw) == self.offset_of(raw),
    {
        let after = self.intern(text);
        self.intern_keeps_valid(text);
        self.lemma_position_of_symbol(raw);
        let q = self.position_of_symbol(raw)->0;
        self.lemma_intern_keeps_symbol_at(text, q);
        after.lemma_symbol_at(q);
    }

    /// Being asked for a text keeps an interner valid, whether it takes the
    /// text or not.
    pub proof fn after_intern_keeps_valid(self, text: Seq<char>)
        requires
            self.valid(),
        ensures
            self.after_intern(text).valid(),
            self.intern_result(text) is Err ==> self.after_intern(text).texts == self.texts,
    {
        if self.intern_result(text) is Ok {
            self.intern_keeps_valid(text);
        } else {
            let after = self.after_intern(text);
            assert forall|shard: int| 0 <= shard < after.shard_count implies (
            #[trigger] after.shard_positions(shard)).len() <= INDEX_MASK by {
                assert(self.shard_positions(shard).len() <= INDEX_MASK);
            }
        }
    }

    /// Once the arena had no room for a text, no new text is taken, however
    /// short; the texts taken before keep their symbols.
    pub proof fn exhausted_stays_exhausted(self, text: Seq<char>, other: Seq<char>)
        requires
            self.intern_result(text) == Err::<u32, InternError>(InternError::PoolExhausted),
        ensures
            self.has(other) ==> self.after_intern(text).intern_result(other) == Ok::<
                u32,
                InternError,
            >(self.symbol_of(other)),
            !self.has(other) ==> self.after_intern(text).intern_result(other) == Err::<
                u32,
                InternError,
            >(InternError::PoolExhausted),
    {
    }

    /// The arena only grows: its bytes stay where they are.
    pub proof fn intern_extends_bytes(self, text: Seq<char>)
        ensures
            self.bytes().is_prefix_of(self.intern(text).bytes()),
    {
        if !self.has(text) {
            record::lemma_records_push(self.texts, text);
            assert(self.intern(text).bytes() =~= self.bytes() + record::record(text));
        }
    }

    /// The offset of a symbol leads to its text in the bytes of the arena.
    pub proof fn offset_leads_to_text(self, raw: u32)
        requires
            self.valid(),
        ensures
            self.offset_of(raw) is Some <==> self.resolve(raw) is Some,
            self.offset_of(raw) matches Some(offset) ==> offset != 0 && record::text_at(
                self.bytes(),
                offset as int,
            ) == self.resolve(raw),
    {
        if self.position_of_symbol(raw) is Some {
            self.lemma_position_of_symbol(raw);
            let p = self.position_of_symbol(raw)->0;
            record::lemma_arena_text(self.shard_count, self.texts, p);
            record::lemma_records_subrange(self.texts, p);
        }
    }

    /// Interning many texts makes exactly these known, besides those known
    /// before, and keeps the interner valid.
    pub proof fn intern_all_takes_every_text(self, texts: Seq<Seq<char>>, text: Seq<char>)
        requires
            self.valid(),
            self.intern_all(texts) is Ok,
        ensures
            self.intern_all(texts)->Ok_0.valid(),
            self.intern_all(texts)->Ok_0.shard_count == self.shard_count,
            self.intern_all(texts)->Ok_0.has(text) <==> self.has(text) || texts.contains(text),
        decreases texts.len(),
    {
        if texts.len() > 0 {
            let last = texts.last();
            self.intern_all_takes_every_text(texts.drop_last(), text);
            let earlier = self.intern_all(texts.drop_last())->Ok_0;
            earlier.intern_keeps_valid(last);
            earlier.intern_is_idempotent(last);
            assert(self.intern_all(texts)->Ok_0.has(text) <==> earlier.has(text) || text == last);
            assert(texts.contains(text) <==> texts.drop_last().contains(text) || text == last) by {
                assert(texts =~= texts.drop_last().push(last));
                if texts.contains(text) {
                    let i = choose|i: int| 0 <= i < texts.len() && texts[i] == text;
                    if i < texts.len() - 1 {
                        assert(texts.drop_last()[i] == text);
                    }
                }
                if texts.drop_last().contains(text) {
                    let i = choose|i: int|
                        0 <= i < texts.drop_last().len() && texts.drop_last()[i] == text;
                    assert(texts[i] == text);
                }
                assert(texts[texts.len() - 1] == last);
            }
        }
    }

    /// A symbol, once given out, stands for the same text however many texts
    /// are interned after it, and that text keeps its symbol.
    pub proof fn intern_all_keeps_symbols(self, texts: Seq<Seq<char>>, known: Seq<char>)
        requires
            self.valid(),
            self.intern_all(texts) is Ok,
            self.has(known),
        ensures
            self.intern_all(texts)->Ok_0.has(known),
            self.intern_all(texts)->Ok_0.symbol_of(known) == self.symbol_of(known),
            self.intern_all(texts)->Ok_0.resolve(self.symbol_of(known)) == Some(known),
        decreases texts.len(),
    {
        if texts.len() > 0 {
            self.intern_all_takes_every_text(texts.drop_last(), known);
            self.intern_all_keeps_symbols(texts.drop_last(), known);
            let earlier = self.intern_all(texts.drop_last())->Ok_0;
            earlier.intern_keeps_symbol_of(texts.last(), known);
        }
        self.intern_all_takes_every_text(texts, known);
        self.intern_all(texts)->Ok_0.symbol_resolves_to_its_text(known);
    }

    pub proof fn lemma_intern_all_prefix(self, count: int)
        requires
            self.valid(),
            0 <= count <= self.texts.len(),
        ensures
            InternerView::empty(self.shard_count).intern_all(self.texts.take(count)) == Ok::<
                InternerView,
                InternError,
            >(
                (InternerView {
                    shard_count: self.shard_count,
                    texts: self.texts.take(count),
                    poisoned: false,
                }),
            ),
        decreases count,
    {
        if count > 0 {
            let prefix = self.texts.take(count);
            let text = self.texts[count - 1];
            self.lemma_intern_all_prefix(count - 1);
            assert(prefix.drop_last() =~= self.texts.take(count - 1));
            assert(prefix =~= self.texts.take(count - 1).push(text));
            let earlier = InternerView {
                shard_count: self.shard_count,
                texts: self.texts.take(count - 1),
                poisoned: false,
            };
            assert(!earlier.has(text));
            record::lemma_records_push(earlier.texts, text);
            record::lemma_records_subrange(self.texts, count - 1);
            lemma_position_listed(self.shard_count, self.texts, count - 1);
            lemma_text_shard_in_range(self.shard_count, text);
            assert(self.shard_positions(self.shard_of(text)).len() <= INDEX_MASK);
            assert(earlier.intern_result(text) is Ok);
        } else {
            assert(self.texts.take(0) =~= Seq::empty());
        }
    }

    /// Loading the bytes of an interner gives back the interner: its shards,
    /// its texts and so all of its symbols.
    pub proof fn bytes_round_trip(self)
        requires
            self.valid(),
        ensures
            load(self.bytes()) == Ok::<InternerView, InternError>(
                (InternerView { poisoned: false, ..self }),
            ),
    {
        let bytes = self.bytes();
        record::arena_round_trip(self.shard_count, self.texts);
        record::lemma_arena_len(self.shard_count, self.texts);
        record::u32_round_trip(self.shard_count as u32);
        assert(bytes.subrange(0, 4) =~= record::u32_bytes(self.shard_count as u32));
        lemma_shard_count_for(self.shard_count as nat);
        assert(loaded_shard_count(bytes) == self.shard_count);
        lemma_arena_capacity_fits(bytes.len() as int, self.shard_count);
        self.lemma_intern_all_prefix(self.texts.len() as int);
        assert(self.texts.take(self.texts.len() as int) =~= self.texts);
    }
}

proof fn lemma_positions_len(shard_count: int, texts: Seq<Seq<char>>, shard: int)
    ensures
        positions(shard_count, texts, shard).len() <= texts.len(),
    decreases texts.len(),
{
    if texts.len() > 0 {
        lemma_positions_len(shard_count, texts.drop_last(), shard);
    }
}

/// Texts that fit into the arena and into every shard are all taken.
proof fn lemma_intern_all_fits(v: InternerView, texts: Seq<Seq<char>>)
    requires
        !v.poisoned,
        record::arena_len(v.texts) + record::records(texts).len() <= ARENA_CAPACITY,
        v.texts.len() + texts.len() <= INDEX_MASK,
    ensures
        v.intern_all(texts) matches Ok(after) && {
            &&& !after.poisoned
            &&& record::arena_len(after.texts) <= record::arena_len(v.texts) + record::records(
                texts,
            ).len()
            &&& after.texts.len() <= v.texts.len() + texts.len()
        },
    decreases texts.len(),
{
    if texts.len() > 0 {
        let text = texts.last();
        assert(texts.drop_last().push(text) =~= texts);
        record::lemma_records_push(texts.drop_last(), text);
        lemma_intern_all_fits(v, texts.drop_last());
        let earlier = v.intern_all(texts.drop_last())->Ok_0;
        record::lemma_records_push(earlier.texts, text);
        lemma_positions_len(earlier.shard_count, earlier.texts, earlier.shard_of(text));
    }
}

/// Bytes up to the short length can always be loaded.
pub proof fn short_bytes_load(bytes: Seq<u8>)
    requires
        bytes.len() <= SHORT_ARENA,
    ensures
        load(bytes) is Ok,
{
    let count = if bytes.len() < 4 {
        DEFAULT_SHARD_COUNT as nat
    } else {
        record::u32_value(bytes.subrange(0, 4)) as nat
    };
    lemma_shard_count_for(count);
    lemma_arena_capacity_fits(bytes.len() as int, loaded_shard_count(bytes));
    let texts = record::texts_from(bytes, 4);
    record::lemma_texts_from_len(bytes, 4);
    lemma_texts_len(texts);
    if bytes.len() < 4 {
        assert(texts =~= Seq::empty());
    }
    lemma_intern_all_fits(InternerView::empty(loaded_shard_count(bytes)), texts);
}

/// Loading starts from an interner without texts, with the number of shards in
/// the header or 16 where there is none, and interns the texts of the bytes one
/// by one; it fails otherwise only where its tables would be too large.
pub proof fn loading_interns_the_texts(bytes: Seq<u8>, symbols: int, shard_count: int)
    ensures
        capacity_fits(symbols, shard_count) <==> capacity::table_capacity_fits(
            shards::ceil_div(symbols, shard_count),
        ),
        bytes.len() < 4 ==> loaded_shard_count(bytes) == 16,
        bytes.len() >= 4 ==> loaded_shard_count(bytes) == shard_count_for(
            record::u32_value(bytes.subrange(0, 4)) as nat,
        ),
        capacity::table_capacity_fits(
            shards::ceil_div(bytes.len() as int / 16, loaded_shard_count(bytes)),
        ) ==> load(bytes) == InternerView::empty(loaded_shard_count(bytes)).intern_all(
            record::texts_from(bytes, 4),
        ),
        !capacity::table_capacity_fits(
            shards::ceil_div(bytes.len() as int / 16, loaded_shard_count(bytes)),
        ) ==> load(bytes) == Err::<InternerView, InternError>(InternError::TableTooLarge),
{
    reveal_with_fuel(shards::doubled_up_to, 6);
}

/// A loaded interner is valid and holds exactly the texts of the bytes.
pub proof fn loading_takes_every_text(bytes: Seq<u8>, text: Seq<char>)
    requires
        load(bytes) is Ok,
    ensures
        load(bytes)->Ok_0.valid(),
        load(bytes)->Ok_0.shard_count == loaded_shard_count(bytes),
        load(bytes)->Ok_0.has(text) <==> record::texts_from(bytes, 4).contains(text),
{
    let count = if bytes.len() < 4 {
        DEFAULT_SHARD_COUNT as nat
    } else {
        record::u32_value(bytes.subrange(0, 4)) as nat
    };
    lemma_shard_count_for(count);
    let start = InternerView::empty(loaded_shard_count(bytes));
    assert(start.valid());
    start.intern_all_takes_every_text(record::texts_from(bytes, 4), text);
}

/// The tables for an arena within its limit can be asked for.
pub proof fn lemma_arena_capacity_fits(len: int, shard_count: int)
    requires
        0 <= len <= ARENA_CAPACITY,
        1 <= shard_count,
    ensures
        capacity_fits(len / 16, shard_count),
{
    let symbols = len / 16;
    assert(shards::ceil_div(symbols, shard_count) <= symbols + 1) by {
        assert(symbols / shard_count <= symbols) by (nonlinear_arith)
            requires
                symbols >= 0,
                shard_count >= 1,
        ;
    }
    assert(isize::MAX >= 0x7FFF_FFFF);
}

} // verus!
