//! Symbols: four-byte handles for interned texts.
use std::cmp::Ordering;
use vstd::prelude::*;
use vstd::std_specs::cmp::{PartialOrdIs, PartialOrdSpecImpl};

verus! {

/// The bits of a raw symbol that hold one more than the index in the shard.
pub const INDEX_MASK: u32 = 0x00FF_FFFF;

/// How many raw values one shard takes up.
pub const SHARD_STRIDE: u32 = 0x0100_0000;

/// A handle for a text of a [`SymbolInterner`](crate::SymbolInterner).
///
/// The top eight bits name the shard, the rest holds one more than the index
/// of the text in that shard. A raw value is never zero.
#[derive(Debug, Clone, Copy, PartialEq, Eq, Structural, Hash, Ord)]
pub struct Symbol {
    raw: u32,
}

/// The raw value of the symbol for the text at `index` of shard `shard`.
pub open spec fn symbol_raw(shard: int, index: int) -> int {
    shard * SHARD_STRIDE + index + 1
}

/// The shard that a raw value names.
pub open spec fn raw_shard(raw: u32) -> int {
    raw as int / SHARD_STRIDE as int
}

/// The index in its shard that a raw value names; -1 where its low bits are all zero.
pub open spec fn raw_index(raw: u32) -> int {
    raw as int % SHARD_STRIDE as int - 1
}

/// A symbol with a given shard and index names that shard and that index.
pub proof fn symbol_raw_parts(shard: int, index: int)
    requires
        0 <= shard < 256,
        0 <= index < INDEX_MASK,
    ensures
        0 < symbol_raw(shard, index) <= u32::MAX,
        raw_shard(symbol_raw(shard, index) as u32) == shard,
        raw_index(symbol_raw(shard, index) as u32) == index,
{
    vstd::arithmetic::div_mod::lemma_fundamental_div_mod_converse(
        symbol_raw(shard, index),
        SHARD_STRIDE as int,
        shard,
        index + 1,
    );
}

/// The top eight bits of a raw value name the shard, and the others hold one
/// more than the index.
pub proof fn raw_values_are_shard_and_index(raw: u32, shard: int, index: int)
    ensures
        raw == raw_shard(raw) * 0x100_0000 + raw_index(raw) + 1,
        0 <= raw_shard(raw) < 256,
        -1 <= raw_index(raw) < 0xFF_FFFF,
        symbol_raw(shard, index) == shard * 0x100_0000 + index + 1,
        INDEX_MASK == 0xFF_FFFF,
        SHARD_STRIDE == 0x100_0000,
{
    vstd::arithmetic::div_mod::lemma_fundamental_div_mod(raw as int, SHARD_STRIDE as int);
}

/// Symbols of different shards, or of different indices in one shard, differ.
pub proof fn symbol_raw_injective(shard1: int, index1: int, shard2: int, index2: int)
    requires
        0 <= shard1 < 256,
        0 <= index1 < INDEX_MASK,
        0 <= shard2 < 256,
        0 <= index2 < INDEX_MASK,
        symbol_raw(shard1, index1) == symbol_raw(shard2, index2),
    ensures
        shard1 == shard2,
        index1 == index2,
{
    symbol_raw_parts(shard1, index1);
    symbol_raw_parts(shard2, index2);
}

impl View for Symbol {
    type V = u32;

    /// The raw value.
    closed spec fn view(&self) -> u32 {
        self.raw
    }
}

impl Symbol {
    #[verifier::type_invariant]
    spec fn nonzero(self) -> bool {
        self.raw != 0
    }

    /// What a raw value stands for: a symbol, unless it is zero.
    pub closed spec fn of_raw(raw: u32) -> Option<Symbol> {
        if raw == 0 {
            None
        } else {
            Some(Symbol { raw })
        }
    }

    /// Two symbols with one raw value are the same symbol.
    pub proof fn same_raw_same_symbol(a: Symbol, b: Symbol)
        requires
            a@ == b@,
        ensures
            a == b,
    {
    }

    /// Symbols are ordered as their raw values are, and the same symbols have
    /// the same raw value.
    pub proof fn ordered_as_raw(a: Symbol, b: Symbol)
        ensures
            a.is_lt(&b) <==> a@ < b@,
            a.is_le(&b) <==> a@ <= b@,
            a.is_gt(&b) <==> a@ > b@,
            a.is_ge(&b) <==> a@ >= b@,
            a == b <==> a@ == b@,
    {
    }

    /// Going to the raw value and back gives the symbol, and a nonzero raw
    /// value comes back unchanged from the symbol it stands for.
    pub proof fn raw_round_trip(symbol: Symbol, raw: u32)
        requires
            symbol@ != 0,
            raw != 0,
        ensures
            Symbol::of_raw(symbol@) == Some(symbol),
            Symbol::of_raw(raw) matches Some(s) && s@ == raw,
            Symbol::of_raw(0) is None,
    {
    }

    /// The symbol for the text at `index` of shard `shard_id`.
    pub(crate) fn new(shard_id: u8, index: usize) -> (symbol: Symbol)
        requires
            index < INDEX_MASK,
        ensures
            symbol@ == symbol_raw(shard_id as int, index as int),
    {
        let shard: u32 = shard_id as u32;
        let slot: u32 = index as u32 + 1;
        assert(((shard << 24) | slot) == shard * 0x0100_0000 + slot) by (bit_vector)
            requires
                shard < 256,
                slot <= 0x00FF_FFFF,
        ;
        let raw: u32 = (shard << 24) | slot;
        Symbol { raw }
    }

    /// The shard that holds the text.
    pub(crate) fn shard_id(&self) -> (id: usize)
        ensures
            id == raw_shard(self@),
            id < 256,
    {
        let raw: u32 = self.raw;
        assert(raw >> 24 == raw / 0x0100_0000) by (bit_vector);
        (raw >> 24) as usize
    }

    /// The index of the text in its shard.
    pub(crate) fn index(&self) -> (index: usize)
        requires
            raw_index(self@) >= 0,
        ensures
            index == raw_index(self@),
            index < INDEX_MASK,
    {
        let raw: u32 = self.raw;
        assert(raw & 0x00FF_FFFF == raw % 0x0100_0000) by (bit_vector);
        (raw & INDEX_MASK) as usize - 1
    }

    /// The raw value of the symbol, which is never zero.
    pub fn into_raw(self) -> (raw: u32)
        ensures
            raw == self@,
            raw != 0,
            Symbol::of_raw(raw) == Some(self),
    {
        proof {
            use_type_invariant(&self);
        }
        self.raw
    }

    /// The symbol with the given raw value; none for zero.
    pub fn from_raw(raw: u32) -> (symbol: Option<Symbol>)
        ensures
            symbol == Symbol::of_raw(raw),
            symbol is Some <==> raw != 0,
            symbol matches Some(s) ==> s@ == raw,
    {
        if raw == 0 {
            None
        } else {
            Some(Symbol { raw })
        }
    }
}

impl PartialOrdSpecImpl for Symbol {
    open spec fn obeys_partial_cmp_spec() -> bool {
        true
    }

    /// Symbols are ordered as their raw values are.
    open spec fn partial_cmp_spec(&self, other: &Symbol) -> Option<Ordering> {
        if self@ < other@ {
            Some(Ordering::Less)
        } else if self@ > other@ {
            Some(Ordering::Greater)
        } else {
            Some(Ordering::Equal)
        }
    }
}

impl PartialOrd for Symbol {
    fn partial_cmp(&self, other: &Symbol) -> (order: Option<Ordering>)
        ensures
            order == Some(Ordering::Less) <==> self@ < other@,
            order == Some(Ordering::Equal) <==> self@ == other@,
            order == Some(Ordering::Greater) <==> self@ > other@,
    {
        if self.raw < other.raw {
            Some(Ordering::Less)
        } else if self.raw > other.raw {
            Some(Ordering::Greater)
        } else {
            Some(Ordering::Equal)
        }
    }
}

} // verus!
