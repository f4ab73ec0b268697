//! Why a text cannot be interned.
use vstd::prelude::*;

verus! {

/// Why a [`SymbolInterner`](crate::SymbolInterner) does not take a new text.
#[derive(Debug, Clone, Copy, PartialEq, Eq, Structural, Hash)]
pub enum InternError {
    /// The arena has no room for the text, or it had none for an earlier one.
    PoolExhausted,
    /// The length of the text does not fit the length field of a record.
    TextTooLong,
    /// The shard that the text belongs to has given out all of its symbols.
    ShardFull,
    /// The hash tables for so many symbols would be larger than memory can be.
    TableTooLarge,
}

} // verus!
