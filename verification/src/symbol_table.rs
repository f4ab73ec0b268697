//! The hash table of one shard, from the hash of a text to its symbol.
use crate::capacity;
use vstd::multiset::Multiset;
use vstd::prelude::*;

verus! {

/// How many entries a table can take and still grow on every machine.
pub const MAX_ENTRIES: usize = 0x100_0000;

/// A [`hashbrown::HashTable`] whose entries are the hash of a text, the first
/// four bytes of the text as a number, and the raw symbol of the text. Each
/// entry is filed under the hash that it holds.
#[verifier::external_body]
pub struct SymbolTable {
    entries: hashbrown::HashTable<(u64, u32, u32)>,
}

/// The entries that a table holds.
pub uninterp spec fn table_entries(table: SymbolTable) -> Multiset<(u64, u32, u32)>;

impl SymbolTable {
    /// [`hashbrown::HashTable::with_capacity`]: a table without entries. How
    /// much it has allocated is left unsaid.
    #[verifier::external_body]
    pub(crate) fn with_capacity(capacity: usize) -> (table: SymbolTable)
        requires
            capacity::table_capacity_fits(capacity as int),
        ensures
            table_entries(table) == Multiset::<(u64, u32, u32)>::empty(),
    {
        SymbolTable { entries: hashbrown::HashTable::with_capacity(capacity) }
    }

    /// [`hashbrown::HashTable::find`]: an entry that `eq` accepts, or none
    /// where `eq` turns down every entry with the given hash.
    #[verifier::external_body]
    pub(crate) fn find<F: Fn(&(u64, u32, u32)) -> bool>(&self, hash: u64, eq: F) -> (found: Option<
        &(u64, u32, u32),
    >)
        requires
            forall|e: (u64, u32, u32)| #[trigger]
                table_entries(*self).contains(e) ==> eq.requires((&e,)),
        ensures
            match found {
                Some(e) => table_entries(*self).contains(*e) && eq.ensures((e,), true),
                None => forall|e: (u64, u32, u32)| #[trigger]
                    table_entries(*self).contains(e) && e.0 == hash ==> eq.ensures((&e,), false),
            },
    {
        self.entries.find(hash, eq)
    }

    /// [`hashbrown::HashTable::insert_unique`]: adds an entry, filed under its
    /// own hash.
    #[verifier::external_body]
    pub(crate) fn insert_unique(&mut self, entry: (u64, u32, u32))
        requires
            table_entries(*old(self)).len() < MAX_ENTRIES,
        ensures
            table_entries(*final(self)) == table_entries(*old(self)).insert(entry),
    {
        self.entries.insert_unique(entry.0, entry, |e| e.0);
    }
}

} // verus!
