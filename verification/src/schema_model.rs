//! What a schema holds, and the laws of looking things up in it.
use crate::interner_model::InternerView;
use crate::schema_parts::{Column, ForeignKey, TableMeta};
use crate::symbol::Symbol;
use vstd::prelude::*;

verus! {

/// What a schema holds.
#[verifier::ext_equal]
pub struct SchemaView {
    /// The tables.
    pub tables: Seq<TableMeta>,
    /// The indices of the tables, in the order of the symbols of their names.
    pub by_name: Seq<u16>,
    /// The columns of all tables.
    pub columns: Seq<Column>,
    /// The names of the columns.
    pub column_names: Seq<Symbol>,
    /// The constraints of all columns.
    pub constraint_pool: Seq<Symbol>,
    /// The foreign keys of all tables and columns.
    pub foreign_key_pool: Seq<ForeignKey>,
    /// The hash of the schema.
    pub hash: Seq<u8>,
    /// The interner of the names.
    pub interner: InternerView,
}

impl SchemaView {
    /// The columns, the foreign keys and the primary key of a table lie where
    /// they can, and its name is interned.
    pub open spec fn table_fits(self, table: TableMeta) -> bool {
        &&& table.columns_end() <= self.columns.len()
        &&& table.fk_end() <= self.foreign_key_pool.len()
        &&& table.primary_key matches Some(p) ==> p < table.columns_len
        &&& self.interner.resolve(table.name@) is Some
    }

    /// The constraints and the foreign keys of a column lie where they can, and
    /// its name is interned.
    pub open spec fn column_fits(self, column: Column) -> bool {
        &&& column.constraints.end() <= self.constraint_pool.len()
        &&& column.foreign_keys.end() <= self.foreign_key_pool.len()
        &&& self.interner.resolve(column.name@) is Some
    }

    /// The list of column names holds the names of the columns.
    pub open spec fn column_names_match(self) -> bool {
        &&& self.column_names.len() == self.columns.len()
        &&& forall|c: int|
            0 <= c < self.columns.len() ==> #[trigger] self.column_names[c] == self.columns[c].name
    }

    /// The raw symbol of the name of the table in slot `k` of the list by name.
    pub open spec fn slot_name(self, k: int) -> u32 {
        self.tables[self.by_name[k] as int].name@
    }

    /// The list by name holds indices of tables.
    pub open spec fn by_name_in_range(self) -> bool {
        forall|k: int|
            0 <= k < self.by_name.len() ==> (#[trigger] self.by_name[k]) < self.tables.len()
    }

    /// The list by name is in the order of the symbols.
    pub open spec fn by_name_sorted(self) -> bool {
        forall|i: int, j: int|
            0 <= i <= j < self.by_name.len() ==> #[trigger] self.slot_name(i)
                <= #[trigger] self.slot_name(j)
    }

    /// Whether the list by name holds a table.
    pub open spec fn listed_by_name(self, t: int) -> bool {
        exists|k: int| 0 <= k < self.by_name.len() && #[trigger] self.by_name[k] == t
    }

    /// The list by name holds every table.
    pub open spec fn by_name_complete(self) -> bool {
        forall|t: int| 0 <= t < self.tables.len() ==> #[trigger] self.listed_by_name(t)
    }

    /// The tables can be counted with a `u16`, all indices and ranges lie
    /// within their pools, the list by name is what it should be, and every
    /// table and column has a name.
    pub open spec fn valid(self) -> bool {
        &&& self.tables.len() <= u16::MAX
        &&& self.column_names_match()
        &&& self.by_name_in_range()
        &&& self.by_name_sorted()
        &&& self.by_name_complete()
        &&& forall|t: int|
            0 <= t < self.tables.len() ==> self.table_fits(#[trigger] self.tables[t])
        &&& forall|c: int|
            0 <= c < self.columns.len() ==> self.column_fits(#[trigger] self.columns[c])
        &&& forall|k: int|
            0 <= k < self.foreign_key_pool.len() ==> (#[trigger] self.foreign_key_pool[k]).table
                < self.tables.len()
    }

    /// The name of a table.
    pub open spec fn table_name(self, t: int) -> Option<Seq<char>> {
        self.interner.resolve(self.tables[t].name@)
    }

    /// The name of a column.
    pub open spec fn column_name(self, c: int) -> Option<Seq<char>> {
        self.interner.resolve(self.columns[c].name@)
    }

    /// The foreign keys of a table.
    pub open spec fn foreign_keys_of(self, t: int) -> Seq<ForeignKey> {
        self.foreign_key_pool.subrange(self.tables[t].fk_start as int, self.tables[t].fk_end())
    }

    /// Whether a foreign key of table `t` refers to table `u`.
    pub open spec fn refers_to(self, t: int, u: int) -> bool {
        exists|k: int|
            0 <= k < self.foreign_keys_of(t).len() && (#[trigger] self.foreign_keys_of(t)[k]).table
                == u
    }

    /// Whether table `t` refers to no table but itself.
    pub open spec fn is_independent(self, t: int) -> bool {
        forall|u: int| u != t ==> !#[trigger] self.refers_to(t, u)
    }

    /// Whether no table but itself refers to table `u`.
    pub open spec fn is_leaf(self, u: int) -> bool {
        forall|t: int| 0 <= t < self.tables.len() && t != u ==> !#[trigger] self.refers_to(t, u)
    }

    /// The independent ones among the first `n` tables, in order.
    pub open spec fn independent_below(self, n: nat) -> Seq<int>
        decreases n,
    {
        if n == 0 {
            Seq::empty()
        } else if self.is_independent(n - 1) {
            self.independent_below((n - 1) as nat).push(n - 1)
        } else {
            self.independent_below((n - 1) as nat)
        }
    }

    /// The leaves among the first `n` tables, in order.
    pub open spec fn leaves_below(self, n: nat) -> Seq<int>
        decreases n,
    {
        if n == 0 {
            Seq::empty()
        } else if self.is_leaf(n - 1) {
            self.leaves_below((n - 1) as nat).push(n - 1)
        } else {
            self.leaves_below((n - 1) as nat)
        }
    }

    /// Whether no two tables have the same name.
    pub open spec fn table_names_distinct(self) -> bool {
        forall|a: int, b: int|
            0 <= a < b < self.tables.len() ==> (#[trigger] self.tables[a]).name != (
            #[trigger] self.tables[b]).name
    }

    /// Whether every table comes after the tables that it refers to.
    pub open spec fn dependencies_come_first(self) -> bool {
        forall|t: int, u: int|
            0 <= t < self.tables.len() && #[trigger] self.refers_to(t, u) ==> u <= t
    }

    /// What makes a schema valid: there are fewer than 65,536 tables, every run
    /// lies within its pool, every primary key is a column of its table and every
    /// foreign key leads to a table, the column names are those of the columns,
    /// every name is interned, and the list by name holds the tables, all of
    /// them, in the order of their symbols.
    pub proof fn fitting_parts_are_valid(self)
        requires
            self.tables.len() < 65536,
            forall|t: int|
                0 <= t < self.tables.len() ==> {
                    &&& (#[trigger] self.tables[t]).columns_start + self.tables[t].columns_len
                        <= self.columns.len()
                    &&& self.tables[t].fk_start + self.tables[t].fk_len
                        <= self.foreign_key_pool.len()
                    &&& self.tables[t].primary_key matches Some(p) ==> p
                        < self.tables[t].columns_len
                    &&& self.interner.resolve(self.tables[t].name@) is Some
                },
            forall|c: int|
                0 <= c < self.columns.len() ==> {
                    &&& (#[trigger] self.columns[c]).constraints.start
                        + self.columns[c].constraints.len <= self.constraint_pool.len()
                    &&& self.columns[c].foreign_keys.start + self.columns[c].foreign_keys.len
                        <= self.foreign_key_pool.len()
                    &&& self.interner.resolve(self.columns[c].name@) is Some
                },
            forall|k: int|
                0 <= k < self.foreign_key_pool.len() ==> (#[trigger] self.foreign_key_pool[k]).table
                    < self.tables.len(),
            self.column_names.len() == self.columns.len(),
            forall|c: int|
                0 <= c < self.columns.len() ==> #[trigger] self.column_names[c]
                    == self.columns[c].name,
            forall|k: int|
                0 <= k < self.by_name.len() ==> (#[trigger] self.by_name[k]) < self.tables.len(),
            forall|i: int, j: int|
                0 <= i < j < self.by_name.len() ==> self.tables[#[trigger] self.by_name[i] as int].name@
                    <= self.tables[#[trigger] self.by_name[j] as int].name@,
            forall|t: u16| t < self.tables.len() ==> #[trigger] self.by_name.contains(t),
        ensures
            self.valid(),
    {
        assert forall|i: int, j: int| 0 <= i <= j < self.by_name.len() implies
            #[trigger] self.slot_name(i) <= #[trigger] self.slot_name(j) by {
            if i < j {
                assert(self.by_name[i] < self.tables.len() && self.by_name[j] < self.tables.len());
            }
        }
        assert forall|t: int| 0 <= t < self.tables.len() implies #[trigger] self.listed_by_name(
            t,
        ) by {
            assert(self.by_name.contains(t as u16));
        }
        assert forall|t: int| 0 <= t < self.tables.len() implies self.table_fits(
            #[trigger] self.tables[t],
        ) by {}
    }

    /// What follows of a valid schema: all that makes it one.
    pub proof fn valid_schemas_fit(self)
        requires
            self.valid(),
        ensures
            self.tables.len() < 65536,
            forall|t: int|
                0 <= t < self.tables.len() ==> {
                    &&& (#[trigger] self.tables[t]).columns_start + self.tables[t].columns_len
                        <= self.columns.len()
                    &&& self.tables[t].fk_start + self.tables[t].fk_len
                        <= self.foreign_key_pool.len()
                    &&& self.tables[t].primary_key matches Some(p) ==> p
                        < self.tables[t].columns_len
                    &&& self.interner.resolve(self.tables[t].name@) is Some
                },
            forall|c: int|
                0 <= c < self.columns.len() ==> {
                    &&& (#[trigger] self.columns[c]).constraints.start
                        + self.columns[c].constraints.len <= self.constraint_pool.len()
                    &&& self.columns[c].foreign_keys.start + self.columns[c].foreign_keys.len
                        <= self.foreign_key_pool.len()
                    &&& self.interner.resolve(self.columns[c].name@) is Some
                },
            forall|k: int|
                0 <= k < self.foreign_key_pool.len() ==> (#[trigger] self.foreign_key_pool[k]).table
                    < self.tables.len(),
            self.column_names.len() == self.columns.len(),
            forall|c: int|
                0 <= c < self.columns.len() ==> #[trigger] self.column_names[c]
                    == self.columns[c].name,
            forall|k: int|
                0 <= k < self.by_name.len() ==> (#[trigger] self.by_name[k]) < self.tables.len(),
            forall|i: int, j: int|
                0 <= i < j < self.by_name.len() ==> self.tables[#[trigger] self.by_name[i] as int].name@
                    <= self.tables[#[trigger] self.by_name[j] as int].name@,
            forall|t: u16| t < self.tables.len() ==> #[trigger] self.by_name.contains(t),
    {
        assert forall|t: int| 0 <= t < self.tables.len() implies {
            &&& (#[trigger] self.tables[t]).columns_start + self.tables[t].columns_len
                <= self.columns.len()
            &&& self.tables[t].fk_start + self.tables[t].fk_len <= self.foreign_key_pool.len()
            &&& self.tables[t].primary_key matches Some(p) ==> p < self.tables[t].columns_len
            &&& self.interner.resolve(self.tables[t].name@) is Some
        } by {
            assert(self.table_fits(self.tables[t]));
        }
        assert forall|i: int, j: int| 0 <= i < j < self.by_name.len() implies self.tables[
        #[trigger] self.by_name[i] as int].name@ <= self.tables[#[trigger] self.by_name[j] as int].name@ by {
            assert(self.slot_name(i) <= self.slot_name(j));
        }
        assert forall|t: u16| t < self.tables.len() implies #[trigger] self.by_name.contains(t) by {
            assert(self.listed_by_name(t as int));
        }
    }

    /// The foreign keys of a table are as many as the table says, and they are
    /// the keys of the pool from the first one of the table on.
    pub proof fn foreign_keys_are_those_of_the_table(self, t: int)
        requires
            self.valid(),
            0 <= t < self.tables.len(),
        ensures
            self.foreign_keys_of(t).len() == self.tables[t].fk_len,
            forall|i: int|
                0 <= i < self.tables[t].fk_len ==> #[trigger] self.foreign_keys_of(t)[i]
                    == self.foreign_key_pool[self.tables[t].fk_start + i],
    {
        assert(self.table_fits(self.tables[t]));
    }

    /// A table refers to those tables that its keys in the pool lead to.
    pub proof fn tables_refer_by_their_keys(self, t: int, u: int)
        requires
            self.valid(),
            0 <= t < self.tables.len(),
        ensures
            self.refers_to(t, u) <==> exists|k: int|
                self.tables[t].fk_start <= k < self.tables[t].fk_start + self.tables[t].fk_len && (
                #[trigger] self.foreign_key_pool[k]).table == u,
    {
        self.foreign_keys_are_those_of_the_table(t);
        let start = self.tables[t].fk_start as int;
        if self.refers_to(t, u) {
            let i = choose|i: int|
                0 <= i < self.foreign_keys_of(t).len() && (
                #[trigger] self.foreign_keys_of(t)[i]).table == u;
            assert(self.foreign_key_pool[start + i].table == u);
        }
        if exists|k: int|
            start <= k < start + self.tables[t].fk_len && (
            #[trigger] self.foreign_key_pool[k]).table == u {
            let k = choose|k: int|
                start <= k < start + self.tables[t].fk_len && (
                #[trigger] self.foreign_key_pool[k]).table == u;
            assert(self.foreign_keys_of(t)[k - start] == self.foreign_key_pool[k]);
        }
    }

    /// The independent tables are those all of whose keys lead to themselves.
    pub proof fn independent_tables_have_no_key_to_others(self, t: int)
        requires
            self.valid(),
            0 <= t < self.tables.len(),
        ensures
            self.independent_below(self.tables.len()).contains(t) <==> forall|k: int|
                self.tables[t].fk_start <= k < self.tables[t].fk_start + self.tables[t].fk_len ==> (
                #[trigger] self.foreign_key_pool[k]).table == t,
    {
        self.independent_tables_are_listed(self.tables.len());
        assert forall|u: int| #[trigger] self.refers_to(t, u) <==> exists|k: int|
            self.tables[t].fk_start <= k < self.tables[t].fk_start + self.tables[t].fk_len && (
            #[trigger] self.foreign_key_pool[k]).table == u by {
            self.tables_refer_by_their_keys(t, u);
        }
        if self.is_independent(t) {
            assert forall|k: int|
                self.tables[t].fk_start <= k < self.tables[t].fk_start
                    + self.tables[t].fk_len implies (#[trigger] self.foreign_key_pool[k]).table
                == t by {
                assert(self.refers_to(t, self.foreign_key_pool[k].table as int));
            }
        }
    }

    /// The leaf tables are those to which no key of another table leads.
    pub proof fn leaf_tables_have_no_key_from_others(self, u: int)
        requires
            self.valid(),
            0 <= u < self.tables.len(),
        ensures
            self.leaves_below(self.tables.len()).contains(u) <==> forall|t: int, k: int|
                0 <= t < self.tables.len() && t != u && (#[trigger] self.tables[t]).fk_start <= k
                    < self.tables[t].fk_start + self.tables[t].fk_len ==> (
                #[trigger] self.foreign_key_pool[k]).table != u,
    {
        self.leaf_tables_are_listed(self.tables.len());
        assert forall|t: int| 0 <= t < self.tables.len() implies (#[trigger] self.refers_to(t, u)
            <==> exists|k: int|
            self.tables[t].fk_start <= k < self.tables[t].fk_start + self.tables[t].fk_len && (
            #[trigger] self.foreign_key_pool[k]).table == u) by {
            self.tables_refer_by_their_keys(t, u);
        }
        if self.is_leaf(u) {
            assert forall|t: int, k: int|
                0 <= t < self.tables.len() && t != u && (#[trigger] self.tables[t]).fk_start <= k
                    < self.tables[t].fk_start + self.tables[t].fk_len implies (
            #[trigger] self.foreign_key_pool[k]).table != u by {
                assert(!self.refers_to(t, u));
            }
        }
    }

    /// The names of tables and columns are the texts of their symbols.
    pub proof fn names_are_the_texts_of_their_symbols(self, t: int, c: int)
        ensures
            self.table_name(t) == self.interner.resolve(self.tables[t].name@),
            self.column_name(c) == self.interner.resolve(self.columns[c].name@),
    {
    }

    /// A symbol is the name of a table exactly where it stands for the name of
    /// that table.
    pub proof fn symbol_and_text_name_the_same_tables(self, t: int, text: Seq<char>, symbol: Symbol)
        requires
            self.valid(),
            self.interner.valid(),
            0 <= t < self.tables.len(),
            self.interner.has(text),
            symbol@ == self.interner.symbol_of(text),
        ensures
            self.tables[t].name == symbol <==> self.table_name(t) == Some(text),
    {
        self.lemma_symbol_and_text(self.tables[t].name, text, symbol);
    }

    /// A symbol is the name of a column exactly where it stands for the name of
    /// that column.
    pub proof fn symbol_and_text_name_the_same_columns(
        self,
        c: int,
        text: Seq<char>,
        symbol: Symbol,
    )
        requires
            self.valid(),
            self.interner.valid(),
            0 <= c < self.columns.len(),
            self.interner.has(text),
            symbol@ == self.interner.symbol_of(text),
        ensures
            self.columns[c].name == symbol <==> self.column_name(c) == Some(text),
    {
        self.lemma_symbol_and_text(self.columns[c].name, text, symbol);
    }

    proof fn lemma_symbol_and_text(self, name: Symbol, text: Seq<char>, symbol: Symbol)
        requires
            self.interner.valid(),
            self.interner.resolve(name@) is Some,
            self.interner.has(text),
            symbol@ == self.interner.symbol_of(text),
        ensures
            name == symbol <==> self.interner.resolve(name@) == Some(text),
    {
        self.interner.symbol_resolves_to_its_text(text);
        self.interner.resolved_symbol_is_the_symbol_of_its_text(name@);
        if self.interner.resolve(name@) == Some(text) {
            Symbol::same_raw_same_symbol(name, symbol);
        }
    }

    /// Where no two tables share a symbol, a name belongs to one table only.
    pub proof fn distinct_names_find_one_table(self, a: int, b: int)
        requires
            self.valid(),
            self.interner.valid(),
            self.table_names_distinct(),
            0 <= a < self.tables.len(),
            0 <= b < self.tables.len(),
            self.table_name(a) == self.table_name(b),
        ensures
            a == b,
    {
        self.interner.resolved_symbol_is_the_symbol_of_its_text(self.tables[a].name@);
        self.interner.resolved_symbol_is_the_symbol_of_its_text(self.tables[b].name@);
        Symbol::same_raw_same_symbol(self.tables[a].name, self.tables[b].name);
    }

    /// A reference from one table to another makes the first dependent and
    /// keeps the second from being a leaf.
    pub proof fn reference_makes_dependent(self, t: int, u: int)
        requires
            0 <= t < self.tables.len(),
            t != u,
            self.refers_to(t, u),
        ensures
            !self.is_independent(t),
            !self.is_leaf(u),
    {
    }

    /// The list of independent tables holds exactly these, each once, in order.
    pub proof fn independent_tables_are_listed(self, n: nat)
        ensures
            forall|t: int| #[trigger]
                self.independent_below(n).contains(t) <==> 0 <= t < n && self.is_independent(t),
            forall|i: int, j: int|
                0 <= i < j < self.independent_below(n).len() ==> #[trigger] self.independent_below(
                    n,
                )[i] < #[trigger] self.independent_below(n)[j],
        decreases n,
    {
        if n > 0 {
            let before = self.independent_below((n - 1) as nat);
            self.independent_tables_are_listed((n - 1) as nat);
            lemma_listed(before, self.independent_below(n), n - 1);
        }
    }

    /// The list of leaves holds exactly these, each once, in order.
    pub proof fn leaf_tables_are_listed(self, n: nat)
        ensures
            forall|t: int| #[trigger]
                self.leaves_below(n).contains(t) <==> 0 <= t < n && self.is_leaf(t),
            forall|i: int, j: int|
                0 <= i < j < self.leaves_below(n).len() ==> #[trigger] self.leaves_below(n)[i]
                    < #[trigger] self.leaves_below(n)[j],
        decreases n,
    {
        if n > 0 {
            let before = self.leaves_below((n - 1) as nat);
            self.leaf_tables_are_listed((n - 1) as nat);
            lemma_listed(before, self.leaves_below(n), n - 1);
        }
    }

    /// Where every table comes after the tables that it refers to, the first
    /// table is independent and the last one is a leaf.
    pub proof fn first_is_independent_and_last_is_leaf(self)
        requires
            self.valid(),
            self.dependencies_come_first(),
            self.tables.len() > 0,
        ensures
            self.is_independent(0),
            self.is_leaf(self.tables.len() - 1),
    {
        assert forall|u: int| u != 0 implies !#[trigger] self.refers_to(0, u) by {
            if self.refers_to(0, u) {
                let keys = self.foreign_keys_of(0);
                let k = choose|k: int| 0 <= k < keys.len() && (#[trigger] keys[k]).table == u;
                assert(keys[k].table == u);
            }
        }
    }
}

proof fn lemma_listed(before: Seq<int>, after: Seq<int>, last: int)
    requires
        after == before || after == before.push(last),
        forall|t: int| #[trigger] before.contains(t) ==> t < last,
        forall|i: int, j: int|
            0 <= i < j < before.len() ==> #[trigger] before[i] < #[trigger] before[j],
    ensures
        forall|t: int| #[trigger]
            after.contains(t) <==> before.contains(t) || (t == last && after.len()
                == before.len() + 1),
        forall|i: int, j: int|
            0 <= i < j < after.len() ==> #[trigger] after[i] < #[trigger] after[j],
{
    assert forall|i: int| 0 <= i < before.len() implies #[trigger] before[i] < last by {
        assert(before.contains(before[i]));
    }
    if after.len() == before.len() + 1 {
        assert forall|t: int| #[trigger] after.contains(t) <==> before.contains(t) || t == last by {
            assert(after[before.len() as int] == last);
            if before.contains(t) {
                let i = choose|i: int| 0 <= i < before.len() && before[i] == t;
                assert(after[i] == t);
            }
            if after.contains(t) {
                let i = choose|i: int| 0 <= i < after.len() && after[i] == t;
                if i < before.len() {
                    assert(before[i] == t);
                }
            }
        }
    }
}

} // verus!
