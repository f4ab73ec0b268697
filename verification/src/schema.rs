//! The schema of a database: its tables and their columns.
use crate::schema_model::SchemaView;
use crate::schema_parts;
use crate::schema_parts::{Column, ForeignKey, TableMeta, NULLABLE, PRIMARY_KEY, UNIQUE};
use crate::symbol;
use crate::symbol::{Symbol, INDEX_MASK};
use crate::symbol_interner::SymbolInterner;
use crate::value::ValueType;
use std::ops::Range;
use vstd::prelude::*;
use vstd::slice::*;

verus! {

/// The tables of a database, with their columns and foreign keys in shared
/// pools and all names in one interner.
pub struct DatabaseSchema {
    tables: Vec<TableMeta>,
    by_name: Vec<u16>,
    columns: Vec<Column>,
    column_names: Vec<Symbol>,
    constraint_pool: Vec<Symbol>,
    foreign_key_pool: Vec<ForeignKey>,
    hash: [u8; 32],
    interner: SymbolInterner,
}

/// A column of a schema.
#[derive(Clone, Copy)]
pub struct ColumnRef<'a> {
    schema: &'a DatabaseSchema,
    index: usize,
}

/// A table of a schema.
#[derive(Clone, Copy)]
pub struct TableRef<'a> {
    schema: &'a DatabaseSchema,
    index: u16,
}

impl View for DatabaseSchema {
    type V = SchemaView;

    closed spec fn view(&self) -> SchemaView {
        SchemaView {
            tables: self.tables@,
            by_name: self.by_name@,
            columns: self.columns@,
            column_names: self.column_names@,
            constraint_pool: self.constraint_pool@,
            foreign_key_pool: self.foreign_key_pool@,
            hash: self.hash@,
            interner: self.interner@,
        }
    }
}

impl<'a> ColumnRef<'a> {
    /// The schema that the column belongs to.
    pub closed spec fn of_schema(&self) -> DatabaseSchema {
        *self.schema
    }

    /// The index of the column among all columns of the schema.
    pub closed spec fn at(&self) -> int {
        self.index as int
    }

    /// The column is one of a well-formed schema.
    pub open spec fn wf(&self) -> bool {
        self.of_schema().wf() && 0 <= self.at() < self.of_schema()@.columns.len()
    }

    /// The column.
    pub open spec fn column(&self) -> Column {
        self.of_schema()@.columns[self.at()]
    }

    /// Every column of a well-formed schema can be asked for its parts, and they
    /// are those of the column at its index.
    pub proof fn column_is_the_one_at_its_index(&self)
        ensures
            self.column() == self.of_schema()@.columns[self.at()],
            self.wf() <==> self.of_schema().wf() && 0 <= self.at()
                < self.of_schema()@.columns.len(),
    {
    }

    fn meta(&self) -> (meta: &'a Column)
        requires
            self.wf(),
        ensures
            *meta == self.column(),
    {
        &self.schema.columns[self.index]
    }

    /// The name of the column.
    pub fn name(&self) -> (name: &'a str)
        requires
            self.wf(),
        ensures
            self.of_schema()@.column_name(self.at()) == Some(name@),
            self.of_schema()@.interner.resolve(self.of_schema()@.columns[self.at()].name@) == Some(
                name@,
            ),
    {
        assert(self.of_schema()@.column_fits(self.column()));
        self.schema.interner.resolve_unchecked(self.meta().name)
    }

    /// The symbol of the name of the column.
    pub fn name_symbol(&self) -> (name: Symbol)
        requires
            self.wf(),
        ensures
            name == self.column().name,
    {
        self.meta().name
    }

    /// The type of the column.
    pub fn data_type(&self) -> (data_type: &ValueType)
        requires
            self.wf(),
        ensures
            *data_type == self.column().data_type,
    {
        &self.meta().data_type
    }

    /// The default value of the column, if it has one.
    pub fn default_value(&self) -> (default_value: Option<Symbol>)
        requires
            self.wf(),
        ensures
            default_value == self.column().default_value,
    {
        self.meta().default_value
    }

    /// Whether the column may hold null.
    pub fn is_nullable(&self) -> (nullable: bool)
        requires
            self.wf(),
        ensures
            nullable == schema_parts::has_flags(self.column().flags@, NULLABLE),
    {
        self.meta().is_nullable()
    }

    /// Whether the column is flagged as the primary key of its table.
    pub fn is_primary_key(&self) -> (primary_key: bool)
        requires
            self.wf(),
        ensures
            primary_key == schema_parts::has_flags(self.column().flags@, PRIMARY_KEY),
    {
        self.meta().is_primary_key()
    }

    /// Whether the column holds no value twice.
    pub fn is_unique(&self) -> (unique: bool)
        requires
            self.wf(),
        ensures
            unique == schema_parts::has_flags(self.column().flags@, UNIQUE),
    {
        self.meta().is_unique()
    }

    /// The constraints of the column.
    pub fn constraints(&self) -> (constraints: &'a [Symbol])
        requires
            self.wf(),
        ensures
            constraints@ == self.of_schema()@.constraint_pool.subrange(
                self.column().constraints.start as int,
                self.column().constraints.end(),
            ),
            constraints@.len() == self.of_schema()@.columns[self.at()].constraints.len,
            forall|i: int|
                0 <= i < constraints@.len() ==> #[trigger] constraints@[i]
                    == self.of_schema()@.constraint_pool[self.of_schema()@.columns[self.at()].constraints.start
                    + i],
    {
        assert(self.of_schema()@.column_fits(self.column()));
        assert(self.schema.constraint_pool.len() <= usize::MAX);
        let pool: &'a [Symbol] = self.schema.constraint_pool.as_slice();
        let range: Range<usize> = self.meta().constraints.as_range();
        slice_subrange(pool, range.start, range.end)
    }

    /// The foreign keys of the column.
    pub fn foreign_keys(&self) -> (keys: &'a [ForeignKey])
        requires
            self.wf(),
        ensures
            keys@ == self.of_schema()@.foreign_key_pool.subrange(
                self.column().foreign_keys.start as int,
                self.column().foreign_keys.end(),
            ),
            keys@.len() == self.of_schema()@.columns[self.at()].foreign_keys.len,
            forall|i: int|
                0 <= i < keys@.len() ==> #[trigger] keys@[i]
                    == self.of_schema()@.foreign_key_pool[self.of_schema()@.columns[self.at()].foreign_keys.start
                    + i],
    {
        assert(self.of_schema()@.column_fits(self.column()));
        assert(self.schema.foreign_key_pool.len() <= usize::MAX);
        let pool: &'a [ForeignKey] = self.schema.foreign_key_pool.as_slice();
        let range: Range<usize> = self.meta().foreign_keys.as_range();
        slice_subrange(pool, range.start, range.end)
    }
}

impl<'a> TableRef<'a> {
    /// The schema that the table belongs to.
    pub closed spec fn of_schema(&self) -> DatabaseSchema {
        *self.schema
    }

    /// The index of the table in the schema.
    pub closed spec fn at(&self) -> int {
        self.index as int
    }

    /// The table is one of a well-formed schema.
    pub open spec fn wf(&self) -> bool {
        self.of_schema().wf() && 0 <= self.at() < self.of_schema()@.tables.len()
    }

    /// The table.
    pub open spec fn table(&self) -> TableMeta {
        self.of_schema()@.tables[self.at()]
    }

    /// Whether column `c` of the schema is column `local` of the table.
    pub open spec fn is_local_column(&self, c: int, local: int) -> bool {
        0 <= local < self.table().columns_len && c == self.table().columns_start + local
    }

    /// Every table of a well-formed schema can be asked for its parts, and they
    /// are those of the table at its index; its columns follow its first one.
    pub proof fn table_is_the_one_at_its_index(&self, c: int, local: int)
        ensures
            self.table() == self.of_schema()@.tables[self.at()],
            self.wf() <==> self.of_schema().wf() && 0 <= self.at() < self.of_schema()@.tables.len(),
            self.is_local_column(c, local) <==> {
                &&& 0 <= local < self.of_schema()@.tables[self.at()].columns_len
                &&& c - local == self.of_schema()@.tables[self.at()].columns_start
            },
    {
    }

    pub(crate) fn meta(&self) -> (meta: &'a TableMeta)
        requires
            self.wf(),
        ensures
            *meta == self.table(),
    {
        &self.schema.tables[self.index as usize]
    }

    /// The indices of the columns of the table among all columns.
    fn columns_range(&self) -> (range: Range<usize>)
        requires
            self.wf(),
        ensures
            range.start == self.table().columns_start,
            range.end == self.table().columns_end(),
            range.end <= self.of_schema()@.columns.len(),
    {
        assert(self.of_schema()@.table_fits(self.table()));
        assert(self.schema.columns.len() <= usize::MAX);
        let m = self.meta();
        m.columns_start as usize..m.columns_start as usize + m.columns_len as usize
    }

    /// The name of the table.
    pub fn name(&self) -> (name: &'a str)
        requires
            self.wf(),
        ensures
            self.of_schema()@.table_name(self.at()) == Some(name@),
            self.of_schema()@.interner.resolve(self.of_schema()@.tables[self.at()].name@) == Some(
                name@,
            ),
    {
        assert(self.of_schema()@.table_fits(self.table()));
        self.schema.interner.resolve_unchecked(self.meta().name)
    }

    /// The symbol of the name of the table.
    pub fn name_symbol(&self) -> (name: Symbol)
        requires
            self.wf(),
        ensures
            name == self.table().name,
    {
        self.meta().name
    }

    /// The index of the table in the schema.
    pub fn topo_index(&self) -> (index: usize)
        ensures
            index == self.at(),
    {
        self.index as usize
    }

    /// The columns of the table, in order.
    pub fn columns(&self) -> (columns: Vec<ColumnRef<'a>>)
        requires
            self.wf(),
        ensures
            columns@.len() == self.table().columns_len,
            forall|i: int|
                0 <= i < columns@.len() ==> (#[trigger] columns@[i]).at()
                    == self.of_schema()@.tables[self.at()].columns_start + i,
            forall|i: int|
                0 <= i < columns@.len() ==> {
                    &&& (#[trigger] columns@[i]).wf()
                    &&& columns@[i].of_schema() == self.of_schema()
                    &&& self.is_local_column(columns@[i].at(), i)
                },
    {
        let range: Range<usize> = self.columns_range();
        let mut columns: Vec<ColumnRef<'a>> = Vec::with_capacity(range.end - range.start);
        let mut index: usize = range.start;
        while index < range.end
            invariant
                self.wf(),
                range.start == self.table().columns_start,
                range.end == self.table().columns_end(),
                range.end <= self.of_schema()@.columns.len(),
                range.start <= index <= range.end,
                columns@.len() == index - range.start,
                forall|i: int|
                    0 <= i < columns@.len() ==> {
                        &&& (#[trigger] columns@[i]).wf()
                        &&& columns@[i].of_schema() == self.of_schema()
                        &&& self.is_local_column(columns@[i].at(), i)
                    },
            decreases range.end - index,
        {
            columns.push(ColumnRef { schema: self.schema, index });
            index = index + 1;
        }
        columns
    }

    /// The symbols of the names of the columns, in order.
    pub fn column_names(&self) -> (names: &'a [Symbol])
        requires
            self.wf(),
        ensures
            names@ == self.of_schema()@.column_names.subrange(
                self.table().columns_start as int,
                self.table().columns_end(),
            ),
            names@.len() == self.table().columns_len,
            forall|i: int|
                0 <= i < names@.len() ==> #[trigger] names@[i]
                    == self.of_schema()@.columns[self.table().columns_start + i].name,
    {
        let range: Range<usize> = self.columns_range();
        slice_subrange(self.schema.column_names.as_slice(), range.start, range.end)
    }

    /// The position in the table of the first column with a name.
    pub fn position(&self, name: Symbol) -> (position: Option<usize>)
        requires
            self.wf(),
        ensures
            match position {
                Some(i) => {
                    &&& i < self.table().columns_len
                    &&& self.of_schema()@.columns[self.table().columns_start + i].name == name
                    &&& forall|j: int|
                        0 <= j < i
                            ==> self.of_schema()@.columns[#[trigger] (self.table().columns_start
                            + j)].name != name
                },
                None => forall|j: int|
                    0 <= j < self.table().columns_len
                        ==> self.of_schema()@.columns[#[trigger] (self.table().columns_start
                        + j)].name != name,
            },
    {
        let names = self.column_names();
        let mut i: usize = 0;
        while i < names.len()
            invariant
                self.wf(),
                i <= names@.len(),
                names@.len() == self.table().columns_len,
                forall|j: int|
                    0 <= j < names@.len() ==> #[trigger] names@[j]
                        == self.of_schema()@.columns[self.table().columns_start + j].name,
                forall|j: int|
                    0 <= j < i ==> self.of_schema()@.columns[#[trigger] (
                    self.table().columns_start + j)].name != name,
            decreases names@.len() - i,
        {
            if names[i] == name {
                return Some(i);
            }
            i = i + 1;
        }
        None
    }

    /// The first column of the table with a name.
    pub fn column(&self, name: &str) -> (column: Option<ColumnRef<'a>>)
        requires
            self.wf(),
        ensures
            match column {
                Some(c) => {
                    &&& c.wf()
                    &&& c.of_schema() == self.of_schema()
                    &&& self.is_local_column(c.at(), c.at() - self.table().columns_start)
                    &&& self.of_schema()@.column_name(c.at()) == Some(name@)
                    &&& forall|d: int|
                        self.table().columns_start <= d < c.at()
                            ==> #[trigger] self.of_schema()@.column_name(d) != Some(name@)
                },
                None => forall|d: int|
                    self.table().columns_start <= d < self.table().columns_end()
                        ==> #[trigger] self.of_schema()@.column_name(d) != Some(name@),
            },
    {
        let ghost v = self.of_schema()@;
        let ghost start = self.table().columns_start as int;
        assert(v.table_fits(self.table()));
        match self.schema.interner.get(name) {
            None => {
                proof {
                    assert forall|d: int| start <= d < self.table().columns_end() implies (
                    #[trigger] v.column_name(d)) != Some(name@) by {
                        assert(v.column_fits(v.columns[d]));
                        v.interner.resolved_symbol_is_the_symbol_of_its_text(v.columns[d].name@);
                    }
                }
                None
            },
            Some(symbol) => {
                let found = self.column_by_symbol(symbol);
                proof {
                    assert forall|d: int| start <= d < self.table().columns_end() implies ((
                    #[trigger] v.column_name(d)) == Some(name@) <==> v.columns[d].name
                        == symbol) by {
                        v.symbol_and_text_name_the_same_columns(d, name@, symbol);
                    }
                }
                found
            },
        }
    }

    /// The first column of the table whose name has a symbol.
    pub fn column_by_symbol(&self, name: Symbol) -> (column: Option<ColumnRef<'a>>)
        requires
            self.wf(),
        ensures
            match column {
                Some(c) => {
                    &&& c.wf()
                    &&& c.of_schema() == self.of_schema()
                    &&& self.is_local_column(c.at(), c.at() - self.table().columns_start)
                    &&& c.column().name == name
                    &&& forall|d: int|
                        self.table().columns_start <= d < c.at() ==> (
                        #[trigger] self.of_schema()@.columns[d]).name != name
                },
                None => forall|d: int|
                    self.table().columns_start <= d < self.table().columns_end() ==> (
                    #[trigger] self.of_schema()@.columns[d]).name != name,
            },
    {
        let ghost v = self.of_schema()@;
        let ghost start = self.table().columns_start as int;
        match self.position(name) {
            None => {
                proof {
                    assert forall|d: int| start <= d < self.table().columns_end() implies (
                    #[trigger] v.columns[d]).name != name by {
                        assert(v.columns[start + (d - start)].name != name);
                    }
                }
                None
            },
            Some(local_index) => {
                proof {
                    assert forall|d: int| start <= d < start + local_index implies (
                    #[trigger] v.columns[d]).name != name by {
                        assert(v.columns[start + (d - start)].name != name);
                    }
                }
                Some(
                    ColumnRef {
                        schema: self.schema,
                        index: self.columns_range().start + local_index,
                    },
                )
            },
        }
    }

    /// The column that is the primary key, if there is one.
    pub fn primary_key(&self) -> (column: Option<ColumnRef<'a>>)
        requires
            self.wf(),
        ensures
            match column {
                Some(c) => {
                    &&& c.wf()
                    &&& c.of_schema() == self.of_schema()
                    &&& self.table().primary_key matches Some(p) && self.is_local_column(
                        c.at(),
                        p as int,
                    ) && c.at() == self.of_schema()@.tables[self.at()].columns_start + p
                },
                None => self.table().primary_key is None,
            },
    {
        assert(self.of_schema()@.table_fits(self.table()));
        match self.meta().primary_key {
            Some(i) => Some(
                ColumnRef { schema: self.schema, index: self.columns_range().start + i as usize },
            ),
            None => None,
        }
    }

    /// The foreign keys of the table.
    pub fn foreign_keys(&self) -> (keys: &'a [ForeignKey])
        requires
            self.wf(),
        ensures
            keys@ == self.of_schema()@.foreign_keys_of(self.at()),
            keys@.len() == self.of_schema()@.tables[self.at()].fk_len,
            forall|i: int|
                0 <= i < keys@.len() ==> #[trigger] keys@[i]
                    == self.of_schema()@.foreign_key_pool[self.of_schema()@.tables[self.at()].fk_start
                    + i],
    {
        assert(self.of_schema()@.table_fits(self.table()));
        assert(self.schema.foreign_key_pool.len() <= usize::MAX);
        let pool: &'a [ForeignKey] = self.schema.foreign_key_pool.as_slice();
        let m = self.meta();
        slice_subrange(pool, m.fk_start as usize, m.fk_start as usize + m.fk_len as usize)
    }

    /// The table that a foreign key refers to.
    pub fn referenced_table(&self, fk: &ForeignKey) -> (table: TableRef<'a>)
        ensures
            table.of_schema() == self.of_schema(),
            table.at() == fk.table,
    {
        TableRef { schema: self.schema, index: fk.table }
    }

    /// Every foreign key of a table of a schema refers to a table of the schema.
    pub proof fn foreign_keys_lead_to_tables(&self, k: int)
        requires
            self.wf(),
            0 <= k < self.of_schema()@.foreign_keys_of(self.at()).len(),
        ensures
            self.of_schema()@.foreign_keys_of(self.at())[k].table
                < self.of_schema()@.tables.len(),
    {
        let v = self.of_schema()@;
        assert(v.table_fits(self.table()));
        assert(v.foreign_keys_of(self.at())[k] == v.foreign_key_pool[self.table().fk_start + k]);
    }
}

impl DatabaseSchema {
    /// The interner of the schema is well formed.
    pub closed spec fn interner_wf(&self) -> bool {
        self.interner.wf()
    }

    /// The schema is well formed.
    pub open spec fn wf(&self) -> bool {
        self@.valid() && self@.interner.valid() && self.interner_wf()
    }

    /// The text that a symbol stands for; none for a symbol that stands for no
    /// text of the schema.
    ///
    /// A raw value whose low 24 bits are all zero names no index and must not
    /// be asked for, unless its shard is beyond those of the interner.
    pub fn resolve_symbol(&self, symbol: Symbol) -> (text: Option<&str>)
        requires
            self.wf(),
            symbol::raw_shard(symbol@) < self@.interner.shard_count ==> symbol::raw_index(symbol@)
                >= 0,
        ensures
            match text {
                Some(t) => self@.interner.resolve(symbol@) == Some(t@),
                None => self@.interner.resolve(symbol@) is None,
            },
    {
        self.interner.resolve(symbol)
    }

    /// How many tables there are.
    pub fn len(&self) -> (len: usize)
        ensures
            len == self@.tables.len(),
    {
        self.tables.len()
    }

    /// Whether there are no tables.
    pub fn is_empty(&self) -> (empty: bool)
        ensures
            empty == (self@.tables.len() == 0),
    {
        self.tables.len() == 0
    }

    /// The tables, in order.
    pub fn tables(&self) -> (tables: Vec<TableRef<'_>>)
        requires
            self.wf(),
        ensures
            tables@.len() == self@.tables.len(),
            forall|i: int|
                0 <= i < tables@.len() ==> {
                    &&& (#[trigger] tables@[i]).of_schema() == *self
                    &&& tables@[i].at() == i
                },
    {
        let count: u16 = self.tables.len() as u16;
        let mut tables: Vec<TableRef<'_>> = Vec::with_capacity(self.tables.len());
        let mut index: u16 = 0;
        while index < count
            invariant
                index <= count,
                tables@.len() == index,
                forall|i: int|
                    0 <= i < tables@.len() ==> {
                        &&& (#[trigger] tables@[i]).of_schema() == *self
                        &&& tables@[i].at() == i
                    },
            decreases count - index,
        {
            tables.push(TableRef { schema: self, index });
            index = index + 1;
        }
        tables
    }

    /// The table at an index, if there is one.
    pub fn table_at(&self, index: usize) -> (table: Option<TableRef<'_>>)
        requires
            self.wf(),
        ensures
            match table {
                Some(t) => index < self@.tables.len() && t.of_schema() == *self && t.at() == index,
                None => index >= self@.tables.len(),
            },
    {
        if index < self.tables.len() {
            Some(TableRef { schema: self, index: index as u16 })
        } else {
            None
        }
    }

    /// A table with a name.
    pub fn table(&self, name: &str) -> (table: Option<TableRef<'_>>)
        requires
            self.wf(),
        ensures
            match table {
                Some(t) => {
                    &&& t.wf()
                    &&& t.of_schema() == *self
                    &&& self@.table_name(t.at()) == Some(name@)
                },
                None => forall|t: int|
                    0 <= t < self@.tables.len() ==> #[trigger] self@.table_name(t) != Some(name@),
            },
    {
        let ghost v = self@;
        match self.interner.get(name) {
            None => {
                proof {
                    assert forall|t: int| 0 <= t < v.tables.len() implies (
                    #[trigger] v.table_name(t)) != Some(name@) by {
                        assert(v.table_fits(v.tables[t]));
                        v.interner.resolved_symbol_is_the_symbol_of_its_text(v.tables[t].name@);
                    }
                }
                None
            },
            Some(symbol) => {
                let found = self.table_by_symbol(symbol);
                proof {
                    assert forall|t: int| 0 <= t < v.tables.len() implies ((
                    #[trigger] v.table_name(t)) == Some(name@) <==> v.tables[t].name
                        == symbol) by {
                        v.symbol_and_text_name_the_same_tables(t, name@, symbol);
                    }
                }
                found
            },
        }
    }

    /// A table whose name has a symbol.
    pub fn table_by_symbol(&self, symbol: Symbol) -> (table: Option<TableRef<'_>>)
        requires
            self.wf(),
        ensures
            match table {
                Some(t) => {
                    &&& t.wf()
                    &&& t.of_schema() == *self
                    &&& t.table().name == symbol
                },
                None => forall|t: int|
                    0 <= t < self@.tables.len() ==> (#[trigger] self@.tables[t]).name != symbol,
            },
    {
        let ghost v = self@;
        let wanted: u32 = symbol.into_raw();
        let mut low: usize = 0;
        let mut high: usize = self.by_name.len();
        while low < high
            invariant
                self.wf(),
                v == self@,
                wanted == symbol@,
                low <= high <= self.by_name@.len(),
                forall|k: int| 0 <= k < low ==> #[trigger] v.slot_name(k) < wanted,
                forall|k: int| high <= k < v.by_name.len() ==> #[trigger] v.slot_name(k) > wanted,
            decreases high - low,
        {
            let mid: usize = low + (high - low) / 2;
            let index: u16 = self.by_name[mid];
            assert(v.by_name[mid as int] < v.tables.len());
            let name: u32 = self.tables[index as usize].name.into_raw();
            assert(v.slot_name(mid as int) == name);
            if name == wanted {
                proof {
                    Symbol::same_raw_same_symbol(v.tables[index as int].name, symbol);
                }
                return self.table_at(index as usize);
            }
            if name < wanted {
                low = mid + 1;
            } else {
                high = mid;
            }
        }
        proof {
            assert forall|t: int| 0 <= t < v.tables.len() implies (#[trigger] v.tables[t]).name
                != symbol by {
                assert(v.listed_by_name(t));
                let k = choose|k: int| 0 <= k < v.by_name.len() && #[trigger] v.by_name[k] == t;
                assert(v.slot_name(k) != wanted);
            }
        }
        None
    }

    /// Whether a table refers to no table but itself.
    fn table_is_independent(&self, index: u16) -> (independent: bool)
        requires
            self.wf(),
            index < self@.tables.len(),
        ensures
            independent == self@.is_independent(index as int),
    {
        let table = TableRef { schema: self, index };
        let keys = table.foreign_keys();
        let ghost v = self@;
        let mut k: usize = 0;
        while k < keys.len()
            invariant
                v == self@,
                k <= keys@.len(),
                keys@ == v.foreign_keys_of(index as int),
                forall|j: int| 0 <= j < k ==> (#[trigger] keys@[j]).table == index,
            decreases keys@.len() - k,
        {
            if keys[k].table_index() != index as usize {
                assert(v.refers_to(index as int, keys@[k as int].table as int));
                return false;
            }
            k = k + 1;
        }
        true
    }

    /// The tables that refer to no table but themselves, in order.
    pub fn independent_tables(&self) -> (tables: Vec<TableRef<'_>>)
        requires
            self.wf(),
        ensures
            forall|i: int|
                0 <= i < tables@.len() ==> (#[trigger] tables@[i]).of_schema() == *self,
            tables@.map_values(|t: TableRef| t.at()) == self@.independent_below(
                self@.tables.len(),
            ),
    {
        let count: u16 = self.tables.len() as u16;
        let mut tables: Vec<TableRef<'_>> = Vec::new();
        let mut index: u16 = 0;
        while index < count
            invariant
                self.wf(),
                count == self@.tables.len(),
                index <= count,
                forall|i: int|
                    0 <= i < tables@.len() ==> (#[trigger] tables@[i]).of_schema() == *self,
                tables@.map_values(|t: TableRef| t.at()) == self@.independent_below(index as nat),
            decreases count - index,
        {
            let ghost before = tables@;
            if self.table_is_independent(index) {
                tables.push(TableRef { schema: self, index });
                assert(tables@.map_values(|t: TableRef| t.at()) =~= before.map_values(
                    |t: TableRef| t.at(),
                ).push(index as int));
            }
            index = index + 1;
        }
        tables
    }

    /// The tables to which no table but themselves refers, in order.
    pub fn leaf_tables(&self) -> (tables: Vec<TableRef<'_>>)
        requires
            self.wf(),
        ensures
            forall|i: int|
                0 <= i < tables@.len() ==> (#[trigger] tables@[i]).of_schema() == *self,
            tables@.map_values(|t: TableRef| t.at()) == self@.leaves_below(self@.tables.len()),
    {
        let referenced: Vec<bool> = self.referenced_by_others();
        let count: u16 = self.tables.len() as u16;
        let mut tables: Vec<TableRef<'_>> = Vec::new();
        let mut index: u16 = 0;
        while index < count
            invariant
                self.wf(),
                count == self@.tables.len(),
                index <= count,
                referenced@.len() == count,
                forall|u: int|
                    0 <= u < referenced@.len() ==> #[trigger] referenced@[u] == !self@.is_leaf(u),
                forall|i: int|
                    0 <= i < tables@.len() ==> (#[trigger] tables@[i]).of_schema() == *self,
                tables@.map_values(|t: TableRef| t.at()) == self@.leaves_below(index as nat),
            decreases count - index,
        {
            let ghost before = tables@;
            if !referenced[index as usize] {
                tables.push(TableRef { schema: self, index });
                assert(tables@.map_values(|t: TableRef| t.at()) =~= before.map_values(
                    |t: TableRef| t.at(),
                ).push(index as int));
            }
            index = index + 1;
        }
        tables
    }

    /// For every table whether another table refers to it.
    fn referenced_by_others(&self) -> (referenced: Vec<bool>)
        requires
            self.wf(),
        ensures
            referenced@.len() == self@.tables.len(),
            forall|u: int|
                0 <= u < referenced@.len() ==> #[trigger] referenced@[u] == !self@.is_leaf(u),
    {
        let ghost v = self@;
        let count: usize = self.tables.len();
        let mut referenced: Vec<bool> = vec![false; count];
        let mut i: usize = 0;
        while i < count
            invariant
                self.wf(),
                v == self@,
                count == v.tables.len(),
                i <= count,
                referenced@.len() == count,
                forall|u: int|
                    0 <= u < count ==> #[trigger] referenced@[u] == referenced_below(
                        v,
                        u,
                        i as int,
                        0,
                    ),
            decreases count - i,
        {
            let table = TableRef { schema: self, index: i as u16 };
            let keys = table.foreign_keys();
            let mut k: usize = 0;
            while k < keys.len()
                invariant
                    self.wf(),
                    v == self@,
                    table.wf(),
                    table.of_schema() == *self,
                    table.at() == i,
                    count == v.tables.len(),
                    i < count,
                    k <= keys@.len(),
                    keys@ == v.foreign_keys_of(i as int),
                    referenced@.len() == count,
                    forall|u: int|
                        0 <= u < count ==> #[trigger] referenced@[u] == referenced_below(
                            v,
                            u,
                            i as int,
                            k as int,
                        ),
                decreases keys@.len() - k,
            {
                let target: usize = keys[k].table_index();
                let ghost before = referenced@;
                proof {
                    table.foreign_keys_lead_to_tables(k as int);
                }
                if target != i {
                    referenced.set(target, true);
                }
                proof {
                    assert forall|u: int| 0 <= u < count implies #[trigger] referenced@[u]
                        == referenced_below(v, u, i as int, k + 1) by {
                        assert(before[u] == referenced_below(v, u, i as int, k as int));
                        lemma_referenced_next_key(v, u, i as int, k as int);
                    }
                }
                k = k + 1;
            }
            proof {
                assert forall|u: int| 0 <= u < count implies #[trigger] referenced@[u]
                    == referenced_below(v, u, i + 1, 0) by {
                    lemma_referenced_next_table(v, u, i as int);
                }
            }
            i = i + 1;
        }
        proof {
            assert forall|u: int| 0 <= u < count implies #[trigger] referenced@[u] == !v.is_leaf(
                u,
            ) by {
                lemma_referenced_is_no_leaf(v, u);
            }
        }
        referenced
    }

    /// The hash of the schema.
    pub fn hash(&self) -> (hash: &[u8; 32])
        ensures
            hash@ == self@.hash,
    {
        &self.hash
    }
}

/// Whether a symbol stands for a text of the interner.
fn is_interned(interner: &SymbolInterner, symbol: Symbol) -> (interned: bool)
    requires
        interner.wf(),
    ensures
        interned == (interner@.resolve(symbol@) is Some),
{
    let raw: u32 = symbol.into_raw();
    assert(raw & 0x00FF_FFFF == raw % 0x0100_0000) by (bit_vector);
    raw & INDEX_MASK != 0 && interner.resolve(symbol).is_some()
}

impl DatabaseSchema {
    /// Puts a schema together; none where the parts do not fit together.
    ///
    /// `by_name` holds the index of every table, in the order of the symbols of
    /// their names; `column_names` holds the names of `columns`.
    pub fn from_parts(
        tables: Vec<TableMeta>,
        by_name: Vec<u16>,
        columns: Vec<Column>,
        column_names: Vec<Symbol>,
        constraint_pool: Vec<Symbol>,
        foreign_key_pool: Vec<ForeignKey>,
        hash: [u8; 32],
        interner: SymbolInterner,
    ) -> (schema: Option<DatabaseSchema>)
        requires
            interner.wf(),
        ensures
            ({
                let parts = SchemaView {
                    tables: tables@,
                    by_name: by_name@,
                    columns: columns@,
                    column_names: column_names@,
                    constraint_pool: constraint_pool@,
                    foreign_key_pool: foreign_key_pool@,
                    hash: hash@,
                    interner: interner@,
                };
                match schema {
                    Some(s) => s.wf() && s@ == parts,
                    None => !parts.valid(),
                }
            }),
    {
        let schema = DatabaseSchema {
            tables,
            by_name,
            columns,
            column_names,
            constraint_pool,
            foreign_key_pool,
            hash,
            interner,
        };
        if schema.tables.len() <= u16::MAX as usize && schema.check_column_names()
            && schema.check_by_name() && schema.check_tables() && schema.check_columns()
            && schema.check_foreign_keys() {
            Some(schema)
        } else {
            None
        }
    }

    /// Whether the list of column names holds the names of the columns.
    fn check_column_names(&self) -> (ok: bool)
        ensures
            ok == self@.column_names_match(),
    {
        if self.column_names.len() != self.columns.len() {
            return false;
        }
        let mut c: usize = 0;
        while c < self.columns.len()
            invariant
                c <= self.columns@.len(),
                self.column_names@.len() == self.columns@.len(),
                forall|d: int|
                    0 <= d < c ==> #[trigger] self.column_names@[d] == self.columns@[d].name,
            decreases self.columns@.len() - c,
        {
            if self.column_names[c] != self.columns[c].name {
                assert(self@.column_names[c as int] != self@.columns[c as int].name);
                return false;
            }
            c = c + 1;
        }
        true
    }

    /// Whether the list by name holds every table, in order.
    fn check_by_name(&self) -> (ok: bool)
        ensures
            ok == (self@.by_name_in_range() && self@.by_name_sorted() && self@.by_name_complete()),
    {
        let ghost v = self@;
        let count: usize = self.tables.len();
        let mut seen: Vec<bool> = vec![false; count];
        let mut last: u32 = 0;
        let mut k: usize = 0;
        while k < self.by_name.len()
            invariant
                v == self@,
                count == v.tables.len(),
                k <= self.by_name@.len(),
                seen@.len() == count,
                forall|j: int| 0 <= j < k ==> (#[trigger] v.by_name[j]) < v.tables.len(),
                forall|i: int, j: int|
                    0 <= i <= j < k ==> #[trigger] v.slot_name(i) <= #[trigger] v.slot_name(j),
                k > 0 ==> last == v.slot_name(k - 1),
                k == 0 ==> last == 0,
                forall|t: int|
                    0 <= t < count ==> #[trigger] seen@[t] == exists|j: int|
                        0 <= j < k && #[trigger] v.by_name[j] == t,
            decreases self.by_name@.len() - k,
        {
            let index: usize = self.by_name[k] as usize;
            if index >= count {
                assert(v.by_name[k as int] >= v.tables.len());
                return false;
            }
            let name: u32 = self.tables[index].name.into_raw();
            assert(v.slot_name(k as int) == name);
            if name < last {
                assert(v.slot_name(k - 1) > v.slot_name(k as int));
                return false;
            }
            let ghost before = seen@;
            seen.set(index, true);
            proof {
                assert forall|t: int| 0 <= t < count implies #[trigger] seen@[t] == exists|j: int|
                    0 <= j < k + 1 && #[trigger] v.by_name[j] == t by {
                    assert(before[t] == exists|j: int|
                        0 <= j < k && #[trigger] v.by_name[j] == t);
                    if t == index {
                        assert(v.by_name[k as int] == t);
                    }
                }
            }
            last = name;
            k = k + 1;
        }
        let mut t: usize = 0;
        while t < count
            invariant
                v == self@,
                count == v.tables.len(),
                t <= count,
                seen@.len() == count,
                forall|u: int| 0 <= u < count ==> #[trigger] seen@[u] == v.listed_by_name(u),
                forall|u: int| 0 <= u < t ==> #[trigger] v.listed_by_name(u),
            decreases count - t,
        {
            if !seen[t] {
                assert(!v.listed_by_name(t as int));
                return false;
            }
            t = t + 1;
        }
        true
    }

    /// Whether every table fits.
    fn check_tables(&self) -> (ok: bool)
        requires
            self.interner_wf(),
        ensures
            ok == forall|t: int|
                0 <= t < self@.tables.len() ==> self@.table_fits(#[trigger] self@.tables[t]),
    {
        let ghost v = self@;
        let columns_len: u64 = self.columns.len() as u64;
        let keys_len: u64 = self.foreign_key_pool.len() as u64;
        let mut t: usize = 0;
        while t < self.tables.len()
            invariant
                self.interner_wf(),
                v == self@,
                columns_len == v.columns.len(),
                keys_len == v.foreign_key_pool.len(),
                t <= self.tables@.len(),
                forall|u: int| 0 <= u < t ==> v.table_fits(#[trigger] v.tables[u]),
            decreases self.tables@.len() - t,
        {
            let table: TableMeta = self.tables[t];
            let columns_end: u64 = table.columns_start as u64 + table.columns_len as u64;
            let keys_end: u64 = table.fk_start as u64 + table.fk_len as u64;
            let key_fits: bool = match table.primary_key {
                Some(p) => p < table.columns_len,
                None => true,
            };
            let fits: bool = columns_end <= columns_len && keys_end <= keys_len && key_fits
                && is_interned(&self.interner, table.name);
            assert(fits == v.table_fits(v.tables[t as int]));
            if !fits {
                return false;
            }
            t = t + 1;
        }
        true
    }

    /// Whether every column fits.
    fn check_columns(&self) -> (ok: bool)
        requires
            self.interner_wf(),
        ensures
            ok == forall|c: int|
                0 <= c < self@.columns.len() ==> self@.column_fits(#[trigger] self@.columns[c]),
    {
        let ghost v = self@;
        let constraints_len: u64 = self.constraint_pool.len() as u64;
        let keys_len: u64 = self.foreign_key_pool.len() as u64;
        let mut c: usize = 0;
        while c < self.columns.len()
            invariant
                self.interner_wf(),
                v == self@,
                constraints_len == v.constraint_pool.len(),
                keys_len == v.foreign_key_pool.len(),
                c <= self.columns@.len(),
                forall|d: int| 0 <= d < c ==> v.column_fits(#[trigger] v.columns[d]),
            decreases self.columns@.len() - c,
        {
            let column: Column = self.columns[c];
            let constraints_end: u64 = column.constraints.start as u64
                + column.constraints.len as u64;
            let keys_end: u64 = column.foreign_keys.start as u64 + column.foreign_keys.len as u64;
            let fits: bool = constraints_end <= constraints_len && keys_end <= keys_len
                && is_interned(&self.interner, column.name);
            assert(fits == v.column_fits(v.columns[c as int]));
            if !fits {
                return false;
            }
            c = c + 1;
        }
        true
    }

    /// Whether every foreign key refers to a table of the schema.
    fn check_foreign_keys(&self) -> (ok: bool)
        ensures
            ok == forall|k: int|
                0 <= k < self@.foreign_key_pool.len() ==> (#[trigger] self@.foreign_key_pool[k]).table
                    < self@.tables.len(),
    {
        let ghost v = self@;
        let mut k: usize = 0;
        while k < self.foreign_key_pool.len()
            invariant
                v == self@,
                k <= self.foreign_key_pool@.len(),
                forall|j: int|
                    0 <= j < k ==> (#[trigger] v.foreign_key_pool[j]).table < v.tables.len(),
            decreases self.foreign_key_pool@.len() - k,
        {
            if self.foreign_key_pool[k].table_index() >= self.tables.len() {
                assert(v.foreign_key_pool[k as int].table >= v.tables.len());
                return false;
            }
            k = k + 1;
        }
        true
    }
}

/// Whether key `k` of table `t` refers to table `u` from another table.
spec fn key_refers(v: SchemaView, t: int, k: int, u: int) -> bool {
    t != u && v.foreign_keys_of(t)[k].table == u
}

/// Whether another table refers to table `u` among the tables before `t` and
/// the first `n` keys of `t`.
spec fn referenced_below(v: SchemaView, u: int, t: int, n: int) -> bool {
    exists|s: int, k: int|
        0 <= s <= t && 0 <= k < (if s == t {
            n
        } else {
            v.foreign_keys_of(s).len() as int
        }) && #[trigger] key_refers(v, s, k, u)
}

proof fn lemma_referenced_next_key(v: SchemaView, u: int, t: int, n: int)
    requires
        0 <= t,
        0 <= n < v.foreign_keys_of(t).len(),
    ensures
        referenced_below(v, u, t, n + 1) == (referenced_below(v, u, t, n) || key_refers(
            v,
            t,
            n,
            u,
        )),
{
}

proof fn lemma_referenced_next_table(v: SchemaView, u: int, t: int)
    requires
        0 <= t,
    ensures
        referenced_below(v, u, t + 1, 0) == referenced_below(
            v,
            u,
            t,
            v.foreign_keys_of(t).len() as int,
        ),
{
}

proof fn lemma_referenced_is_no_leaf(v: SchemaView, u: int)
    ensures
        referenced_below(v, u, v.tables.len() as int, 0) == !v.is_leaf(u),
{
    let n = v.tables.len() as int;
    if referenced_below(v, u, n, 0) {
        let (s, k) = choose|s: int, k: int|
            0 <= s <= n && 0 <= k < (if s == n {
                0
            } else {
                v.foreign_keys_of(s).len() as int
            }) && #[trigger] key_refers(v, s, k, u);
        assert(v.foreign_keys_of(s)[k].table == u);
        assert(v.refers_to(s, u));
    }
    if !v.is_leaf(u) {
        let s = choose|s: int| 0 <= s < v.tables.len() && s != u && #[trigger] v.refers_to(s, u);
        let k = choose|k: int|
            0 <= k < v.foreign_keys_of(s).len() && (#[trigger] v.foreign_keys_of(s)[k]).table == u;
        assert(key_refers(v, s, k, u));
    }
}

} // verus!
