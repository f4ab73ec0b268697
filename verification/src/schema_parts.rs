//! The parts that a schema is made of: columns, foreign keys and tables.
use crate::symbol::Symbol;
use crate::value::ValueType;
use std::ops::Range;
use vstd::prelude::*;
use vstd::std_specs::convert::{FromSpec, FromSpecImpl};

verus! {

/// What happens to a row when the row that it refers to is changed or deleted.
#[derive(Debug, Clone, Copy, PartialEq, Eq, Structural, Hash)]
pub enum Action {
    NoAction,
    Cascade,
    SetNull,
    SetDefault,
    Restrict,
}

impl Action {
    /// The number that stands for the action.
    pub open spec fn code(self) -> u8 {
        match self {
            Action::NoAction => 0,
            Action::Cascade => 1,
            Action::SetNull => 2,
            Action::SetDefault => 3,
            Action::Restrict => 4,
        }
    }

    /// The action that a number from 0 to 4 stands for.
    pub fn from_u8(value: u8) -> (action: Action)
        requires
            value <= 4,
        ensures
            action.code() == value,
            action is NoAction <==> value == 0,
            action is Cascade <==> value == 1,
            action is SetNull <==> value == 2,
            action is SetDefault <==> value == 3,
            action is Restrict <==> value == 4,
    {
        match value {
            0 => Action::NoAction,
            1 => Action::Cascade,
            2 => Action::SetNull,
            3 => Action::SetDefault,
            _ => Action::Restrict,
        }
    }

    /// The action that the low byte of a number stands for; the high byte makes
    /// no difference.
    pub fn from_u16(value: u16) -> (action: Action)
        requires
            value % 256 <= 4,
        ensures
            action.code() == value % 256,
    {
        assert(value as u8 == value % 256) by (bit_vector);
        Action::from_u8(value as u8)
    }

    /// Which number stands for which action, in whatever way it is asked for.
    pub proof fn codes_are_fixed(self)
        ensures
            self is NoAction <==> self.code() == 0,
            self is Cascade <==> self.code() == 1,
            self is SetNull <==> self.code() == 2,
            self is SetDefault <==> self.code() == 3,
            self is Restrict <==> self.code() == 4,
            <u8 as FromSpec<Action>>::from_spec(self) == self.code(),
            <u16 as FromSpec<Action>>::from_spec(self) == self.code(),
            <u8 as FromSpec<Action>>::obeys_from_spec(),
            <u16 as FromSpec<Action>>::obeys_from_spec(),
    {
    }

    /// Different actions have different numbers, all of them from 0 to 4.
    pub proof fn codes_tell_actions_apart(self, other: Action)
        ensures
            self.code() <= 4,
            self.code() == other.code() <==> self == other,
    {
    }
}

impl FromSpecImpl<Action> for u8 {
    open spec fn obeys_from_spec() -> bool {
        true
    }

    open spec fn from_spec(value: Action) -> u8 {
        value.code()
    }
}

impl From<Action> for u8 {
    fn from(value: Action) -> (code: u8)
        ensures
            value is NoAction <==> code == 0,
            value is Cascade <==> code == 1,
            value is SetNull <==> code == 2,
            value is SetDefault <==> code == 3,
            value is Restrict <==> code == 4,
    {
        match value {
            Action::NoAction => 0,
            Action::Cascade => 1,
            Action::SetNull => 2,
            Action::SetDefault => 3,
            Action::Restrict => 4,
        }
    }
}

impl FromSpecImpl<Action> for u16 {
    open spec fn obeys_from_spec() -> bool {
        true
    }

    open spec fn from_spec(value: Action) -> u16 {
        value.code() as u16
    }
}

impl From<Action> for u16 {
    fn from(value: Action) -> (code: u16)
        ensures
            value is NoAction <==> code == 0,
            value is Cascade <==> code == 1,
            value is SetNull <==> code == 2,
            value is SetDefault <==> code == 3,
            value is Restrict <==> code == 4,
    {
        match value {
            Action::NoAction => 0,
            Action::Cascade => 1,
            Action::SetNull => 2,
            Action::SetDefault => 3,
            Action::Restrict => 4,
        }
    }
}

/// A reference from a column to a column of a table.
#[derive(Debug, Clone, Copy)]
pub struct ForeignKey {
    pub constraint_name: Symbol,
    pub namespace: Symbol,
    /// The index of the table that is referred to.
    pub table: u16,
    /// The index of the column in that table.
    pub column: u16,
    pub on_update: Action,
    pub on_delete: Action,
}

impl ForeignKey {
    pub fn constraint_name(&self) -> (name: Symbol)
        ensures
            name == self.constraint_name,
    {
        self.constraint_name
    }

    pub fn namespace(&self) -> (namespace: Symbol)
        ensures
            namespace == self.namespace,
    {
        self.namespace
    }

    /// The index of the table that is referred to.
    pub fn table_index(&self) -> (index: usize)
        ensures
            index == self.table,
    {
        self.table as usize
    }

    /// The index of the column in the table that is referred to.
    pub fn column_index(&self) -> (index: usize)
        ensures
            index == self.column,
    {
        self.column as usize
    }

    pub fn on_update(&self) -> (action: Action)
        ensures
            action == self.on_update,
    {
        self.on_update
    }

    pub fn on_delete(&self) -> (action: Action)
        ensures
            action == self.on_delete,
    {
        self.on_delete
    }
}

/// The bit of the flag for a column that may hold null.
pub const NULLABLE: u8 = 1;

/// The bit of the flag for a column that is the primary key of its table.
pub const PRIMARY_KEY: u8 = 2;

/// The bit of the flag for a column that holds no value twice.
pub const UNIQUE: u8 = 4;

/// A set of flags of a column.
#[derive(Debug, Clone, Copy, PartialEq, Eq, Structural)]
pub struct ColumnFlags {
    bits: u8,
}

/// Whether all bits of `other` are set in `bits`.
pub open spec fn has_flags(bits: u8, other: u8) -> bool {
    bits & other == other
}

impl View for ColumnFlags {
    type V = u8;

    /// The flags, one bit each.
    closed spec fn view(&self) -> u8 {
        self.bits
    }
}

impl ColumnFlags {
    /// Two sets of flags with the same bits are the same set.
    pub proof fn same_bits_same_flags(a: ColumnFlags, b: ColumnFlags)
        requires
            a@ == b@,
        ensures
            a == b,
    {
    }

    /// The column may hold null.
    pub fn nullable() -> (flags: ColumnFlags)
        ensures
            flags@ == NULLABLE,
    {
        ColumnFlags { bits: NULLABLE }
    }

    /// The column is the primary key of its table.
    pub fn primary_key() -> (flags: ColumnFlags)
        ensures
            flags@ == PRIMARY_KEY,
    {
        ColumnFlags { bits: PRIMARY_KEY }
    }

    /// The column holds no value twice.
    pub fn unique() -> (flags: ColumnFlags)
        ensures
            flags@ == UNIQUE,
    {
        ColumnFlags { bits: UNIQUE }
    }

    /// Whether all flags of `other` are set.
    pub fn contains(self, other: ColumnFlags) -> (contained: bool)
        ensures
            contained == has_flags(self@, other@),
            contained <==> self@ & other@ == other@,
    {
        self.bits & other.bits == other.bits
    }

    /// The flags of both.
    pub fn with(self, other: ColumnFlags) -> (both: ColumnFlags)
        ensures
            both@ == self@ | other@,
    {
        ColumnFlags { bits: self.bits | other.bits }
    }

    /// Sets or removes all flags of `other`.
    pub fn set(&mut self, other: ColumnFlags, enabled: bool)
        ensures
            final(self)@ == if enabled {
                old(self)@ | other@
            } else {
                old(self)@ & !other@
            },
    {
        if enabled {
            self.bits = self.bits | other.bits;
        } else {
            self.bits = self.bits & !other.bits;
        }
    }

    /// The flags with the given bits.
    pub fn from_bits(bits: u8) -> (flags: ColumnFlags)
        ensures
            flags@ == bits,
    {
        ColumnFlags { bits }
    }
}

impl Default for ColumnFlags {
    /// No flags.
    fn default() -> (flags: ColumnFlags)
        ensures
            flags@ == 0,
    {
        ColumnFlags { bits: 0 }
    }
}

/// What is set is contained, what is removed is not, and other flags stay as
/// they are.
pub proof fn set_flags_are_contained(bits: u8, flag: u8, other: u8)
    ensures
        has_flags(bits | flag, flag),
        has_flags(bits, other) ==> has_flags(bits | flag, other),
        flag & other == 0 ==> has_flags(bits | flag, other) == has_flags(bits, other),
        flag != 0 ==> !has_flags(bits & !flag, flag),
        flag & other == 0 ==> has_flags(bits & !flag, other) == has_flags(bits, other),
{
    assert((bits | flag) & flag == flag) by (bit_vector);
    assert(bits & other == other ==> (bits | flag) & other == other) by (bit_vector);
    assert(flag & other == 0 ==> ((bits | flag) & other == other) == (bits & other == other))
        by (bit_vector);
    assert(flag != 0 ==> (bits & !flag) & flag != flag) by (bit_vector);
    assert(flag & other == 0 ==> ((bits & !flag) & other == other) == (bits & other == other))
        by (bit_vector);
}

/// All flags are set exactly where each one of them is.
pub proof fn flags_are_set_one_by_one(bits: u8, other: u8)
    ensures
        has_flags(bits, other) <==> {
            &&& (other & 1 != 0 ==> bits & 1 != 0)
            &&& (other & 2 != 0 ==> bits & 2 != 0)
            &&& (other & 4 != 0 ==> bits & 4 != 0)
            &&& (other & 8 != 0 ==> bits & 8 != 0)
            &&& (other & 16 != 0 ==> bits & 16 != 0)
            &&& (other & 32 != 0 ==> bits & 32 != 0)
            &&& (other & 64 != 0 ==> bits & 64 != 0)
            &&& (other & 128 != 0 ==> bits & 128 != 0)
        },
{
    assert((bits & other == other) <==> ((other & 1 != 0 ==> bits & 1 != 0) && (other & 2 != 0
        ==> bits & 2 != 0) && (other & 4 != 0 ==> bits & 4 != 0) && (other & 8 != 0 ==> bits & 8
        != 0) && (other & 16 != 0 ==> bits & 16 != 0) && (other & 32 != 0 ==> bits & 32 != 0) && (
    other & 64 != 0 ==> bits & 64 != 0) && (other & 128 != 0 ==> bits & 128 != 0))) by (bit_vector);
}

/// The flags of a column are the three lowest bits.
pub proof fn column_flags_are_low_bits(bits: u8)
    ensures
        NULLABLE == 1,
        PRIMARY_KEY == 2,
        UNIQUE == 4,
        has_flags(bits, NULLABLE) <==> bits % 2 == 1,
        has_flags(bits, PRIMARY_KEY) <==> bits / 2 % 2 == 1,
        has_flags(bits, UNIQUE) <==> bits / 4 % 2 == 1,
{
    assert((bits & 1 == 1) <==> bits % 2 == 1) by (bit_vector);
    assert((bits & 2 == 2) <==> (bits / 2) % 2 == 1) by (bit_vector);
    assert((bits & 4 == 4) <==> (bits / 4) % 2 == 1) by (bit_vector);
}

/// The flags of a column are independent of each other.
pub proof fn column_flags_are_distinct()
    ensures
        NULLABLE & PRIMARY_KEY == 0,
        NULLABLE & UNIQUE == 0,
        PRIMARY_KEY & UNIQUE == 0,
{
    assert(1u8 & 2u8 == 0) by (bit_vector);
    assert(1u8 & 4u8 == 0) by (bit_vector);
    assert(2u8 & 4u8 == 0) by (bit_vector);
}

/// A run of items of a pool.
#[derive(Debug, Clone, Copy)]
pub struct PoolRange {
    pub start: u32,
    pub len: u16,
}

impl PoolRange {
    /// Where the run ends.
    pub open spec fn end(self) -> int {
        self.start + self.len
    }

    /// A run goes from its start for its length: it holds its start and what
    /// follows it, as many items as its length says.
    pub proof fn run_goes_on_for_its_length(self)
        ensures
            self.end() - self.start == self.len,
    {
    }

    /// The run as a range of indices.
    pub(crate) fn as_range(self) -> (range: Range<usize>)
        requires
            self.end() <= usize::MAX,
        ensures
            range.start == self.start,
            range.end == self.end(),
            range.end == self.start + self.len,
    {
        self.start as usize..self.start as usize + self.len as usize
    }
}

impl Default for PoolRange {
    /// An empty run.
    fn default() -> (range: PoolRange)
        ensures
            range.start == 0,
            range.len == 0,
    {
        PoolRange { start: 0, len: 0 }
    }
}

/// A column of a table.
#[derive(Debug, Clone, Copy)]
pub struct Column {
    pub name: Symbol,
    pub data_type: ValueType,
    pub default_value: Option<Symbol>,
    pub flags: ColumnFlags,
    /// The constraints of the column, in the pool of constraints.
    pub constraints: PoolRange,
    /// The foreign keys of the column, in the pool of foreign keys.
    pub foreign_keys: PoolRange,
}

impl Column {
    pub fn name_symbol(&self) -> (name: Symbol)
        ensures
            name == self.name,
    {
        self.name
    }

    pub fn data_type(&self) -> (data_type: ValueType)
        ensures
            data_type == self.data_type,
    {
        self.data_type
    }

    pub fn default_value(&self) -> (default_value: Option<Symbol>)
        ensures
            default_value == self.default_value,
    {
        self.default_value
    }

    pub fn is_nullable(&self) -> (nullable: bool)
        ensures
            nullable == has_flags(self.flags@, NULLABLE),
            nullable <==> self.flags@ % 2 == 1,
    {
        proof {
            column_flags_are_low_bits(self.flags@);
        }
        self.flags.contains(ColumnFlags::nullable())
    }

    pub fn is_primary_key(&self) -> (primary_key: bool)
        ensures
            primary_key == has_flags(self.flags@, PRIMARY_KEY),
            primary_key <==> self.flags@ / 2 % 2 == 1,
    {
        proof {
            column_flags_are_low_bits(self.flags@);
        }
        self.flags.contains(ColumnFlags::primary_key())
    }

    pub fn is_unique(&self) -> (unique: bool)
        ensures
            unique == has_flags(self.flags@, UNIQUE),
            unique <==> self.flags@ / 4 % 2 == 1,
    {
        proof {
            column_flags_are_low_bits(self.flags@);
        }
        self.flags.contains(ColumnFlags::unique())
    }
}

/// A table: its name, and where its columns and its foreign keys stand.
#[derive(Debug, Clone, Copy)]
pub struct TableMeta {
    pub name: Symbol,
    pub columns_start: u32,
    pub columns_len: u16,
    /// Which of its columns is the primary key.
    pub primary_key: Option<u16>,
    pub fk_start: u32,
    pub fk_len: u16,
}

impl TableMeta {
    /// Where the columns end.
    pub open spec fn columns_end(self) -> int {
        self.columns_start + self.columns_len
    }

    /// Where the foreign keys end.
    pub open spec fn fk_end(self) -> int {
        self.fk_start + self.fk_len
    }

    /// Columns and foreign keys are runs of as many items as the table says.
    pub proof fn runs_go_on_for_their_lengths(self)
        ensures
            self.columns_end() - self.columns_start == self.columns_len,
            self.fk_end() - self.fk_start == self.fk_len,
    {
    }
}

} // verus!
