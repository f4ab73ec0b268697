//! The in-memory core of a small relational database.
//!
//! * [`SymbolInterner`] turns text into four-byte [`Symbol`]s and keeps every
//!   text in one flat arena that can be saved and loaded again.
//! * [`StringInterner`] turns text into shared strings, each text held once.
//! * [`Value`] is a value of a column, and [`ValueType`] its type.
//! * [`DatabaseSchema`] holds the tables of a database, found by index, by name
//!   or by the symbol of their name.
//!
//! The contracts speak of what an interner or a schema holds:
//! [`interner_model`] and [`schema_model`] say what that is and state the laws
//! that hold of it.

mod boxed;
mod cache;
pub mod capacity;
pub mod error;
pub mod hash;
pub mod interner_model;
pub mod pool;
pub mod record;
pub mod scalars;
pub mod schema;
pub mod schema_model;
pub mod schema_parts;
pub mod shards;
mod slices;
mod string_array;
pub mod string_interner;
pub mod symbol;
pub mod symbol_interner;
mod symbol_table;
mod text_set;
pub mod value;

pub use crate::error::InternError;
pub use crate::pool::MemoryPool;
pub use crate::schema::{ColumnRef, DatabaseSchema, TableRef};
pub use crate::schema_parts::{Action, Column, ColumnFlags, ForeignKey, PoolRange, TableMeta};
pub use crate::string_interner::StringInterner;
pub use crate::symbol::Symbol;
pub use crate::symbol_interner::SymbolInterner;
pub use crate::value::{CustomValue, OffsetDateTime, Value, ValueType};
