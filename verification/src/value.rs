//! Values and their types.
use crate::boxed;
use crate::scalars;
use crate::slices;
use crate::symbol::Symbol;
use chrono::{NaiveDate, NaiveDateTime, NaiveTime};
use rust_decimal::Decimal;
use serde_json::Value as JsonValue;
use uuid::Uuid;
use vstd::prelude::*;
use vstd::std_specs::cmp::{PartialEqIs, PartialEqSpec, PartialEqSpecImpl};
use vstd::std_specs::convert::{FromSpec, FromSpecImpl};
use vstd::utf8::*;

verus! {

/// The type of a value or of a column.
#[derive(Debug, Clone, Copy, PartialEq, Eq, Structural, Hash)]
pub enum ValueType {
    Null,
    Bool,
    Int,
    Float,
    Decimal,
    Text,
    Blob,
    Json,
    Uuid,
    Timestamp,
    TimestampTz,
    Date,
    Time,
    TimeTz,
    /// A type of the user's own, by its name.
    Custom(Symbol),
    BoolArray,
    IntArray,
    FloatArray,
    DecimalArray,
    TextArray,
}

/// A value of a type of the user's own: the name of the type, and the value as
/// text.
#[derive(Debug)]
pub struct CustomValue {
    pub name: Symbol,
    pub value: Box<str>,
}

/// A point in time together with the offset from UTC at which it was noted.
#[derive(Clone, Copy)]
pub struct OffsetDateTime {
    /// The date and time in UTC.
    pub utc: NaiveDateTime,
    /// The offset from UTC, in seconds to the east.
    pub offset_seconds: i32,
}

/// A value of a column.
pub enum Value {
    Null,
    Bool(bool),
    Int(i64),
    /// A floating-point number, as the 64 bits of its IEEE 754 form.
    Float(u64),
    Decimal(Decimal),
    Text(Box<str>),
    Blob(Box<[u8]>),
    Json(Box<JsonValue>),
    Uuid(Uuid),
    Timestamp(NaiveDateTime),
    /// A point in time, as its date and time in UTC.
    TimestampTz(NaiveDateTime),
    Date(NaiveDate),
    Time(NaiveTime),
    TimeTz(OffsetDateTime),
    Custom(Box<CustomValue>),
    BoolArray(Box<[bool]>),
    IntArray(Box<[i64]>),
    /// Floating-point numbers, each as the 64 bits of its IEEE 754 form.
    FloatArray(Box<[u64]>),
    DecimalArray(Box<[Decimal]>),
    TextArray(Box<[Box<str>]>),
}

/// Whether the 64 bits of a floating-point number are those of a NaN: all bits
/// of the exponent set, and some bit of the fraction.
pub open spec fn bits_are_nan(bits: u64) -> bool {
    bits & 0x7FFF_FFFF_FFFF_FFFF > 0x7FF0_0000_0000_0000
}

/// Whether the 64 bits of a floating-point number are those of a zero of
/// either sign.
pub open spec fn bits_are_zero(bits: u64) -> bool {
    bits & 0x7FFF_FFFF_FFFF_FFFF == 0
}

/// Whether two floating-point numbers compare equal: a NaN is equal to
/// nothing, and the two zeros are equal.
pub open spec fn bits_compare_equal(a: u64, b: u64) -> bool {
    !bits_are_nan(a) && !bits_are_nan(b) && (a == b || (bits_are_zero(a) && bits_are_zero(b)))
}

/// Whether two lists of floating-point numbers compare equal, item by item.
pub open spec fn floats_compare_equal(a: Seq<u64>, b: Seq<u64>) -> bool {
    &&& a.len() == b.len()
    &&& forall|i: int| 0 <= i < a.len() ==> bits_compare_equal(#[trigger] a[i], b[i])
}

/// The numbers that some decimals stand for.
pub open spec fn all_decimal_units(decimals: Seq<Decimal>) -> Seq<int> {
    decimals.map_values(|d: Decimal| scalars::decimal_units(d))
}

/// The texts of some strings.
pub open spec fn all_texts(strings: Seq<Box<str>>) -> Seq<Seq<char>> {
    strings.map_values(|s: Box<str>| (*s)@)
}

impl CustomValue {
    /// Whether two values have the same type name and the same text.
    pub open spec fn equals(self, other: CustomValue) -> bool {
        self.name == other.name && (*self.value)@ == (*other.value)@
    }
}

impl Value {
    /// The type of the value.
    pub open spec fn spec_kind(self) -> ValueType {
        match self {
            Value::Null => ValueType::Null,
            Value::Bool(_) => ValueType::Bool,
            Value::Int(_) => ValueType::Int,
            Value::Float(_) => ValueType::Float,
            Value::Decimal(_) => ValueType::Decimal,
            Value::Text(_) => ValueType::Text,
            Value::Blob(_) => ValueType::Blob,
            Value::Json(_) => ValueType::Json,
            Value::Uuid(_) => ValueType::Uuid,
            Value::Timestamp(_) => ValueType::Timestamp,
            Value::TimestampTz(_) => ValueType::TimestampTz,
            Value::Date(_) => ValueType::Date,
            Value::Time(_) => ValueType::Time,
            Value::TimeTz(_) => ValueType::TimeTz,
            Value::Custom(custom) => ValueType::Custom(custom.name),
            Value::BoolArray(_) => ValueType::BoolArray,
            Value::IntArray(_) => ValueType::IntArray,
            Value::FloatArray(_) => ValueType::FloatArray,
            Value::DecimalArray(_) => ValueType::DecimalArray,
            Value::TextArray(_) => ValueType::TextArray,
        }
    }

    /// Whether two values are equal. Single floating-point numbers are equal
    /// where their bits are; lists of them are equal where they compare equal.
    /// Points in time are equal whatever their offsets from UTC.
    pub open spec fn equals(self, other: Value) -> bool {
        match (self, other) {
            (Value::Null, Value::Null) => true,
            (Value::Bool(a), Value::Bool(b)) => a == b,
            (Value::Int(a), Value::Int(b)) => a == b,
            (Value::Float(a), Value::Float(b)) => a == b,
            (Value::Decimal(a), Value::Decimal(b)) => scalars::decimal_units(a)
                == scalars::decimal_units(b),
            (Value::Text(a), Value::Text(b)) => (*a)@ == (*b)@,
            (Value::Blob(a), Value::Blob(b)) => (*a)@ == (*b)@,
            (Value::Json(a), Value::Json(b)) => scalars::json_class(*a) == scalars::json_class(*b),
            (Value::Uuid(a), Value::Uuid(b)) => a == b,
            (Value::Timestamp(a), Value::Timestamp(b)) => a == b,
            (Value::TimestampTz(a), Value::TimestampTz(b)) => a == b,
            (Value::Date(a), Value::Date(b)) => a == b,
            (Value::Time(a), Value::Time(b)) => a == b,
            (Value::TimeTz(a), Value::TimeTz(b)) => a.utc == b.utc,
            (Value::Custom(a), Value::Custom(b)) => a.equals(*b),
            (Value::BoolArray(a), Value::BoolArray(b)) => (*a)@ == (*b)@,
            (Value::IntArray(a), Value::IntArray(b)) => (*a)@ == (*b)@,
            (Value::FloatArray(a), Value::FloatArray(b)) => floats_compare_equal((*a)@, (*b)@),
            (Value::DecimalArray(a), Value::DecimalArray(b)) => all_decimal_units((*a)@)
                == all_decimal_units((*b)@),
            (Value::TextArray(a), Value::TextArray(b)) => all_texts((*a)@) == all_texts((*b)@),
            _ => false,
        }
    }

    /// The type of the value.
    pub fn kind(&self) -> (kind: ValueType)
        ensures
            kind == self.spec_kind(),
            kind is Null <==> *self is Null,
            kind is Custom <==> *self is Custom,
    {
        match self {
            Value::Null => ValueType::Null,
            Value::Bool(_) => ValueType::Bool,
            Value::Int(_) => ValueType::Int,
            Value::Float(_) => ValueType::Float,
            Value::Decimal(_) => ValueType::Decimal,
            Value::Text(_) => ValueType::Text,
            Value::Blob(_) => ValueType::Blob,
            Value::Json(_) => ValueType::Json,
            Value::Uuid(_) => ValueType::Uuid,
            Value::Timestamp(_) => ValueType::Timestamp,
            Value::TimestampTz(_) => ValueType::TimestampTz,
            Value::Date(_) => ValueType::Date,
            Value::Time(_) => ValueType::Time,
            Value::TimeTz(_) => ValueType::TimeTz,
            Value::Custom(custom) => ValueType::Custom(custom.name),
            Value::BoolArray(_) => ValueType::BoolArray,
            Value::IntArray(_) => ValueType::IntArray,
            Value::FloatArray(_) => ValueType::FloatArray,
            Value::DecimalArray(_) => ValueType::DecimalArray,
            Value::TextArray(_) => ValueType::TextArray,
        }
    }

    /// Whether the value is null.
    pub fn is_null(&self) -> (null: bool)
        ensures
            null <==> *self is Null,
    {
        matches!(self, Value::Null)
    }

    /// `==` is equality of values, and values of different kinds are never equal.
    pub proof fn equality_is_what_eq_answers(self, other: Value)
        ensures
            <Value as PartialEqSpec>::obeys_eq_spec(),
            self.is_eq(&other) == self.equals(other),
            self is Null && other is Null ==> self.is_eq(&other),
            self.is_eq(&other) ==> {
                &&& (self is Null <==> other is Null)
                &&& (self is Bool <==> other is Bool)
                &&& (self is Int <==> other is Int)
                &&& (self is Float <==> other is Float)
                &&& (self is Decimal <==> other is Decimal)
                &&& (self is Text <==> other is Text)
                &&& (self is Blob <==> other is Blob)
                &&& (self is Json <==> other is Json)
                &&& (self is Uuid <==> other is Uuid)
                &&& (self is Timestamp <==> other is Timestamp)
                &&& (self is TimestampTz <==> other is TimestampTz)
                &&& (self is Date <==> other is Date)
                &&& (self is Time <==> other is Time)
                &&& (self is TimeTz <==> other is TimeTz)
                &&& (self is Custom <==> other is Custom)
                &&& (self is BoolArray <==> other is BoolArray)
                &&& (self is IntArray <==> other is IntArray)
                &&& (self is FloatArray <==> other is FloatArray)
                &&& (self is DecimalArray <==> other is DecimalArray)
                &&& (self is TextArray <==> other is TextArray)
            },
    {
    }

    /// Truth values, integers and the bits of single floating-point numbers are
    /// equal as values exactly where they are equal.
    pub proof fn plain_values_are_equal_by_content(
        truth: (bool, bool),
        number: (i64, i64),
        bits: (u64, u64),
    )
        ensures
            Value::Bool(truth.0).is_eq(&Value::Bool(truth.1)) <==> truth.0 == truth.1,
            Value::Int(number.0).is_eq(&Value::Int(number.1)) <==> number.0 == number.1,
            Value::Float(bits.0).is_eq(&Value::Float(bits.1)) <==> bits.0 == bits.1,
    {
    }

    /// Decimals are equal as values where they stand for the same number, JSON
    /// where `==` of the two holds, and identifiers where they are the same.
    pub proof fn documents_are_equal_by_content(
        decimal: (Decimal, Decimal),
        json: (Box<JsonValue>, Box<JsonValue>),
        uuid: (Uuid, Uuid),
    )
        ensures
            Value::Decimal(decimal.0).is_eq(&Value::Decimal(decimal.1)) <==> (
            scalars::decimal_units(decimal.0) == scalars::decimal_units(decimal.1)),
            Value::Json(json.0).is_eq(&Value::Json(json.1)) <==> scalars::json_class(*json.0)
                == scalars::json_class(*json.1),
            Value::Uuid(uuid.0).is_eq(&Value::Uuid(uuid.1)) <==> uuid.0 == uuid.1,
    {
    }

    /// Dates and times are equal as values where they are the same; those with
    /// an offset where they are the same point in time.
    pub proof fn times_are_equal_by_content(
        moment: (NaiveDateTime, NaiveDateTime),
        date: (NaiveDate, NaiveDate),
        time: (NaiveTime, NaiveTime),
        zoned: (OffsetDateTime, OffsetDateTime),
    )
        ensures
            Value::Timestamp(moment.0).is_eq(&Value::Timestamp(moment.1)) <==> moment.0
                == moment.1,
            Value::TimestampTz(moment.0).is_eq(&Value::TimestampTz(moment.1)) <==> moment.0
                == moment.1,
            Value::Date(date.0).is_eq(&Value::Date(date.1)) <==> date.0 == date.1,
            Value::Time(time.0).is_eq(&Value::Time(time.1)) <==> time.0 == time.1,
            Value::TimeTz(zoned.0).is_eq(&Value::TimeTz(zoned.1)) <==> zoned.0.utc
                == zoned.1.utc,
    {
    }

    /// Texts and bytes are equal as values where they have the same length and
    /// the same items; values of the user's own where name and text are.
    pub proof fn texts_are_equal_by_content(
        text: (Box<str>, Box<str>),
        bytes: (Box<[u8]>, Box<[u8]>),
        custom: (Box<CustomValue>, Box<CustomValue>),
    )
        ensures
            Value::Text(text.0).is_eq(&Value::Text(text.1)) <==> {
                &&& (*text.0)@.len() == (*text.1)@.len()
                &&& forall|i: int|
                    0 <= i < (*text.0)@.len() ==> #[trigger] (*text.0)@[i] == (*text.1)@[i]
            },
            Value::Blob(bytes.0).is_eq(&Value::Blob(bytes.1)) <==> {
                &&& (*bytes.0)@.len() == (*bytes.1)@.len()
                &&& forall|i: int|
                    0 <= i < (*bytes.0)@.len() ==> #[trigger] (*bytes.0)@[i] == (*bytes.1)@[i]
            },
            Value::Custom(custom.0).is_eq(&Value::Custom(custom.1)) <==> {
                &&& custom.0.name@ == custom.1.name@
                &&& (*custom.0.value)@ == (*custom.1.value)@
            },
            <CustomValue as PartialEqSpec>::obeys_eq_spec(),
            (*custom.0).is_eq(&*custom.1) <==> {
                &&& custom.0.name@ == custom.1.name@
                &&& (*custom.0.value)@ == (*custom.1.value)@
            },
            (*custom.0).equals(*custom.1) == (*custom.0).is_eq(&*custom.1),
    {
        if (*text.0)@.len() == (*text.1)@.len() && (forall|i: int|
            0 <= i < (*text.0)@.len() ==> #[trigger] (*text.0)@[i] == (*text.1)@[i]) {
            assert((*text.0)@ =~= (*text.1)@);
        }
        if (*bytes.0)@.len() == (*bytes.1)@.len() && (forall|i: int|
            0 <= i < (*bytes.0)@.len() ==> #[trigger] (*bytes.0)@[i] == (*bytes.1)@[i]) {
            assert((*bytes.0)@ =~= (*bytes.1)@);
        }
        if custom.0.name@ == custom.1.name@ {
            Symbol::same_raw_same_symbol(custom.0.name, custom.1.name);
        }
    }

    /// Lists are equal as values where they have the same length and equal
    /// items.
    pub proof fn lists_are_equal_by_content(
        truths: (Box<[bool]>, Box<[bool]>),
        numbers: (Box<[i64]>, Box<[i64]>),
        decimals: (Box<[Decimal]>, Box<[Decimal]>),
        texts: (Box<[Box<str>]>, Box<[Box<str>]>),
    )
        ensures
            Value::BoolArray(truths.0).is_eq(&Value::BoolArray(truths.1)) <==> {
                &&& (*truths.0)@.len() == (*truths.1)@.len()
                &&& forall|i: int|
                    0 <= i < (*truths.0)@.len() ==> #[trigger] (*truths.0)@[i] == (*truths.1)@[i]
            },
            Value::IntArray(numbers.0).is_eq(&Value::IntArray(numbers.1)) <==> {
                &&& (*numbers.0)@.len() == (*numbers.1)@.len()
                &&& forall|i: int|
                    0 <= i < (*numbers.0)@.len() ==> #[trigger] (*numbers.0)@[i]
                        == (*numbers.1)@[i]
            },
            Value::DecimalArray(decimals.0).is_eq(&Value::DecimalArray(decimals.1)) <==> {
                &&& (*decimals.0)@.len() == (*decimals.1)@.len()
                &&& forall|i: int|
                    0 <= i < (*decimals.0)@.len() ==> scalars::decimal_units(
                        #[trigger] (*decimals.0)@[i],
                    ) == scalars::decimal_units((*decimals.1)@[i])
            },
            Value::TextArray(texts.0).is_eq(&Value::TextArray(texts.1)) <==> {
                &&& (*texts.0)@.len() == (*texts.1)@.len()
                &&& forall|i: int|
                    0 <= i < (*texts.0)@.len() ==> (*#[trigger] (*texts.0)@[i])@
                        == (*(*texts.1)@[i])@
            },
    {
        if (*truths.0)@.len() == (*truths.1)@.len() && (forall|i: int|
            0 <= i < (*truths.0)@.len() ==> #[trigger] (*truths.0)@[i] == (*truths.1)@[i]) {
            assert((*truths.0)@ =~= (*truths.1)@);
        }
        if (*numbers.0)@.len() == (*numbers.1)@.len() && (forall|i: int|
            0 <= i < (*numbers.0)@.len() ==> #[trigger] (*numbers.0)@[i] == (*numbers.1)@[i]) {
            assert((*numbers.0)@ =~= (*numbers.1)@);
        }
        let da = (*decimals.0)@;
        let db = (*decimals.1)@;
        if all_decimal_units(da) == all_decimal_units(db) {
            assert(all_decimal_units(da).len() == all_decimal_units(db).len());
            assert forall|i: int| 0 <= i < da.len() implies scalars::decimal_units(#[trigger] da[i])
                == scalars::decimal_units(db[i]) by {
                assert(all_decimal_units(da)[i] == all_decimal_units(db)[i]);
            }
        }
        if da.len() == db.len() && (forall|i: int|
            0 <= i < da.len() ==> scalars::decimal_units(#[trigger] da[i])
                == scalars::decimal_units(db[i])) {
            assert(all_decimal_units(da) =~= all_decimal_units(db));
        }
        let ta = (*texts.0)@;
        let tb = (*texts.1)@;
        if all_texts(ta) == all_texts(tb) {
            assert(all_texts(ta).len() == all_texts(tb).len());
            assert forall|i: int| 0 <= i < ta.len() implies (*#[trigger] ta[i])@ == (*tb[i])@ by {
                assert(all_texts(ta)[i] == all_texts(tb)[i]);
            }
        }
        if ta.len() == tb.len() && (forall|i: int|
            0 <= i < ta.len() ==> (*#[trigger] ta[i])@ == (*tb[i])@) {
            assert(all_texts(ta) =~= all_texts(tb));
        }
    }

    /// Lists of floating-point numbers are equal as values where they have the
    /// same length and no item of either is a NaN (an exponent of all ones and
    /// a fraction other than zero), and the items are the same but for the sign
    /// of a zero.
    pub proof fn float_lists_are_equal_by_content(a: Box<[u64]>, b: Box<[u64]>)
        ensures
            Value::FloatArray(a).is_eq(&Value::FloatArray(b)) <==> {
                &&& (*a)@.len() == (*b)@.len()
                &&& forall|i: int|
                    0 <= i < (*a)@.len() ==> {
                        &&& !((#[trigger] (*a)@[i] / 0x10_0000_0000_0000) % 0x800 == 0x7FF
                            && (*a)@[i] % 0x10_0000_0000_0000 != 0)
                        &&& !(((*b)@[i] / 0x10_0000_0000_0000) % 0x800 == 0x7FF && (*b)@[i]
                            % 0x10_0000_0000_0000 != 0)
                        &&& (*a)@[i] == (*b)@[i] || ((*a)@[i] % 0x8000_0000_0000_0000 == 0
                            && (*b)@[i] % 0x8000_0000_0000_0000 == 0)
                    }
            },
    {
        assert forall|i: int| 0 <= i < (*a)@.len() implies (bits_compare_equal(
            #[trigger] (*a)@[i],
            (*b)@[i],
        ) <==> {
            &&& !(((*a)@[i] / 0x10_0000_0000_0000) % 0x800 == 0x7FF && (*a)@[i]
                % 0x10_0000_0000_0000 != 0)
            &&& !(((*b)@[i] / 0x10_0000_0000_0000) % 0x800 == 0x7FF && (*b)@[i]
                % 0x10_0000_0000_0000 != 0)
            &&& (*a)@[i] == (*b)@[i] || ((*a)@[i] % 0x8000_0000_0000_0000 == 0 && (*b)@[i]
                % 0x8000_0000_0000_0000 == 0)
        }) by {
            lemma_bits((*a)@[i]);
            lemma_bits((*b)@[i]);
        }
    }

    /// The kind of a value tells which variant it is, and the name of a type of
    /// the user's own.
    pub proof fn kind_tells_the_variant(self)
        ensures
            self is Null <==> self.spec_kind() is Null,
            self is Bool <==> self.spec_kind() is Bool,
            self is Int <==> self.spec_kind() is Int,
            self is Float <==> self.spec_kind() is Float,
            self is Decimal <==> self.spec_kind() is Decimal,
            self is Text <==> self.spec_kind() is Text,
            self is Blob <==> self.spec_kind() is Blob,
            self is Json <==> self.spec_kind() is Json,
            self is Uuid <==> self.spec_kind() is Uuid,
            self is Timestamp <==> self.spec_kind() is Timestamp,
            self is TimestampTz <==> self.spec_kind() is TimestampTz,
            self is Date <==> self.spec_kind() is Date,
            self is Time <==> self.spec_kind() is Time,
            self is TimeTz <==> self.spec_kind() is TimeTz,
            self is Custom <==> self.spec_kind() is Custom,
            self is BoolArray <==> self.spec_kind() is BoolArray,
            self is IntArray <==> self.spec_kind() is IntArray,
            self is FloatArray <==> self.spec_kind() is FloatArray,
            self is DecimalArray <==> self.spec_kind() is DecimalArray,
            self is TextArray <==> self.spec_kind() is TextArray,
            self matches Value::Custom(custom) ==> self.spec_kind() == ValueType::Custom(
                custom.name,
            ),
    {
    }

    /// Converting an integer keeps its number, whatever its type, and so tells
    /// different numbers apart.
    pub proof fn conversion_keeps_the_number(
        small: (i8, i16, i32, i64),
        unsigned: (u8, u16, u32),
        other: (i8, i16, i32, i64),
        unsigned_other: (u8, u16, u32),
    )
        ensures
            <Value as FromSpec<i8>>::from_spec(small.0) matches Value::Int(n) && n as int
                == small.0 as int,
            <Value as FromSpec<i16>>::from_spec(small.1) matches Value::Int(n) && n as int
                == small.1 as int,
            <Value as FromSpec<i32>>::from_spec(small.2) matches Value::Int(n) && n as int
                == small.2 as int,
            <Value as FromSpec<i64>>::from_spec(small.3) matches Value::Int(n) && n as int
                == small.3 as int,
            <Value as FromSpec<u8>>::from_spec(unsigned.0) matches Value::Int(n) && n as int
                == unsigned.0 as int,
            <Value as FromSpec<u16>>::from_spec(unsigned.1) matches Value::Int(n) && n as int
                == unsigned.1 as int,
            <Value as FromSpec<u32>>::from_spec(unsigned.2) matches Value::Int(n) && n as int
                == unsigned.2 as int,
            <Value as FromSpec<i8>>::from_spec(small.0) == <Value as FromSpec<i8>>::from_spec(
                other.0,
            ) <==> small.0 == other.0,
            <Value as FromSpec<i16>>::from_spec(small.1) == <Value as FromSpec<i16>>::from_spec(
                other.1,
            ) <==> small.1 == other.1,
            <Value as FromSpec<i32>>::from_spec(small.2) == <Value as FromSpec<i32>>::from_spec(
                other.2,
            ) <==> small.2 == other.2,
            <Value as FromSpec<i64>>::from_spec(small.3) == <Value as FromSpec<i64>>::from_spec(
                other.3,
            ) <==> small.3 == other.3,
            <Value as FromSpec<u8>>::from_spec(unsigned.0) == <Value as FromSpec<u8>>::from_spec(
                unsigned_other.0,
            ) <==> unsigned.0 == unsigned_other.0,
            <Value as FromSpec<u16>>::from_spec(unsigned.1) == <Value as FromSpec<u16>>::from_spec(
                unsigned_other.1,
            ) <==> unsigned.1 == unsigned_other.1,
            <Value as FromSpec<u32>>::from_spec(unsigned.2) == <Value as FromSpec<u32>>::from_spec(
                unsigned_other.2,
            ) <==> unsigned.2 == unsigned_other.2,
            <Value as FromSpec<i8>>::obeys_from_spec(),
            <Value as FromSpec<i16>>::obeys_from_spec(),
            <Value as FromSpec<i32>>::obeys_from_spec(),
            <Value as FromSpec<i64>>::obeys_from_spec(),
            <Value as FromSpec<u8>>::obeys_from_spec(),
            <Value as FromSpec<u16>>::obeys_from_spec(),
            <Value as FromSpec<u32>>::obeys_from_spec(),
    {
    }

    /// Converting any other scalar keeps it as it is.
    pub proof fn conversion_keeps_the_scalar(
        truth: bool,
        bytes: Box<[u8]>,
        json: JsonValue,
        moment: NaiveDateTime,
        uuid: Uuid,
        decimal: Decimal,
    )
        ensures
            <Value as FromSpec<bool>>::from_spec(truth) matches Value::Bool(held) && held == truth,
            <Value as FromSpec<Box<[u8]>>>::from_spec(bytes) matches Value::Blob(held) && held
                == bytes,
            <Value as FromSpec<JsonValue>>::from_spec(json) matches Value::Json(held) && *held
                == json,
            <Value as FromSpec<NaiveDateTime>>::from_spec(moment) matches Value::Timestamp(held)
                && held == moment,
            <Value as FromSpec<Uuid>>::from_spec(uuid) matches Value::Uuid(held) && held == uuid,
            <Value as FromSpec<Decimal>>::from_spec(decimal) matches Value::Decimal(held) && held
                == decimal,
    {
    }

    /// A value is null exactly where its type is.
    pub proof fn null_is_of_type_null(self)
        ensures
            self is Null <==> self.spec_kind() == ValueType::Null,
    {
    }

    /// Equal values have the same type.
    pub proof fn equal_values_have_one_type(self, other: Value)
        requires
            self.equals(other),
        ensures
            self.spec_kind() == other.spec_kind(),
    {
    }

    /// Every value is equal to itself, but for a list of floating-point numbers
    /// with a NaN among them.
    pub proof fn equality_is_reflexive(self)
        ensures
            self.equals(self) <==> !(self matches Value::FloatArray(bits) && exists|i: int|
                0 <= i < (*bits)@.len() && bits_are_nan(#[trigger] (*bits)@[i])),
    {
    }

    /// The order of two values makes no difference to whether they are equal.
    pub proof fn equality_is_symmetric(self, other: Value)
        ensures
            self.equals(other) == other.equals(self),
    {
        if let (Value::FloatArray(a), Value::FloatArray(b)) = (self, other) {
            if self.equals(other) {
                lemma_floats_symmetric((*a)@, (*b)@);
            }
            if other.equals(self) {
                lemma_floats_symmetric((*b)@, (*a)@);
            }
        }
    }

    /// Values that are equal to the same value are equal.
    pub proof fn equality_is_transitive(self, other: Value, third: Value)
        requires
            self.equals(other),
            other.equals(third),
        ensures
            self.equals(third),
    {
        if let (Value::FloatArray(a), Value::FloatArray(b)) = (self, other) {
            if let Value::FloatArray(c) = third {
                assert forall|i: int| 0 <= i < (*a)@.len() implies bits_compare_equal(
                    #[trigger] (*a)@[i],
                    (*c)@[i],
                ) by {
                    assert(bits_compare_equal((*a)@[i], (*b)@[i]));
                    assert(bits_compare_equal((*b)@[i], (*c)@[i]));
                }
            }
        }
    }
}

proof fn lemma_bits(bits: u64)
    ensures
        bits_are_nan(bits) <==> (bits / 0x10_0000_0000_0000) % 0x800 == 0x7FF && bits
            % 0x10_0000_0000_0000 != 0,
        bits_are_zero(bits) <==> bits % 0x8000_0000_0000_0000 == 0,
{
    assert((bits & 0x7FFF_FFFF_FFFF_FFFF > 0x7FF0_0000_0000_0000) <==> ((bits
        / 0x10_0000_0000_0000) % 0x800 == 0x7FF && bits % 0x10_0000_0000_0000 != 0))
        by (bit_vector);
    assert((bits & 0x7FFF_FFFF_FFFF_FFFF == 0) <==> bits % 0x8000_0000_0000_0000 == 0)
        by (bit_vector);
}

proof fn lemma_floats_symmetric(a: Seq<u64>, b: Seq<u64>)
    requires
        floats_compare_equal(a, b),
    ensures
        floats_compare_equal(b, a),
{
    assert forall|i: int| 0 <= i < b.len() implies bits_compare_equal(#[trigger] b[i], a[i]) by {
        assert(bits_compare_equal(a[i], b[i]));
    }
}

/// Whether two strings hold the same text.
fn text_eq(a: &str, b: &str) -> (equal: bool)
    ensures
        equal <==> a@ == b@,
{
    proof {
        encode_utf8_decode_utf8(a@);
        encode_utf8_decode_utf8(b@);
    }
    slices::items_equal(a.as_bytes(), b.as_bytes())
}

/// Whether two floating-point numbers, given by their bits, compare equal.
fn bits_eq(a: u64, b: u64) -> (equal: bool)
    ensures
        equal == bits_compare_equal(a, b),
{
    let magnitude_a: u64 = a & 0x7FFF_FFFF_FFFF_FFFF;
    let magnitude_b: u64 = b & 0x7FFF_FFFF_FFFF_FFFF;
    magnitude_a <= 0x7FF0_0000_0000_0000 && magnitude_b <= 0x7FF0_0000_0000_0000 && (a == b || (
    magnitude_a == 0 && magnitude_b == 0))
}

/// Whether two lists of floating-point numbers, given by their bits, compare equal.
fn floats_eq(a: &[u64], b: &[u64]) -> (equal: bool)
    ensures
        equal <==> floats_compare_equal(a@, b@),
{
    if a.len() != b.len() {
        return false;
    }
    let mut i: usize = 0;
    while i < a.len()
        invariant
            i <= a@.len(),
            a@.len() == b@.len(),
            forall|j: int| 0 <= j < i ==> bits_compare_equal(#[trigger] a@[j], b@[j]),
        decreases a@.len() - i,
    {
        if !bits_eq(a[i], b[i]) {
            return false;
        }
        i = i + 1;
    }
    true
}

/// Whether two lists hold decimals that stand for the same numbers.
fn decimals_eq(a: &[Decimal], b: &[Decimal]) -> (equal: bool)
    ensures
        equal <==> all_decimal_units(a@) == all_decimal_units(b@),
{
    if a.len() != b.len() {
        proof {
            assert(all_decimal_units(a@).len() != all_decimal_units(b@).len());
        }
        return false;
    }
    let mut i: usize = 0;
    while i < a.len()
        invariant
            i <= a@.len(),
            a@.len() == b@.len(),
            forall|j: int| 0 <= j < i ==> scalars::decimal_units(#[trigger] a@[j]) == scalars::decimal_units(b@[j]),
        decreases a@.len() - i,
    {
        if !scalars::decimal_eq(&a[i], &b[i]) {
            proof {
                assert(all_decimal_units(a@)[i as int] != all_decimal_units(b@)[i as int]);
            }
            return false;
        }
        i = i + 1;
    }
    proof {
        assert(all_decimal_units(a@) =~= all_decimal_units(b@));
    }
    true
}

/// Whether two lists hold the same texts.
fn texts_eq(a: &[Box<str>], b: &[Box<str>]) -> (equal: bool)
    ensures
        equal <==> all_texts(a@) == all_texts(b@),
{
    if a.len() != b.len() {
        proof {
            assert(all_texts(a@).len() != all_texts(b@).len());
        }
        return false;
    }
    let mut i: usize = 0;
    while i < a.len()
        invariant
            i <= a@.len(),
            a@.len() == b@.len(),
            forall|j: int| 0 <= j < i ==> (*#[trigger] a@[j])@ == (*b@[j])@,
        decreases a@.len() - i,
    {
        if !text_eq(&a[i], &b[i]) {
            proof {
                assert(all_texts(a@)[i as int] != all_texts(b@)[i as int]);
            }
            return false;
        }
        i = i + 1;
    }
    proof {
        assert(all_texts(a@) =~= all_texts(b@));
    }
    true
}

impl PartialEqSpecImpl for CustomValue {
    open spec fn obeys_eq_spec() -> bool {
        true
    }

    open spec fn eq_spec(&self, other: &CustomValue) -> bool {
        self.equals(*other)
    }
}

impl PartialEq for CustomValue {
    fn eq(&self, other: &CustomValue) -> (equal: bool) {
        self.name == other.name && text_eq(&self.value, &other.value)
    }
}

impl Eq for CustomValue {

}

impl Clone for CustomValue {
    fn clone(&self) -> (copy: CustomValue)
        ensures
            copy.equals(*self),
            copy.name == self.name,
            (*copy.value)@ == (*self.value)@,
    {
        CustomValue { name: self.name, value: boxed::boxed_text((*self.value).to_owned()) }
    }
}

impl PartialEqSpecImpl for Value {
    open spec fn obeys_eq_spec() -> bool {
        true
    }

    open spec fn eq_spec(&self, other: &Value) -> bool {
        self.equals(*other)
    }
}

impl PartialEq for Value {
    fn eq(&self, other: &Value) -> (equal: bool) {
        match (self, other) {
            (Value::Null, Value::Null) => true,
            (Value::Bool(a), Value::Bool(b)) => *a == *b,
            (Value::Int(a), Value::Int(b)) => *a == *b,
            (Value::Float(a), Value::Float(b)) => *a == *b,
            (Value::Decimal(a), Value::Decimal(b)) => scalars::decimal_eq(a, b),
            (Value::Text(a), Value::Text(b)) => text_eq(a, b),
            (Value::Blob(a), Value::Blob(b)) => slices::items_equal(a, b),
            (Value::Json(a), Value::Json(b)) => scalars::json_eq(a, b),
            (Value::Uuid(a), Value::Uuid(b)) => scalars::uuid_eq(a, b),
            (Value::Timestamp(a), Value::Timestamp(b)) => scalars::datetime_eq(a, b),
            (Value::TimestampTz(a), Value::TimestampTz(b)) => scalars::datetime_eq(a, b),
            (Value::Date(a), Value::Date(b)) => scalars::date_eq(a, b),
            (Value::Time(a), Value::Time(b)) => scalars::time_eq(a, b),
            (Value::TimeTz(a), Value::TimeTz(b)) => scalars::datetime_eq(&a.utc, &b.utc),
            (Value::Custom(a), Value::Custom(b)) => **a == **b,
            (Value::BoolArray(a), Value::BoolArray(b)) => slices::items_equal(a, b),
            (Value::IntArray(a), Value::IntArray(b)) => slices::items_equal(a, b),
            (Value::FloatArray(a), Value::FloatArray(b)) => floats_eq(a, b),
            (Value::DecimalArray(a), Value::DecimalArray(b)) => decimals_eq(a, b),
            (Value::TextArray(a), Value::TextArray(b)) => texts_eq(a, b),
            _ => false,
        }
    }
}

impl Eq for Value {

}

impl FromSpecImpl<i8> for Value {
    open spec fn obeys_from_spec() -> bool {
        true
    }

    open spec fn from_spec(value: i8) -> Value {
        Value::Int(value as i64)
    }
}

impl From<i8> for Value {
    fn from(value: i8) -> (converted: Value)
        ensures
            converted matches Value::Int(number) && number as int == value as int,
    {
        Value::Int(value as i64)
    }
}

impl FromSpecImpl<i16> for Value {
    open spec fn obeys_from_spec() -> bool {
        true
    }

    open spec fn from_spec(value: i16) -> Value {
        Value::Int(value as i64)
    }
}

impl From<i16> for Value {
    fn from(value: i16) -> (converted: Value)
        ensures
            converted matches Value::Int(number) && number as int == value as int,
    {
        Value::Int(value as i64)
    }
}

impl FromSpecImpl<i32> for Value {
    open spec fn obeys_from_spec() -> bool {
        true
    }

    open spec fn from_spec(value: i32) -> Value {
        Value::Int(value as i64)
    }
}

impl From<i32> for Value {
    fn from(value: i32) -> (converted: Value)
        ensures
            converted matches Value::Int(number) && number as int == value as int,
    {
        Value::Int(value as i64)
    }
}

impl FromSpecImpl<u8> for Value {
    open spec fn obeys_from_spec() -> bool {
        true
    }

    open spec fn from_spec(value: u8) -> Value {
        Value::Int(value as i64)
    }
}

impl From<u8> for Value {
    fn from(value: u8) -> (converted: Value)
        ensures
            converted matches Value::Int(number) && number as int == value as int,
    {
        Value::Int(value as i64)
    }
}

impl FromSpecImpl<u16> for Value {
    open spec fn obeys_from_spec() -> bool {
        true
    }

    open spec fn from_spec(value: u16) -> Value {
        Value::Int(value as i64)
    }
}

impl From<u16> for Value {
    fn from(value: u16) -> (converted: Value)
        ensures
            converted matches Value::Int(number) && number as int == value as int,
    {
        Value::Int(value as i64)
    }
}

impl FromSpecImpl<u32> for Value {
    open spec fn obeys_from_spec() -> bool {
        true
    }

    open spec fn from_spec(value: u32) -> Value {
        Value::Int(value as i64)
    }
}

impl From<u32> for Value {
    fn from(value: u32) -> (converted: Value)
        ensures
            converted matches Value::Int(number) && number as int == value as int,
    {
        Value::Int(value as i64)
    }
}

impl FromSpecImpl<i64> for Value {
    open spec fn obeys_from_spec() -> bool {
        true
    }

    open spec fn from_spec(value: i64) -> Value {
        Value::Int(value)
    }
}

impl From<i64> for Value {
    fn from(value: i64) -> (converted: Value)
        ensures
            converted matches Value::Int(number) && number as int == value as int,
    {
        Value::Int(value)
    }
}

impl FromSpecImpl<bool> for Value {
    open spec fn obeys_from_spec() -> bool {
        true
    }

    open spec fn from_spec(value: bool) -> Value {
        Value::Bool(value)
    }
}

impl From<bool> for Value {
    fn from(value: bool) -> (converted: Value)
        ensures
            converted matches Value::Bool(held) && held == value,
    {
        Value::Bool(value)
    }
}

impl FromSpecImpl<String> for Value {
    open spec fn obeys_from_spec() -> bool {
        false
    }

    open spec fn from_spec(value: String) -> Value {
        arbitrary()
    }
}

impl From<String> for Value {
    fn from(value: String) -> (converted: Value)
        ensures
            converted matches Value::Text(text) && (*text)@ == value@,
    {
        Value::Text(boxed::boxed_text(value))
    }
}

impl FromSpecImpl<Vec<u8>> for Value {
    open spec fn obeys_from_spec() -> bool {
        false
    }

    open spec fn from_spec(value: Vec<u8>) -> Value {
        arbitrary()
    }
}

impl From<Vec<u8>> for Value {
    fn from(value: Vec<u8>) -> (converted: Value)
        ensures
            converted matches Value::Blob(bytes) && (*bytes)@ == value@,
    {
        Value::Blob(boxed::boxed_slice(value))
    }
}

impl FromSpecImpl<Box<[u8]>> for Value {
    open spec fn obeys_from_spec() -> bool {
        true
    }

    open spec fn from_spec(value: Box<[u8]>) -> Value {
        Value::Blob(value)
    }
}

impl From<Box<[u8]>> for Value {
    fn from(value: Box<[u8]>) -> (converted: Value)
        ensures
            converted matches Value::Blob(held) && held == value,
    {
        Value::Blob(value)
    }
}

impl FromSpecImpl<JsonValue> for Value {
    open spec fn obeys_from_spec() -> bool {
        true
    }

    open spec fn from_spec(value: JsonValue) -> Value {
        Value::Json(Box::new(value))
    }
}

impl From<JsonValue> for Value {
    fn from(value: JsonValue) -> (converted: Value)
        ensures
            converted matches Value::Json(held) && *held == value,
    {
        Value::Json(Box::new(value))
    }
}

impl FromSpecImpl<NaiveDateTime> for Value {
    open spec fn obeys_from_spec() -> bool {
        true
    }

    open spec fn from_spec(value: NaiveDateTime) -> Value {
        Value::Timestamp(value)
    }
}

impl From<NaiveDateTime> for Value {
    fn from(value: NaiveDateTime) -> (converted: Value)
        ensures
            converted matches Value::Timestamp(held) && held == value,
    {
        Value::Timestamp(value)
    }
}

impl FromSpecImpl<Uuid> for Value {
    open spec fn obeys_from_spec() -> bool {
        true
    }

    open spec fn from_spec(value: Uuid) -> Value {
        Value::Uuid(value)
    }
}

impl From<Uuid> for Value {
    fn from(value: Uuid) -> (converted: Value)
        ensures
            converted matches Value::Uuid(held) && held == value,
    {
        Value::Uuid(value)
    }
}

impl FromSpecImpl<Decimal> for Value {
    open spec fn obeys_from_spec() -> bool {
        true
    }

    open spec fn from_spec(value: Decimal) -> Value {
        Value::Decimal(value)
    }
}

impl From<Decimal> for Value {
    fn from(value: Decimal) -> (converted: Value)
        ensures
            converted matches Value::Decimal(held) && held == value,
    {
        Value::Decimal(value)
    }
}

impl FromSpecImpl<Vec<i64>> for Value {
    open spec fn obeys_from_spec() -> bool {
        false
    }

    open spec fn from_spec(value: Vec<i64>) -> Value {
        arbitrary()
    }
}

impl From<Vec<i64>> for Value {
    fn from(value: Vec<i64>) -> (converted: Value)
        ensures
            converted matches Value::IntArray(items) && (*items)@ == value@,
    {
        Value::IntArray(boxed::boxed_slice(value))
    }
}

impl FromSpecImpl<Box<[i64]>> for Value {
    open spec fn obeys_from_spec() -> bool {
        true
    }

    open spec fn from_spec(value: Box<[i64]>) -> Value {
        Value::IntArray(value)
    }
}

impl From<Box<[i64]>> for Value {
    fn from(value: Box<[i64]>) -> (converted: Value)
        ensures
            converted matches Value::IntArray(held) && held == value,
    {
        Value::IntArray(value)
    }
}

/// An integer type of which every number is an `i64` too.
trait Narrow: Copy {
    /// The number as an `i64`.
    spec fn wide(self) -> i64;

    /// The number as an `i64`.
    fn widen(self) -> (wide: i64)
        ensures
            wide == self.wide(),
    ;
}

impl Narrow for i8 {
    spec fn wide(self) -> i64 {
        self as i64
    }

    fn widen(self) -> (wide: i64) {
        self as i64
    }
}

impl Narrow for i16 {
    spec fn wide(self) -> i64 {
        self as i64
    }

    fn widen(self) -> (wide: i64) {
        self as i64
    }
}

impl Narrow for i32 {
    spec fn wide(self) -> i64 {
        self as i64
    }

    fn widen(self) -> (wide: i64) {
        self as i64
    }
}

impl Narrow for u16 {
    spec fn wide(self) -> i64 {
        self as i64
    }

    fn widen(self) -> (wide: i64) {
        self as i64
    }
}

impl Narrow for u32 {
    spec fn wide(self) -> i64 {
        self as i64
    }

    fn widen(self) -> (wide: i64) {
        self as i64
    }
}

/// Widens every number of a list.
fn widened<T: Narrow>(items: Vec<T>) -> (wide: Vec<i64>)
    ensures
        wide@.len() == items@.len(),
        forall|j: int| 0 <= j < items@.len() ==> #[trigger] wide@[j] == items@[j].wide(),
{
    let mut wide: Vec<i64> = Vec::with_capacity(items.len());
    let mut i: usize = 0;
    while i < items.len()
        invariant
            i <= items@.len(),
            wide@.len() == i,
            forall|j: int| 0 <= j < i ==> #[trigger] wide@[j] == items@[j].wide(),
        decreases items@.len() - i,
    {
        wide.push(items[i].widen());
        i = i + 1;
    }
    wide
}

impl FromSpecImpl<Vec<i8>> for Value {
    open spec fn obeys_from_spec() -> bool {
        false
    }

    open spec fn from_spec(value: Vec<i8>) -> Value {
        arbitrary()
    }
}

impl From<Vec<i8>> for Value {
    fn from(value: Vec<i8>) -> (converted: Value)
        ensures
            converted matches Value::IntArray(items) && (*items)@ == value@.map_values(
                |v: i8| v as i64,
            ),
    {
        let ghost given = value@.map_values(|v: i8| v as i64);
        let wide: Vec<i64> = widened(value);
        assert(wide@ =~= given);
        Value::IntArray(boxed::boxed_slice(wide))
    }
}

impl FromSpecImpl<Box<[i8]>> for Value {
    open spec fn obeys_from_spec() -> bool {
        false
    }

    open spec fn from_spec(value: Box<[i8]>) -> Value {
        arbitrary()
    }
}

impl From<Box<[i8]>> for Value {
    fn from(value: Box<[i8]>) -> (converted: Value)
        ensures
            converted matches Value::IntArray(items) && (*items)@ == (*value)@.map_values(
                |v: i8| v as i64,
            ),
    {
        let ghost given = (*value)@.map_values(|v: i8| v as i64);
        let wide: Vec<i64> = widened(value.into_vec());
        assert(wide@ =~= given);
        Value::IntArray(boxed::boxed_slice(wide))
    }
}

impl FromSpecImpl<Vec<i16>> for Value {
    open spec fn obeys_from_spec() -> bool {
        false
    }

    open spec fn from_spec(value: Vec<i16>) -> Value {
        arbitrary()
    }
}

impl From<Vec<i16>> for Value {
    fn from(value: Vec<i16>) -> (converted: Value)
        ensures
            converted matches Value::IntArray(items) && (*items)@ == value@.map_values(
                |v: i16| v as i64,
            ),
    {
        let ghost given = value@.map_values(|v: i16| v as i64);
        let wide: Vec<i64> = widened(value);
        assert(wide@ =~= given);
        Value::IntArray(boxed::boxed_slice(wide))
    }
}

impl FromSpecImpl<Box<[i16]>> for Value {
    open spec fn obeys_from_spec() -> bool {
        false
    }

    open spec fn from_spec(value: Box<[i16]>) -> Value {
        arbitrary()
    }
}

impl From<Box<[i16]>> for Value {
    fn from(value: Box<[i16]>) -> (converted: Value)
        ensures
            converted matches Value::IntArray(items) && (*items)@ == (*value)@.map_values(
                |v: i16| v as i64,
            ),
    {
        let ghost given = (*value)@.map_values(|v: i16| v as i64);
        let wide: Vec<i64> = widened(value.into_vec());
        assert(wide@ =~= given);
        Value::IntArray(boxed::boxed_slice(wide))
    }
}

impl FromSpecImpl<Vec<i32>> for Value {
    open spec fn obeys_from_spec() -> bool {
        false
    }

    open spec fn from_spec(value: Vec<i32>) -> Value {
        arbitrary()
    }
}

impl From<Vec<i32>> for Value {
    fn from(value: Vec<i32>) -> (converted: Value)
        ensures
            converted matches Value::IntArray(items) && (*items)@ == value@.map_values(
                |v: i32| v as i64,
            ),
    {
        let ghost given = value@.map_values(|v: i32| v as i64);
        let wide: Vec<i64> = widened(value);
        assert(wide@ =~= given);
        Value::IntArray(boxed::boxed_slice(wide))
    }
}

impl FromSpecImpl<Box<[i32]>> for Value {
    open spec fn obeys_from_spec() -> bool {
        false
    }

    open spec fn from_spec(value: Box<[i32]>) -> Value {
        arbitrary()
    }
}

impl From<Box<[i32]>> for Value {
    fn from(value: Box<[i32]>) -> (converted: Value)
        ensures
            converted matches Value::IntArray(items) && (*items)@ == (*value)@.map_values(
                |v: i32| v as i64,
            ),
    {
        let ghost given = (*value)@.map_values(|v: i32| v as i64);
        let wide: Vec<i64> = widened(value.into_vec());
        assert(wide@ =~= given);
        Value::IntArray(boxed::boxed_slice(wide))
    }
}

impl FromSpecImpl<Vec<u16>> for Value {
    open spec fn obeys_from_spec() -> bool {
        false
    }

    open spec fn from_spec(value: Vec<u16>) -> Value {
        arbitrary()
    }
}

impl From<Vec<u16>> for Value {
    fn from(value: Vec<u16>) -> (converted: Value)
        ensures
            converted matches Value::IntArray(items) && (*items)@ == value@.map_values(
                |v: u16| v as i64,
            ),
    {
        let ghost given = value@.map_values(|v: u16| v as i64);
        let wide: Vec<i64> = widened(value);
        assert(wide@ =~= given);
        Value::IntArray(boxed::boxed_slice(wide))
    }
}

impl FromSpecImpl<Box<[u16]>> for Value {
    open spec fn obeys_from_spec() -> bool {
        false
    }

    open spec fn from_spec(value: Box<[u16]>) -> Value {
        arbitrary()
    }
}

impl From<Box<[u16]>> for Value {
    fn from(value: Box<[u16]>) -> (converted: Value)
        ensures
            converted matches Value::IntArray(items) && (*items)@ == (*value)@.map_values(
                |v: u16| v as i64,
            ),
    {
        let ghost given = (*value)@.map_values(|v: u16| v as i64);
        let wide: Vec<i64> = widened(value.into_vec());
        assert(wide@ =~= given);
        Value::IntArray(boxed::boxed_slice(wide))
    }
}

impl FromSpecImpl<Vec<u32>> for Value {
    open spec fn obeys_from_spec() -> bool {
        false
    }

    open spec fn from_spec(value: Vec<u32>) -> Value {
        arbitrary()
    }
}

impl From<Vec<u32>> for Value {
    fn from(value: Vec<u32>) -> (converted: Value)
        ensures
            converted matches Value::IntArray(items) && (*items)@ == value@.map_values(
                |v: u32| v as i64,
            ),
    {
        let ghost given = value@.map_values(|v: u32| v as i64);
        let wide: Vec<i64> = widened(value);
        assert(wide@ =~= given);
        Value::IntArray(boxed::boxed_slice(wide))
    }
}

impl FromSpecImpl<Box<[u32]>> for Value {
    open spec fn obeys_from_spec() -> bool {
        false
    }

    open spec fn from_spec(value: Box<[u32]>) -> Value {
        arbitrary()
    }
}

impl From<Box<[u32]>> for Value {
    fn from(value: Box<[u32]>) -> (converted: Value)
        ensures
            converted matches Value::IntArray(items) && (*items)@ == (*value)@.map_values(
                |v: u32| v as i64,
            ),
    {
        let ghost given = (*value)@.map_values(|v: u32| v as i64);
        let wide: Vec<i64> = widened(value.into_vec());
        assert(wide@ =~= given);
        Value::IntArray(boxed::boxed_slice(wide))
    }
}

impl FromSpecImpl<Vec<bool>> for Value {
    open spec fn obeys_from_spec() -> bool {
        false
    }

    open spec fn from_spec(value: Vec<bool>) -> Value {
        arbitrary()
    }
}

impl From<Vec<bool>> for Value {
    fn from(value: Vec<bool>) -> (converted: Value)
        ensures
            converted matches Value::BoolArray(items) && (*items)@ == value@,
    {
        Value::BoolArray(boxed::boxed_slice(value))
    }
}

impl FromSpecImpl<Box<[bool]>> for Value {
    open spec fn obeys_from_spec() -> bool {
        true
    }

    open spec fn from_spec(value: Box<[bool]>) -> Value {
        Value::BoolArray(value)
    }
}

impl From<Box<[bool]>> for Value {
    fn from(value: Box<[bool]>) -> (converted: Value)
        ensures
            converted matches Value::BoolArray(held) && held == value,
    {
        Value::BoolArray(value)
    }
}

impl FromSpecImpl<Vec<Decimal>> for Value {
    open spec fn obeys_from_spec() -> bool {
        false
    }

    open spec fn from_spec(value: Vec<Decimal>) -> Value {
        arbitrary()
    }
}

impl From<Vec<Decimal>> for Value {
    fn from(value: Vec<Decimal>) -> (converted: Value)
        ensures
            converted matches Value::DecimalArray(items) && (*items)@ == value@,
    {
        Value::DecimalArray(boxed::boxed_slice(value))
    }
}

impl FromSpecImpl<Box<[Decimal]>> for Value {
    open spec fn obeys_from_spec() -> bool {
        true
    }

    open spec fn from_spec(value: Box<[Decimal]>) -> Value {
        Value::DecimalArray(value)
    }
}

impl From<Box<[Decimal]>> for Value {
    fn from(value: Box<[Decimal]>) -> (converted: Value)
        ensures
            converted matches Value::DecimalArray(held) && held == value,
    {
        Value::DecimalArray(value)
    }
}

impl FromSpecImpl<Vec<String>> for Value {
    open spec fn obeys_from_spec() -> bool {
        false
    }

    open spec fn from_spec(value: Vec<String>) -> Value {
        arbitrary()
    }
}

impl From<Vec<String>> for Value {
    fn from(value: Vec<String>) -> (converted: Value)
        ensures
            converted matches Value::TextArray(items) && all_texts((*items)@) == value@.map_values(
                |text: String| text@,
            ),
            converted matches Value::TextArray(items) && (*items)@.len() == value@.len(),
            converted matches Value::TextArray(items) && forall|i: int|
                0 <= i < value@.len() ==> (*#[trigger] (*items)@[i])@ == value@[i]@,
    {
        let ghost given = value@;
        let mut texts: Vec<Box<str>> = Vec::with_capacity(value.len());
        for text in iter: value
            invariant
                iter.seq() == given,
                texts@.len() == iter.index(),
                forall|j: int|
                    0 <= j < texts@.len() ==> (*#[trigger] texts@[j])@ == given[j]@,
        {
            texts.push(boxed::boxed_text(text));
        }
        assert(all_texts(texts@) =~= given.map_values(|text: String| text@));
        Value::TextArray(boxed::boxed_slice(texts))
    }
}

} // verus!
