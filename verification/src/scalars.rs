//! The scalar types that values borrow from other crates, and their equality.
use chrono::{NaiveDate, NaiveDateTime, NaiveTime};
use rust_decimal::Decimal;
use serde_json::Value as JsonValue;
use uuid::Uuid;
use vstd::prelude::*;

verus! {

/// A decimal number of up to 28 decimal places.
#[verifier::external_type_specification]
#[verifier::external_body]
pub struct ExDecimal(rust_decimal::Decimal);

/// A universally unique identifier.
#[verifier::external_type_specification]
#[verifier::external_body]
pub struct ExUuid(uuid::Uuid);

/// A JSON value.
#[verifier::external_type_specification]
#[verifier::external_body]
pub struct ExJson(JsonValue);

/// A calendar date.
#[verifier::external_type_specification]
#[verifier::external_body]
pub struct ExNaiveDate(chrono::NaiveDate);

/// A time of day.
#[verifier::external_type_specification]
#[verifier::external_body]
pub struct ExNaiveTime(chrono::NaiveTime);

/// A calendar date and a time of day.
#[verifier::external_type_specification]
#[verifier::external_body]
pub struct ExNaiveDateTime(chrono::NaiveDateTime);

/// The number that a decimal stands for, in units of its 28th decimal place.
pub uninterp spec fn decimal_units(decimal: Decimal) -> int;

/// A number that two JSON values share exactly where they are equal: where
/// they have the same shape, texts, keys and numbers.
pub uninterp spec fn json_class(json: JsonValue) -> int;

/// `==` of [`rust_decimal::Decimal`]: whether the two stand for the same
/// number, whatever their numbers of decimal places.
#[verifier::external_body]
pub(crate) fn decimal_eq(a: &Decimal, b: &Decimal) -> (equal: bool)
    ensures
        equal <==> decimal_units(*a) == decimal_units(*b),
{
    a == b
}

/// `==` of [`serde_json::Value`]: an equivalence, since JSON numbers are never
/// NaN.
#[verifier::external_body]
pub(crate) fn json_eq(a: &JsonValue, b: &JsonValue) -> (equal: bool)
    ensures
        equal <==> json_class(*a) == json_class(*b),
{
    a == b
}

/// `==` of [`uuid::Uuid`]: whether the sixteen bytes are the same.
#[verifier::external_body]
pub(crate) fn uuid_eq(a: &Uuid, b: &Uuid) -> (equal: bool)
    ensures
        equal <==> *a == *b,
{
    a == b
}

/// `==` of [`chrono::NaiveDate`]: whether the dates are the same.
#[verifier::external_body]
pub(crate) fn date_eq(a: &NaiveDate, b: &NaiveDate) -> (equal: bool)
    ensures
        equal <==> *a == *b,
{
    a == b
}

/// `==` of [`chrono::NaiveTime`]: whether the seconds of the day and their
/// fractions are the same.
#[verifier::external_body]
pub(crate) fn time_eq(a: &NaiveTime, b: &NaiveTime) -> (equal: bool)
    ensures
        equal <==> *a == *b,
{
    a == b
}

/// `==` of [`chrono::NaiveDateTime`]: whether date and time are the same.
#[verifier::external_body]
pub(crate) fn datetime_eq(a: &NaiveDateTime, b: &NaiveDateTime) -> (equal: bool)
    ensures
        equal <==> *a == *b,
{
    a == b
}

} // verus!
