//! Conversions between growable and fixed-size buffers.
use std::sync::Arc;
use vstd::prelude::*;

verus! {

/// [`String::into_boxed_str`]: the text stays the same.
#[verifier::external_body]
pub(crate) fn boxed_text(text: String) -> (boxed: Box<str>)
    ensures
        (*boxed)@ == text@,
{
    text.into_boxed_str()
}

/// [`Vec::into_boxed_slice`]: the items stay the same.
#[verifier::external_body]
pub(crate) fn boxed_slice<T>(items: Vec<T>) -> (boxed: Box<[T]>)
    ensures
        (*boxed)@ == items@,
{
    items.into_boxed_slice()
}

/// `Arc::<str>::from` of a string slice: a new allocation with the same text.
#[verifier::external_body]
pub(crate) fn shared_from_slice(text: &str) -> (shared: Arc<str>)
    ensures
        (*shared)@ == text@,
{
    Arc::from(text)
}

/// `Arc::<str>::from` of a boxed string: the text stays the same.
#[verifier::external_body]
pub(crate) fn shared_from_box(text: Box<str>) -> (shared: Arc<str>)
    ensures
        (*shared)@ == (*text)@,
{
    Arc::from(text)
}

/// [`Arc::clone`]: another pointer to the same allocation, and so to the same
/// text.
#[verifier::external_body]
pub(crate) fn share(text: &Arc<str>) -> (shared: Arc<str>)
    ensures
        shared == *text,
        (*shared)@ == (**text)@,
{
    Arc::clone(text)
}

} // verus!
