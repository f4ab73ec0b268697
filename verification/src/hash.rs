//! Hashing of texts.
use std::hash::BuildHasher;
use vstd::prelude::*;

verus! {

/// The hash of a text under [`rustc_hash::FxBuildHasher`], for a pointer width.
///
/// The hasher has no seed, and works in words of the pointer width. It mixes
/// words in another way on SPARC64 and on 64-bit WebAssembly, and on ABIs of
/// AArch64 and x86-64 with narrow pointers: the name stands for the hash on the
/// target that the crate is built for.
pub uninterp spec fn fx_hash(text: Seq<char>, pointer_width: u32) -> u64;

/// The hash of a text on this machine.
pub open spec fn text_hash(text: Seq<char>) -> u64 {
    fx_hash(text, usize::BITS)
}

/// `hash_one` of [`rustc_hash::FxBuildHasher`]: on one target the hash depends
/// on the text alone.
#[verifier::external_body]
pub(crate) fn hash_text(value: &str) -> (hash: u64)
    ensures
        hash == fx_hash(value@, usize::BITS),
{
    rustc_hash::FxBuildHasher.hash_one(value)
}

} // verus!
