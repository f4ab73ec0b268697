//! How large a hash table can be.
use vstd::prelude::*;

verus! {

/// Whether a hash table for `capacity` entries of up to sixteen bytes can be
/// asked for: beyond this the size of the allocation overflows.
pub open spec fn table_capacity_fits(capacity: int) -> bool {
    capacity <= (isize::MAX / 32 + 1) / 8 * 7
}

/// The largest table has seven eighths of as many entries as there are buckets
/// in the largest power of two that, at sixteen bytes and one control byte
/// each, fits the address space; every smaller one can be asked for too.
pub proof fn tables_up_to_the_largest_fit(capacity: int)
    ensures
        isize::MAX == 0x7FFF_FFFF_FFFF_FFFF ==> (table_capacity_fits(capacity) <==> 8 * capacity
            <= 7 * 0x400_0000_0000_0000),
        isize::MAX == 0x7FFF_FFFF ==> (table_capacity_fits(capacity) <==> 8 * capacity <= 7
            * 0x400_0000),
{
}

/// Whether a hash table for `capacity` entries can be asked for.
pub fn capacity_fits(capacity: usize) -> (fits: bool)
    ensures
        fits == table_capacity_fits(capacity as int),
{
    capacity <= (isize::MAX as usize / 32 + 1) / 8 * 7
}

} // verus!
