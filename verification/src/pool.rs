//! The arena that holds the texts of an interner.
use crate::error::InternError;
use crate::record;
use vstd::prelude::*;
use vstd::utf8::*;

verus! {

/// An append-only run of bytes with a fixed limit: a header and the records
/// of the texts (see [`crate::record`]).
///
/// Once a record did not fit, the pool takes no further record.
pub struct MemoryPool {
    data: Vec<u8>,
    capacity: u32,
    poisoned: bool,
}

/// What a pool answers to a text, given whether it is poisoned, how many bytes
/// it holds and how many it may hold: the offset of the new record, or why
/// there is none.
pub open spec fn alloc_result(poisoned: bool, used: nat, capacity: u32, text: Seq<char>) -> Result<
    u32,
    InternError,
> {
    let size = 4 + encode_utf8(text).len();
    if poisoned {
        Err(InternError::PoolExhausted)
    } else if size > u32::MAX {
        Err(InternError::TextTooLong)
    } else if used + size > capacity {
        Err(InternError::PoolExhausted)
    } else {
        Ok(used as u32)
    }
}

impl MemoryPool {
    /// The header lies within the pool, and the pool within its limit.
    pub closed spec fn wf(&self) -> bool {
        4 <= self.data@.len() <= self.capacity
    }

    /// The bytes written so far.
    pub closed spec fn bytes(&self) -> Seq<u8> {
        self.data@
    }

    /// How many bytes the pool may hold.
    pub closed spec fn capacity(&self) -> u32 {
        self.capacity
    }

    /// Whether the pool has turned a record away for want of room.
    pub closed spec fn poisoned(&self) -> bool {
        self.poisoned
    }

    /// A pool that holds only the header.
    pub(crate) fn new(capacity: u32, shard_count: u32) -> (pool: MemoryPool)
        requires
            capacity >= 4,
        ensures
            pool.wf(),
            pool.bytes() == record::u32_bytes(shard_count),
            pool.capacity() == capacity,
            !pool.poisoned(),
    {
        let header: [u8; 4] = record::u32_to_bytes(shard_count);
        let mut data: Vec<u8> = Vec::with_capacity(capacity as usize);
        data.extend_from_slice(header.as_slice());
        proof {
            record::u32_round_trip(shard_count);
            assert(data@ =~= header@);
        }
        MemoryPool { data, capacity, poisoned: false }
    }

    /// What [`alloc_record`](Self::alloc_record) would answer to `value`.
    pub(crate) fn check(&self, value: &str) -> (result: Result<u32, InternError>)
        requires
            self.wf(),
        ensures
            result == alloc_result(self.poisoned(), self.bytes().len(), self.capacity(), value@),
    {
        if self.poisoned {
            return Err(InternError::PoolExhausted);
        }
        let bytes: &[u8] = value.as_bytes();
        let len: usize = bytes.len();
        if len as u64 > 0xFFFF_FFFB {
            return Err(InternError::TextTooLong);
        }
        let size: u32 = len as u32 + 4;
        let remaining: u32 = self.capacity - self.data.len() as u32;
        if size > remaining {
            Err(InternError::PoolExhausted)
        } else {
            Ok(self.data.len() as u32)
        }
    }

    /// Marks the pool as exhausted: it takes no further record.
    pub(crate) fn poison(&mut self)
        requires
            old(self).wf(),
        ensures
            final(self).wf(),
            final(self).bytes() == old(self).bytes(),
            final(self).capacity() == old(self).capacity(),
            final(self).poisoned(),
    {
        self.poisoned = true;
    }

    /// Appends the record of `value` and returns its offset. Where there is no
    /// room, nothing is appended and the pool is exhausted from then on.
    pub(crate) fn alloc_record(&mut self, value: &str) -> (result: Result<u32, InternError>)
        requires
            old(self).wf(),
        ensures
            final(self).wf(),
            final(self).capacity() == old(self).capacity(),
            result == alloc_result(
                old(self).poisoned(),
                old(self).bytes().len(),
                old(self).capacity(),
                value@,
            ),
            final(self).bytes() == if result is Ok {
                old(self).bytes() + record::record(value@)
            } else {
                old(self).bytes()
            },
            final(self).poisoned() <==> old(self).poisoned() || result == Err::<u32, InternError>(
                InternError::PoolExhausted,
            ),
    {
        match self.check(value) {
            Ok(offset) => {
                let bytes: &[u8] = value.as_bytes();
                let header: [u8; 4] = record::u32_to_bytes(bytes.len() as u32);
                proof {
                    record::u32_round_trip(bytes@.len() as u32);
                }
                self.data.extend_from_slice(header.as_slice());
                self.data.extend_from_slice(bytes);
                assert(self.data@ =~= old(self).data@ + record::record(value@));
                Ok(offset)
            },
            Err(e) => {
                if e == InternError::PoolExhausted {
                    self.poison();
                }
                Err(e)
            },
        }
    }

    /// The bytes written so far.
    pub fn committed_bytes(&self) -> (bytes: &[u8])
        ensures
            bytes@ == self.bytes(),
    {
        self.data.as_slice()
    }

    /// The number of shards that the header of an arena states; none where
    /// there are fewer bytes than a header has.
    pub fn read_shard_count_header(bytes: &[u8]) -> (count: Option<u32>)
        ensures
            count == if bytes@.len() < 4 {
                None
            } else {
                Some(record::u32_value(bytes@.subrange(0, 4)))
            },
    {
        if bytes.len() < 4 {
            None
        } else {
            Some(record::read_u32(bytes, 0))
        }
    }
}

} // verus!
