//! The table of one shard from index to record offset.
use vstd::prelude::*;

verus! {

/// How many bits of an index choose the slot within a chunk.
pub const CHUNK_SHIFT: usize = 12;

/// How many slots a chunk has.
pub const CHUNK_SIZE: usize = 0x1000;

/// The bits of an index that choose the slot within a chunk.
pub const CHUNK_MASK: usize = 0xFFF;

/// How many chunks there may be. An index has 24 bits, so the chunks cover
/// every index.
pub const NUM_CHUNKS: usize = 0x1000;

/// How many offsets an array may hold.
pub const MAX_OFFSETS: usize = 0x100_0000;

/// A fixed run of slots, each an offset or zero where it is still free.
pub struct StringChunk {
    offsets: Vec<u32>,
}

impl StringChunk {
    spec fn wf(self) -> bool {
        self.offsets@.len() == CHUNK_SIZE
    }

    /// A chunk with only free slots.
    fn new_boxed() -> (chunk: Box<StringChunk>)
        ensures
            chunk.wf(),
            forall|i: int| 0 <= i < CHUNK_SIZE ==> chunk.offsets@[i] == 0,
    {
        let mut offsets: Vec<u32> = Vec::new();
        offsets.resize(CHUNK_SIZE, 0);
        Box::new(StringChunk { offsets })
    }
}

/// A growing array of record offsets. Its chunks are allocated as they are
/// reached and never move.
pub struct ChunkedStringArray {
    chunks: Vec<Option<Box<StringChunk>>>,
    len: usize,
}

impl View for ChunkedStringArray {
    type V = Seq<u32>;

    /// The offsets, in the order in which they were added.
    closed spec fn view(&self) -> Seq<u32> {
        Seq::new(self.len as nat, |i: int| self.slot(i))
    }
}

impl ChunkedStringArray {
    spec fn slot(&self, i: int) -> u32 {
        self.chunks@[i / CHUNK_SIZE as int]->0.offsets@[i % CHUNK_SIZE as int]
    }

    /// Whether the chunk of index `i` has been allocated.
    spec fn allocated(&self, i: int) -> bool {
        self.chunks@[i / CHUNK_SIZE as int] is Some
    }

    /// All allocated chunks have their full size, and a chunk is allocated
    /// exactly where its first index lies below the length; the slots below the
    /// length are taken, and those above it are free.
    pub closed spec fn wf(&self) -> bool {
        &&& self.chunks@.len() == NUM_CHUNKS
        &&& self.len <= MAX_OFFSETS
        &&& forall|c: int|
            0 <= c < NUM_CHUNKS && (#[trigger] self.chunks@[c]) is Some
                ==> self.chunks@[c]->0.wf()
        &&& forall|c: int|
            0 <= c < NUM_CHUNKS ==> ((#[trigger] self.chunks@[c]) is Some <==> c * CHUNK_SIZE
                < self.len)
        &&& forall|i: int|
            0 <= i < self.len ==> #[trigger] self.allocated(i) && self.slot(i) != 0
        &&& forall|i: int|
            self.len <= i < MAX_OFFSETS && #[trigger] self.allocated(i) ==> self.slot(i) == 0
    }

    /// The slots of the chunk with the given number, if it has been allocated.
    pub closed spec fn chunk(&self, c: int) -> Option<Seq<u32>> {
        match self.chunks@[c] {
            Some(chunk) => Some(chunk.offsets@),
            None => None,
        }
    }

    /// A chunk is there exactly where its first index has been reached, and
    /// then it holds the offsets of its indices, with zeros in the free slots.
    pub proof fn chunks_hold_the_offsets(&self, c: int)
        requires
            self.wf(),
            0 <= c < NUM_CHUNKS,
        ensures
            self.chunk(c) is Some <==> c * CHUNK_SIZE < self@.len(),
            self.chunk(c) matches Some(slots) ==> slots == Seq::new(
                CHUNK_SIZE as nat,
                |j: int|
                    if c * CHUNK_SIZE + j < self@.len() {
                        self@[c * CHUNK_SIZE + j]
                    } else {
                        0
                    },
            ),
    {
        let size = CHUNK_SIZE as int;
        if let Some(slots) = self.chunk(c) {
            assert forall|j: int| 0 <= j < size implies #[trigger] slots[j] == if c * size + j
                < self.len {
                self@[c * size + j]
            } else {
                0
            } by {
                let i = c * size + j;
                vstd::arithmetic::div_mod::lemma_fundamental_div_mod_converse(i, size, c, j);
                assert(self.allocated(i) && self.slot(i) == slots[j]);
            }
        }
    }

    /// A chunk, once there, stays there as the array grows, and its taken slots
    /// keep their offsets.
    pub proof fn chunks_stay(before: &ChunkedStringArray, after: &ChunkedStringArray, c: int)
        requires
            before.wf(),
            after.wf(),
            before@.is_prefix_of(after@),
            0 <= c < NUM_CHUNKS,
            before.chunk(c) is Some,
        ensures
            after.chunk(c) is Some,
            forall|j: int|
                0 <= j < CHUNK_SIZE && (#[trigger] before.chunk(c)->0[j]) != 0
                    ==> after.chunk(c)->0[j] == before.chunk(c)->0[j],
    {
        before.chunks_hold_the_offsets(c);
        after.chunks_hold_the_offsets(c);
    }

    /// An array without offsets.
    pub(crate) fn new() -> (array: ChunkedStringArray)
        ensures
            array.wf(),
            array@ == Seq::<u32>::empty(),
            forall|c: int| 0 <= c < NUM_CHUNKS ==> (#[trigger] array.chunk(c)) is None,
    {
        let mut chunks: Vec<Option<Box<StringChunk>>> = Vec::with_capacity(NUM_CHUNKS);
        let mut i: usize = 0;
        while i < NUM_CHUNKS
            invariant
                i <= NUM_CHUNKS,
                chunks@.len() == i,
                forall|c: int| 0 <= c < i ==> (#[trigger] chunks@[c]) is None,
            decreases NUM_CHUNKS - i,
        {
            chunks.push(None);
            i = i + 1;
        }
        let array = ChunkedStringArray { chunks, len: 0 };
        assert(array@ =~= Seq::<u32>::empty());
        array
    }

    /// How many offsets the array holds.
    pub(crate) fn len(&self) -> (len: usize)
        ensures
            len == self@.len(),
    {
        self.len
    }

    /// The chunk with the given number, if it has been allocated.
    fn load_chunk(&self, chunk_idx: usize) -> (chunk: Option<&StringChunk>)
        requires
            self.wf(),
            chunk_idx < NUM_CHUNKS,
        ensures
            match chunk {
                Some(c) => {
                    &&& chunk_idx * CHUNK_SIZE < self@.len()
                    &&& self.chunks@[chunk_idx as int] is Some
                    &&& *c == *self.chunks@[chunk_idx as int]->0
                    &&& self.chunk(chunk_idx as int) == Some(c.offsets@)
                },
                None => {
                    &&& chunk_idx * CHUNK_SIZE >= self@.len()
                    &&& self.chunk(chunk_idx as int) is None
                },
            },
    {
        match &self.chunks[chunk_idx] {
            Some(chunk) => Some(&**chunk),
            None => None,
        }
    }

    /// The offset in the slot of `index`; none where that slot is free.
    pub(crate) fn offset_at(&self, index: usize) -> (offset: Option<u32>)
        requires
            self.wf(),
            index < MAX_OFFSETS,
        ensures
            offset == if index < self@.len() {
                Some(self@[index as int])
            } else {
                None
            },
    {
        assert(index >> 12 == index / 0x1000 && index & 0xFFF == index % 0x1000) by (bit_vector);
        let chunk_idx: usize = index >> CHUNK_SHIFT;
        let slot_idx: usize = index & CHUNK_MASK;
        assert(self.allocated(index as int) == (self.chunks@[chunk_idx as int] is Some));
        match self.load_chunk(chunk_idx) {
            Some(chunk) => {
                let offset: u32 = chunk.offsets[slot_idx];
                assert(offset == self.slot(index as int));
                if offset == 0 {
                    None
                } else {
                    Some(offset)
                }
            },
            None => None,
        }
    }

    /// The offset at `index`; none beyond the end.
    pub(crate) fn get(&self, index: usize) -> (offset: Option<u32>)
        requires
            self.wf(),
        ensures
            offset == if index < self@.len() {
                Some(self@[index as int])
            } else {
                None
            },
    {
        if index >= self.len {
            None
        } else {
            self.offset_at(index)
        }
    }

    /// Appends an offset and returns its index.
    pub(crate) fn push(&mut self, offset: u32) -> (index: usize)
        requires
            old(self).wf(),
            old(self)@.len() < MAX_OFFSETS,
            offset != 0,
        ensures
            final(self).wf(),
            index == old(self)@.len(),
            final(self)@ == old(self)@.push(offset),
            forall|c: int|
                0 <= c < NUM_CHUNKS && c != index as int / CHUNK_SIZE as int
                    ==> #[trigger] final(self).chunk(c) == old(self).chunk(c),
    {
        let index: usize = self.len;
        assert(index >> 12 == index / 0x1000 && index & 0xFFF == index % 0x1000) by (bit_vector);
        let chunk_idx: usize = index >> CHUNK_SHIFT;
        let slot_idx: usize = index & CHUNK_MASK;
        let mut chunk: Box<StringChunk> = match self.chunks[chunk_idx].take() {
            Some(chunk) => chunk,
            None => StringChunk::new_boxed(),
        };
        chunk.offsets[slot_idx] = offset;
        self.chunks[chunk_idx] = Some(chunk);
        self.len = index + 1;
        proof {
            let before = *old(self);
            let size = CHUNK_SIZE as int;
            assert(self.slot(index as int) == offset && self.allocated(index as int));
            assert forall|i: int| 0 <= i < MAX_OFFSETS && i != index implies {
                &&& before.allocated(i) ==> self.allocated(i) && self.slot(i) == before.slot(i)
                &&& self.allocated(i) && !before.allocated(i) ==> i > index && self.slot(i) == 0
            } by {
                assert(i == size * (i / size) + i % size);
                assert(index == size * (chunk_idx as int) + slot_idx);
                if i < index {
                    assert(before.allocated(i));
                }
            }
            assert forall|i: int| 0 <= i < self.len implies #[trigger] self.allocated(i)
                && self.slot(i) != 0 by {
                if i != index {
                    assert(before.allocated(i));
                }
            }
            assert forall|i: int|
                self.len <= i < MAX_OFFSETS && #[trigger] self.allocated(i) implies self.slot(i)
                == 0 by {
                if before.allocated(i) {
                    assert(before.slot(i) == 0);
                }
            }
            assert(self@ =~= before@.push(offset)) by {
                assert forall|i: int| 0 <= i < index implies self.slot(i) == before.slot(i) by {
                    assert(before.allocated(i));
                }
            }
        }
        index
    }
}

} // verus!
