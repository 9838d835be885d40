use vstd::prelude::*;

verus! {

/// A fixed-size byte block that is filled from the front.
#[derive(Clone)]
pub struct MemoryBlock {
    pub data: Vec<u8>,
    /// How many bytes at the front hold data.
    pub used: usize,
    /// Which block of its pool this is.
    pub id: u64,
}

impl MemoryBlock {
    pub open spec fn wf(&self) -> bool {
        self.used <= self.data@.len()
    }

    /// An empty block of `size` zero bytes.
    pub fn new(size: usize) -> (r: MemoryBlock)
        ensures
            r.wf(),
            r.data@.len() == size,
            forall|i: int| 0 <= i < size ==> #[trigger] r.data@[i] == 0,
            r.used == 0,
            r.id == 0,
    {
        MemoryBlock { data: vec![0u8; size], used: 0, id: 0 }
    }

    /// Marks the block empty again.
    pub fn reset(&mut self)
        ensures
            final(self).used == 0,
            final(self).data == old(self).data,
            final(self).id == old(self).id,
    {
        self.used = 0;
    }

    /// How many bytes are still free.
    pub fn available(&self) -> (r: usize)
        requires
            self.wf(),
        ensures
            r == self.data@.len() - self.used,
    {
        self.data.len() - self.used
    }

    /// Appends `data` after the bytes in use and returns where it starts;
    /// `None`, with nothing written, when it does not fit.
    pub fn write(&mut self, data: &[u8]) -> (r: Option<usize>)
        requires
            old(self).wf(),
        ensures
            final(self).wf(),
            final(self).id == old(self).id,
            final(self).data@.len() == old(self).data@.len(),
            data@.len() > old(self).data@.len() - old(self).used ==> r is None && *final(self) == *old(self),
            data@.len() <= old(self).data@.len() - old(self).used ==> {
                &&& r == Some(old(self).used)
                &&& final(self).used == old(self).used + data@.len()
                &&& final(self).data@ == old(self).data@.subrange(0, old(self).used as int) + data@
                    + old(self).data@.subrange(final(self).used as int, old(self).data@.len() as int)
            },
    {
        if self.available() < data.len() {
            return None;
        }
        let start = self.used;
        let cap = self.data.len();
        let mut i: usize = 0;
        while i < data.len()
            invariant
                cap == self.data@.len(),
                i <= data@.len(),
                start == old(self).used,
                start + data@.len() <= self.data@.len(),
                self.data@.len() == old(self).data@.len(),
                self.used == old(self).used,
                self.id == old(self).id,
                self.data@ == old(self).data@.subrange(0, start as int) + data@.subrange(0, i as int)
                    + old(self).data@.subrange(start + i, old(self).data@.len() as int),
            decreases data@.len() - i,
        {
            self.data.set(start + i, data[i]);
            i = i + 1;
            assert(self.data@ =~= old(self).data@.subrange(0, start as int) + data@.subrange(0, i as int)
                + old(self).data@.subrange(start + i, old(self).data@.len() as int));
        }
        assert(data@.subrange(0, i as int) =~= data@);
        self.used = start + data.len();
        Some(start)
    }

    /// The `len` bytes in use from `offset`; `None` past the bytes in use.
    pub fn read(&self, offset: usize, len: usize) -> (r: Option<&[u8]>)
        requires
            self.wf(),
        ensures
            offset + len > self.used ==> r is None,
            offset + len <= self.used ==> (r matches Some(s) && s@ == self.data@.subrange(
                offset as int,
                offset + len,
            )),
    {
        if offset > self.used || len > self.used - offset {
            return None;
        }
        Some(&self.data.as_slice()[offset..offset + len])
    }

    /// A copy of this block.
    pub fn duplicate(&self) -> (r: MemoryBlock)
        ensures
            r.data@ == self.data@,
            r.used == self.used,
            r.id == self.id,
    {
        let data = crate::wire::copy_bytes(self.data.as_slice(), 0, self.data.len());
        assert(self.data@.subrange(0, self.data@.len() as int) =~= self.data@);
        MemoryBlock { data, used: self.used, id: self.id }
    }
}

/// Counts of a pool.
#[derive(Debug, Clone, Copy, PartialEq, Eq, Structural)]
pub struct MemoryPoolStats {
    pub total_blocks: usize,
    pub free_blocks: usize,
    pub allocated_blocks: usize,
    pub block_size: usize,
}

/// A pool of equal blocks handed out and taken back. When no block is
/// free it makes new ones, up to twice the pool size in use.
pub struct MemoryPool {
    free_blocks: Vec<MemoryBlock>,
    allocated_blocks: Vec<MemoryBlock>,
    block_size: usize,
    pool_size: usize,
    next_id: u64,
}

impl MemoryPool {
    pub closed spec fn wf(&self) -> bool {
        &&& forall|i: int|
            0 <= i < self.free_blocks@.len() ==> (#[trigger] self.free_blocks@[i]).data@.len()
                == self.block_size && self.free_blocks@[i].used == 0
        &&& forall|i: int|
            0 <= i < self.allocated_blocks@.len() ==> (#[trigger] self.allocated_blocks@[i]).data@.len()
                == self.block_size
    }

    pub closed spec fn free_count(&self) -> nat {
        self.free_blocks@.len()
    }

    pub closed spec fn allocated_count(&self) -> nat {
        self.allocated_blocks@.len()
    }

    pub closed spec fn size_of_block(&self) -> nat {
        self.block_size as nat
    }

    pub closed spec fn capacity(&self) -> nat {
        self.pool_size as nat
    }

    /// Whether a block with `id` is handed out.
    pub closed spec fn is_allocated(&self, id: u64) -> bool {
        exists|i: int| 0 <= i < self.allocated_blocks@.len() && self.allocated_blocks@[i].id == id
    }

    fn fresh_id(&mut self) -> (r: u64)
        ensures
            final(self).free_blocks == old(self).free_blocks,
            final(self).allocated_blocks == old(self).allocated_blocks,
            final(self).block_size == old(self).block_size,
            final(self).pool_size == old(self).pool_size,
    {
        let id = self.next_id;
        if self.next_id < u64::MAX {
            self.next_id = self.next_id + 1;
        }
        id
    }

    /// A pool of `pool_size` free blocks of `block_size` bytes.
    pub fn new(pool_size: usize, block_size: usize) -> (r: MemoryPool)
        ensures
            r.wf(),
            r.free_count() == pool_size,
            r.allocated_count() == 0,
            r.size_of_block() == block_size,
            r.capacity() == pool_size,
    {
        let mut pool = MemoryPool {
            free_blocks: Vec::new(),
            allocated_blocks: Vec::new(),
            block_size,
            pool_size,
            next_id: 0,
        };
        let mut i: usize = 0;
        while i < pool_size
            invariant
                i <= pool_size,
                pool.wf(),
                pool.free_blocks@.len() == i,
                pool.allocated_blocks@.len() == 0,
                pool.block_size == block_size,
                pool.pool_size == pool_size,
            decreases pool_size - i,
        {
            let mut block = MemoryBlock::new(block_size);
            block.id = pool.fresh_id();
            pool.free_blocks.push(block);
            i = i + 1;
        }
        pool
    }

    proof fn lemma_push_keeps_allocated(&self, before: Seq<MemoryBlock>)
        requires
            self.allocated_blocks@.len() == before.len() + 1,
            forall|j: int| 0 <= j < before.len() ==> self.allocated_blocks@[j] == before[j],
        ensures
            forall|id: u64|
                (exists|j: int| 0 <= j < before.len() && before[j].id == id)
                    ==> #[trigger] self.is_allocated(id),
    {
        assert forall|id: u64| (exists|j: int| 0 <= j < before.len() && before[j].id == id)
            implies #[trigger] self.is_allocated(id) by {
            let j = choose|j: int| 0 <= j < before.len() && before[j].id == id;
            assert(self.allocated_blocks@[j].id == id);
        }
    }

    /// Hands out a block, empty: a free one if any (the longest free
    /// first), else a new one while fewer than twice the pool size are in
    /// use. The caller gets a copy; the pool tracks the block by its id.
    pub fn allocate(&mut self) -> (r: Option<MemoryBlock>)
        requires
            old(self).wf(),
        ensures
            final(self).wf(),
            final(self).size_of_block() == old(self).size_of_block(),
            final(self).capacity() == old(self).capacity(),
            old(self).free_count() > 0 ==> r is Some && final(self).free_count() == old(self).free_count()
                - 1 && final(self).allocated_count() == old(self).allocated_count() + 1,
            old(self).free_count() == 0 && old(self).allocated_count() < 2 * old(self).capacity()
                ==> r is Some && final(self).free_count() == 0 && final(self).allocated_count()
                == old(self).allocated_count() + 1,
            old(self).free_count() == 0 && old(self).allocated_count() >= 2 * old(self).capacity()
                ==> r is None && final(self).free_count() == 0 && final(self).allocated_count()
                == old(self).allocated_count(),
            r matches Some(b) ==> (b.used == 0 && b.data@.len() == old(self).size_of_block()
                && final(self).is_allocated(b.id)),
            forall|id: u64| #[trigger] old(self).is_allocated(id) ==> final(self).is_allocated(id),
    {
        let ghost old_alloc = self.allocated_blocks@;
        if self.free_blocks.len() > 0 {
            let mut block = self.free_blocks.remove(0);
            block.reset();
            let copy = block.duplicate();
            self.allocated_blocks.push(block);
            let n = self.allocated_blocks.len() - 1;
            assert(self.allocated_blocks@[n as int].id == copy.id);
            proof {
                self.lemma_push_keeps_allocated(old_alloc);
            }
            return Some(copy);
        }
        if self.allocated_blocks.len() / 2 < self.pool_size {
            let mut block = MemoryBlock::new(self.block_size);
            block.id = self.fresh_id();
            let copy = block.duplicate();
            self.allocated_blocks.push(block);
            let n = self.allocated_blocks.len() - 1;
            assert(self.allocated_blocks@[n as int].id == copy.id);
            proof {
                self.lemma_push_keeps_allocated(old_alloc);
            }
            return Some(copy);
        }
        None
    }

    /// Takes back the handed-out block with the id of `block`, emptied;
    /// a block the pool does not track changes nothing.
    pub fn free(&mut self, block: MemoryBlock)
        requires
            old(self).wf(),
        ensures
            final(self).wf(),
            final(self).size_of_block() == old(self).size_of_block(),
            final(self).capacity() == old(self).capacity(),
            old(self).is_allocated(block.id) ==> final(self).free_count() == old(self).free_count() + 1
                && final(self).allocated_count() == old(self).allocated_count() - 1,
            !old(self).is_allocated(block.id) ==> final(self).free_count() == old(self).free_count()
                && final(self).allocated_count() == old(self).allocated_count(),
            forall|id: u64|
                id != block.id ==> #[trigger] final(self).is_allocated(id) == old(self).is_allocated(id),
    {
        let mut i: usize = 0;
        while i < self.allocated_blocks.len()
            invariant
                i <= self.allocated_blocks@.len(),
                *self == *old(self),
                self.wf(),
                forall|j: int| 0 <= j < i ==> #[trigger] self.allocated_blocks@[j].id != block.id,
            decreases self.allocated_blocks@.len() - i,
        {
            if self.allocated_blocks[i].id == block.id {
                let ghost before = self.allocated_blocks@;
                let mut found = self.allocated_blocks.remove(i);
                found.reset();
                self.free_blocks.push(found);
                proof {
                    assert forall|id: u64| id != block.id implies #[trigger] self.is_allocated(id)
                        == old(self).is_allocated(id) by {
                        if old(self).is_allocated(id) {
                            let j = choose|j: int|
                                0 <= j < before.len() && before[j].id == id;
                            assert(j != i);
                            if j < i {
                                assert(self.allocated_blocks@[j] == before[j]);
                            } else {
                                assert(self.allocated_blocks@[j - 1] == before[j]);
                            }
                        }
                        if self.is_allocated(id) {
                            let j = choose|j: int|
                                0 <= j < self.allocated_blocks@.len()
                                    && self.allocated_blocks@[j].id == id;
                            if j < i {
                                assert(self.allocated_blocks@[j] == before[j]);
                            } else {
                                assert(self.allocated_blocks@[j] == before[j + 1]);
                            }
                        }
                    }
                }
                proof {
                    assert forall|j: int| 0 <= j < self.allocated_blocks@.len() implies (
                    #[trigger] self.allocated_blocks@[j]).data@.len() == self.block_size by {
                        if j < i {
                            assert(self.allocated_blocks@[j] == old(self).allocated_blocks@[j]);
                        } else {
                            assert(self.allocated_blocks@[j] == old(self).allocated_blocks@[j + 1]);
                        }
                    }
                }
                return;
            }
            i = i + 1;
        }
    }

    /// The pool's counts.
    pub fn stats(&self) -> (r: MemoryPoolStats)
        ensures
            r.free_blocks == self.free_count(),
            r.allocated_blocks == self.allocated_count(),
            r.total_blocks == clamp_usize((self.free_count() + self.allocated_count()) as int),
            r.block_size == self.size_of_block(),
    {
        let f = self.free_blocks.len();
        let a = self.allocated_blocks.len();
        let total = if f > usize::MAX - a {
            usize::MAX
        } else {
            f + a
        };
        MemoryPoolStats { total_blocks: total, free_blocks: f, allocated_blocks: a, block_size: self.block_size }
    }
}

/// `x` held at `usize::MAX`.
pub open spec fn clamp_usize(x: int) -> usize {
    if x > usize::MAX {
        usize::MAX
    } else {
        x as usize
    }
}

} // verus!
