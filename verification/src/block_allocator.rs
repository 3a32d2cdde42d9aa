use vstd::prelude::*;
use crate::constants::{BLOCK_SIZE, NUM_LINES_PER_BLOCK, MAX_BLOCKS};
use crate::block_info::{BlockInfo, line_free};

verus! {

/// Owner of the backing region: a vector of blocks, identified by index, and
/// the pool of free blocks. Block `b` covers the byte addresses
/// `[b * BLOCK_SIZE, (b + 1) * BLOCK_SIZE)`.
pub struct BlockAllocator {
    pub blocks: Vec<BlockInfo>,
    pub free: Vec<usize>,
    pub total: usize,
    pub limit: usize,
}

impl BlockAllocator {
    pub open spec fn wf(&self) -> bool {
        &&& self.blocks@.len() == self.total as int
        &&& self.total <= MAX_BLOCKS
        &&& self.limit == self.total * BLOCK_SIZE
        &&& forall|i: int| 0 <= i < self.total as int ==> (#[trigger] self.blocks@[i]).wf()
        &&& forall|i: int| 0 <= i < self.free@.len() ==> (#[trigger] self.free@[i]) < self.total
    }

    /// A region of `total` blocks, all free and zeroed.
    pub fn new(total: usize) -> (a: BlockAllocator)
        requires
            total <= MAX_BLOCKS,
        ensures
            a.wf(),
            a.total == total,
            a.free@.len() == total as int,
    {
        let mut blocks: Vec<BlockInfo> = Vec::new();
        let mut free: Vec<usize> = Vec::new();
        let mut i: usize = 0;
        assert(total * BLOCK_SIZE <= MAX_BLOCKS * BLOCK_SIZE) by (nonlinear_arith)
            requires
                total <= MAX_BLOCKS,
        ;
        let limit = total * BLOCK_SIZE;
        while i < total
            invariant
                i <= total,
                blocks@.len() == i as int,
                free@.len() == i as int,
                forall|j: int| 0 <= j < i as int ==> (#[trigger] blocks@[j]).wf(),
                forall|j: int| 0 <= j < i as int ==> (#[trigger] free@[j]) < total,
            decreases total - i,
        {
            blocks.push(BlockInfo::new());
            free.push(i);
            i = i + 1;
        }
        BlockAllocator { blocks, free, total, limit }
    }

    /// Number of free blocks still in the pool.
    pub fn available_blocks(&self) -> (r: usize)
        ensures
            r == self.free@.len(),
    {
        self.free.len()
    }

    /// Number of blocks the region was carved into.
    pub fn total_blocks(&self) -> (r: usize)
        ensures
            r == self.total,
    {
        self.total
    }

    /// Whether `addr` lies inside the backing region.
    pub fn is_in_space(&self, addr: usize) -> (r: bool)
        ensures
            r == (addr < self.limit),
    {
        addr < self.limit
    }

    /// Pop a free block, or report the region exhausted.
    pub fn get_block(&mut self) -> (r: Option<usize>)
        requires
            old(self).wf(),
        ensures
            final(self).wf(),
            final(self).total == old(self).total,
            final(self).limit == old(self).limit,
            final(self).blocks == old(self).blocks,
            match r {
                Some(b) => {
                    &&& old(self).free@.len() > 0
                    &&& b == old(self).free@.last()
                    &&& final(self).free@ == old(self).free@.drop_last()
                    &&& b < old(self).total
                },
                None => old(self).free@.len() == 0 && final(self).free@ == old(self).free@,
            },
    {
        self.free.pop()
    }

    /// Reset a block and push it back into the free pool.
    pub fn return_block(&mut self, b: usize)
        requires
            old(self).wf(),
            b < old(self).total,
        ensures
            final(self).wf(),
            final(self).total == old(self).total,
            final(self).limit == old(self).limit,
            final(self).free@ == old(self).free@.push(b),
            final(self).blocks@.len() == old(self).blocks@.len(),
            forall|i: int|
                0 <= i < old(self).blocks@.len() && i != b as int ==> final(self).blocks@[i]
                    == old(self).blocks@[i],
            block_blank(final(self).blocks@[b as int]),
    {
        let blk = &mut self.blocks[b];
        blk.reset();
        self.free.push(b);
    }

    /// Reset a block without returning it to the pool, as the sweep does for
    /// blocks it hands to the evacuation headroom.
    pub fn reset_block(&mut self, b: usize)
        requires
            old(self).wf(),
            b < old(self).total,
        ensures
            final(self).wf(),
            final(self).total == old(self).total,
            final(self).limit == old(self).limit,
            final(self).free@ == old(self).free@,
            final(self).blocks@.len() == old(self).blocks@.len(),
            forall|i: int|
                0 <= i < old(self).blocks@.len() && i != b as int ==> final(self).blocks@[i]
                    == old(self).blocks@[i],
            block_blank(final(self).blocks@[b as int]),
    {
        let blk = &mut self.blocks[b];
        blk.reset();
    }
}

/// A block in its just-reset state: zeroed counters, no candidacy.
pub open spec fn block_blank(b: BlockInfo) -> bool {
    &&& b.wf()
    &&& forall|i: int| 0 <= i < NUM_LINES_PER_BLOCK as int ==> line_free(b.line_counter@, i)
    &&& !b.evacuation_candidate
}

} // verus!
