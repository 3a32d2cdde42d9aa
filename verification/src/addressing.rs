use vstd::prelude::*;
use crate::constants::{BLOCK_SIZE, LINE_SIZE, NUM_LINES_PER_BLOCK};

verus! {

/// Index of the block an address falls into.
pub open spec fn block_of(addr: usize) -> int {
    (addr as int) / (BLOCK_SIZE as int)
}

/// Byte offset of an address inside its block.
pub open spec fn offset_of(addr: usize) -> int {
    (addr as int) % (BLOCK_SIZE as int)
}

/// Index of the line a block-relative byte offset falls into.
pub open spec fn line_of(off: int) -> int {
    off / (LINE_SIZE as int)
}

/// A well-placed object span: the object starts past the header line of a
/// block inside the region of `limit` bytes and does not run over its
/// block's end.
pub open spec fn addr_span_ok(addr: usize, size: usize, limit: usize) -> bool {
    &&& addr + size <= limit
    &&& LINE_SIZE <= offset_of(addr)
    &&& offset_of(addr) + size <= BLOCK_SIZE
    &&& 1 <= size
}

/// An address assembled from a block index and an in-block offset decomposes
/// back into the two.
pub proof fn lemma_addr_decompose(b: int, off: int)
    requires
        0 <= b,
        0 <= off < BLOCK_SIZE,
    ensures
        (b * BLOCK_SIZE + off) / (BLOCK_SIZE as int) == b,
        (b * BLOCK_SIZE + off) % (BLOCK_SIZE as int) == off,
{
    assert((b * BLOCK_SIZE + off) / (BLOCK_SIZE as int) == b && (b * BLOCK_SIZE + off) % (
    BLOCK_SIZE as int) == off) by (nonlinear_arith)
        requires
            0 <= b,
            0 <= off < BLOCK_SIZE,
    ;
}

/// An address below `total * BLOCK_SIZE` lies in a block below `total`.
pub proof fn lemma_block_of_bound(addr: usize, total: usize)
    requires
        addr < total * BLOCK_SIZE,
    ensures
        0 <= block_of(addr) < total,
        0 <= offset_of(addr) < BLOCK_SIZE,
        addr == block_of(addr) * BLOCK_SIZE + offset_of(addr),
{
    assert(0 <= (addr as int) / (BLOCK_SIZE as int) < total && 0 <= (addr as int) % (
    BLOCK_SIZE as int) < BLOCK_SIZE && addr == ((addr as int) / (BLOCK_SIZE as int)) * BLOCK_SIZE
        + (addr as int) % (BLOCK_SIZE as int)) by (nonlinear_arith)
        requires
            addr < total * BLOCK_SIZE,
    ;
}

/// The lines a well-placed object span touches are payload lines: the first
/// one lies past the header line, and the last one inside the block.
pub proof fn lemma_span_lines(off: int, size: int)
    requires
        LINE_SIZE <= off,
        off + size <= BLOCK_SIZE,
        1 <= size,
    ensures
        1 <= line_of(off),
        line_of(off) <= line_of(off + size - 1),
        line_of(off + size - 1) < NUM_LINES_PER_BLOCK,
{
    assert(1 <= off / (LINE_SIZE as int) && off / (LINE_SIZE as int) <= (off + size - 1) / (
    LINE_SIZE as int) && (off + size - 1) / (LINE_SIZE as int) < NUM_LINES_PER_BLOCK)
        by (nonlinear_arith)
        requires
            LINE_SIZE <= off,
            off + size <= BLOCK_SIZE,
            1 <= size,
            BLOCK_SIZE == NUM_LINES_PER_BLOCK * LINE_SIZE,
            LINE_SIZE > 0,
    ;
}

} // verus!
