use vstd::prelude::*;
use crate::constants::{NUM_LINES_PER_BLOCK, LINE_SIZE};
use crate::gc_object::{GcObject, with_logged, forwarded_to, evac_copy_of};
use crate::block_info::lines_incremented;

verus! {

/// Law of the write barrier's coalescing: the first barrier of a window
/// stores the logged version of the object, and by the barrier's contract a
/// barrier on a logged object changes neither the heap nor any buffer. So
/// among any number of writes to one object between collections, only the
/// first enqueues it: repeating the logging step is absorbed.
pub proof fn lemma_write_barrier_coalesces(m: Map<usize, GcObject>, o: usize)
    requires
        m.contains_key(o),
    ensures
        m.insert(o, with_logged(m[o], true))[o].logged,
        m.insert(o, with_logged(m[o], true)).insert(
            o,
            with_logged(m.insert(o, with_logged(m[o], true))[o], true),
        ) =~= m.insert(o, with_logged(m[o], true)),
{
}

/// Law of the evacuation round trip: when an object is evacuated, the old
/// address forwards to the new one and the copy carries the very same
/// outgoing references, so every path through the old object exists through
/// the new one, and a holder rewritten from the old to the new address
/// reaches exactly the children it reached before.
pub proof fn lemma_evacuation_preserves_children(
    m1: Map<usize, GcObject>,
    m2: Map<usize, GcObject>,
    addr: usize,
    new: usize,
)
    requires
        m1.contains_key(addr),
        m2.contains_key(addr),
        m2.contains_key(new),
        new != addr,
        forwarded_to(m1[addr], m2[addr], new),
        evac_copy_of(m1[addr], m2[new]),
    ensures
        m2[addr].forwarded == Some(new),
        m2[new].children@ == m1[addr].children@,
        m2[new].children@ == m2[addr].children@,
        m2[new].size == m1[addr].size,
        m2[new].rc == m1[addr].rc,
        m2[new].mark == m1[addr].mark,
{
}

/// Law of the line accounting: after the counters under an object's span
/// were raised, every line of the span carries a positive count — a live
/// object never sits on an uncounted line.
pub proof fn lemma_incremented_lines_live(a: Seq<u8>, b: Seq<u8>, first: int, last: int)
    requires
        lines_incremented(a, b, first, last),
        0 <= first <= last < a.len(),
    ensures
        forall|i: int| first <= i <= last ==> b[i] >= 1,
{
}

/// Law of the hole geometry: a block's lines cover exactly the block, so a
/// span that stays within the payload touches only payload lines. This is
/// the arithmetic behind treating line 0 as the header line.
pub proof fn lemma_payload_lines(off: int, size: int)
    requires
        LINE_SIZE <= off,
        off + size <= NUM_LINES_PER_BLOCK * LINE_SIZE,
        1 <= size,
    ensures
        1 <= off / (LINE_SIZE as int),
        (off + size - 1) / (LINE_SIZE as int) < NUM_LINES_PER_BLOCK,
{
    crate::addressing::lemma_span_lines(off, size);
}

} // verus!
