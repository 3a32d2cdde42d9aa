use vstd::prelude::*;
use crate::constants::{BLOCK_SIZE, LINE_SIZE, NUM_LINES_PER_BLOCK};
use crate::block_allocator::BlockAllocator;
use crate::block_info::{line_free, only_small_holes, pair_too_small, lemma_hole_end_props,
    lemma_hole_end_run_export};
use crate::addressing::{addr_span_ok, block_of, lemma_addr_decompose};

verus! {

/// The hole an allocator is currently bumping into: block index and the
/// inclusive byte range `[low, high]` still unclaimed inside it.
#[derive(Clone, Copy)]
pub struct BlockTuple {
    pub block: usize,
    pub low: usize,
    pub high: usize,
}

/// A usable block tuple for a region of `total` blocks.
pub open spec fn tuple_wf(t: BlockTuple, total: usize) -> bool {
    &&& t.block < total
    &&& LINE_SIZE <= t.low
    &&& t.low <= t.high
    &&& t.high < BLOCK_SIZE
}

/// Popping the front of a sequence keeps every member except possibly the
/// front itself.
proof fn lemma_remove_front_keeps(s: Seq<usize>, x: usize)
    ensures
        s.len() > 0 && s.contains(x) ==> s.remove(0).contains(x) || x == s[0],
{
    if s.len() > 0 && s.contains(x) {
        let i = choose|i: int| 0 <= i < s.len() && s[i] == x;
        if i > 0 {
            assert(s.remove(0)[i - 1] == x);
        }
    }
}

/// Every listed block index lies inside a region of `total` blocks.
pub open spec fn blocks_wf(s: Seq<usize>, total: usize) -> bool {
    forall|i: int| 0 <= i < s.len() ==> (#[trigger] s[i]) < total
}

/// Scan `t`'s block for a hole of at least `size` bytes, starting from the
/// tuple itself and walking the block's holes forward. `None` means the
/// block is done: the caller retires it. The hole scan only ever advances,
/// so one block is scanned at most once per collection cycle.
fn scan_for_hole(ba: &BlockAllocator, size: usize, t: BlockTuple) -> (r: Option<BlockTuple>)
    requires
        ba.wf(),
        tuple_wf(t, ba.total),
        1 <= size,
    ensures
        t.high - t.low >= size ==> r == Some(t),
        match r {
            Some(t2) => {
                &&& tuple_wf(t2, ba.total)
                &&& t2.block == t.block
                &&& t2.high - t2.low >= size
                &&& (t2 == t || t2.low > t.high)
                &&& (t2 != t ==> forall|l: int|
                    (t2.low as int) / (LINE_SIZE as int) <= l <= (t2.high as int) / (
                    LINE_SIZE as int) ==> line_free(
                        ba.blocks@[t.block as int].line_counter@,
                        l,
                    ))
            },
            // A refused block really is done: the caller's hole was too
            // small and every hole past it offers fewer than `size` bytes.
            None => t.high - t.low < size && only_small_holes(
                ba.blocks@[t.block as int].line_counter@,
                (t.high as int) / (LINE_SIZE as int),
                size as int,
            ),
        },
{
    let ghost lines = ba.blocks@[t.block as int].line_counter@;
    let ghost ls = LINE_SIZE as int;
    let ghost t_line = (t.high as int) / ls;
    let mut low = t.low;
    let mut high = t.high;
    loop
        invariant
            ba.wf(),
            t.block < ba.total,
            lines == ba.blocks@[t.block as int].line_counter@,
            ls == LINE_SIZE as int,
            t_line == (t.high as int) / ls,
            LINE_SIZE <= low,
            low <= high,
            high < BLOCK_SIZE,
            (low == t.low && high == t.high) || low > t.high,
            t.high - t.low >= size ==> low == t.low && high == t.high,
            1 <= size,
            // Every hole strictly behind the current one was measured and
            // found too small.
            low > t.high ==> forall|k: int|
                t_line < k < (low as int) / ls - 1 && k + 1 < NUM_LINES_PER_BLOCK
                    ==> !crate::block_info::free_pair(lines, k) || pair_too_small(
                    lines,
                    k,
                    size as int,
                ),
            // The current hole is a maximal free run opened by its guard.
            low > t.high ==> {
                &&& (low as int) % ls == 0
                &&& (high as int) + 1 == crate::block_info::hole_end(lines, (low as int) / ls)
                    * LINE_SIZE
                &&& t_line < (low as int) / ls - 1
                &&& crate::block_info::free_pair(lines, (low as int) / ls - 1)
                &&& forall|l: int|
                    (low as int) / ls - 1 <= l < crate::block_info::hole_end(
                        lines,
                        (low as int) / ls,
                    ) ==> line_free(lines, l)
            },
        decreases BLOCK_SIZE - high,
    {
        if high - low >= size {
            return Some(BlockTuple { block: t.block, low, high });
        }
        proof {
            // The current hole is too small: account for its free pairs.
            if low > t.high {
                let g = (low as int) / ls - 1;
                let he = crate::block_info::hole_end(lines, g + 1);
                lemma_hole_end_props(lines, g + 1);
                vstd::arithmetic::div_mod::lemma_fundamental_div_mod(low as int, ls);
                assert((g + 1) * ls == low);
                assert(he * ls <= low + size);
                assert forall|k: int|
                    g <= k <= he - 1 && k + 1 < NUM_LINES_PER_BLOCK
                        implies !crate::block_info::free_pair(lines, k) || pair_too_small(
                        lines,
                        k,
                        size as int,
                    ) by {
                    if crate::block_info::free_pair(lines, k) {
                        if k <= he - 2 {
                            lemma_hole_end_run_export(lines, k + 1, he);
                            assert((g + 1) * ls <= (k + 1) * ls) by (nonlinear_arith)
                                requires
                                    g <= k,
                                    0 < ls,
                            ;
                        } else {
                            assert(!line_free(lines, k + 1));
                        }
                    }
                };
            }
        }
        let blk = &ba.blocks[t.block];
        match blk.scan_block(high) {
            None => {
                proof {
                    // Beyond the current hole the scan saw no free pair at
                    // all, so every hole after the caller's position is too
                    // small.
                    let hq = (high as int) / ls;
                    assert forall|k: int|
                        t_line < k && k + 1 < NUM_LINES_PER_BLOCK
                            implies !crate::block_info::free_pair(lines, k) || pair_too_small(
                            lines,
                            k,
                            size as int,
                        ) by {
                        if low > t.high {
                            let g = (low as int) / ls - 1;
                            let he = crate::block_info::hole_end(lines, g + 1);
                            lemma_hole_end_props(lines, g + 1);
                            assert((low as int) / ls >= 1) by (nonlinear_arith)
                                requires
                                    LINE_SIZE <= low,
                                    ls == LINE_SIZE as int,
                                    0 < ls,
                            ;
                            assert(high as int == (he - 1) * ls + (ls - 1)) by (nonlinear_arith)
                                requires
                                    high as int == he * ls - 1,
                                    0 < ls,
                            ;
                            vstd::arithmetic::div_mod::lemma_fundamental_div_mod_converse(
                                high as int,
                                ls,
                                he - 1,
                                ls - 1,
                            );
                            assert(hq == he - 1);
                        }
                    };
                }
                return None;
            },
            Some(hole) => {
                proof {
                    // The scan advances: the new hole starts past the guard
                    // line, which lies beyond the line holding `high`.
                    let hq = (high as int) / ls;
                    let hr = (high as int) % ls;
                    vstd::arithmetic::div_mod::lemma_fundamental_div_mod(high as int, ls);
                    vstd::arithmetic::div_mod::lemma_mod_bound(high as int, ls);
                    let guard = (hole.0 as int) / ls - 1;
                    let he = crate::block_info::hole_end(lines, guard + 1);
                    assert(hole.0 > high) by (nonlinear_arith)
                        requires
                            hole.0 == (guard + 1) * ls,
                            guard > hq,
                            high as int == ls * hq + hr,
                            0 <= hr < ls,
                    ;
                    lemma_hole_end_props(lines, guard + 1);
                    if low > t.high {
                        let g = (low as int) / ls - 1;
                        let ohe = crate::block_info::hole_end(lines, g + 1);
                        lemma_hole_end_props(lines, g + 1);
                        assert((low as int) / ls >= 1) by (nonlinear_arith)
                            requires
                                LINE_SIZE <= low,
                                ls == LINE_SIZE as int,
                                0 < ls,
                        ;
                        assert(high as int == (ohe - 1) * ls + (ls - 1)) by (nonlinear_arith)
                            requires
                                high as int == ohe * ls - 1,
                                0 < ls,
                        ;
                        vstd::arithmetic::div_mod::lemma_fundamental_div_mod_converse(
                            high as int,
                            ls,
                            ohe - 1,
                            ls - 1,
                        );
                        assert(hq == ohe - 1);
                    }
                    assert forall|k: int|
                        t_line < k < guard && k + 1 < NUM_LINES_PER_BLOCK
                            implies !crate::block_info::free_pair(lines, k) || pair_too_small(
                            lines,
                            k,
                            size as int,
                        ) by {
                        if crate::block_info::free_pair(lines, k) && k > hq {
                            assert(!crate::block_info::free_pair(lines, k));
                        }
                    };
                }
                low = hole.0;
                high = hole.1;
            },
        }
    }
}

/// Claim `size` bytes at the bottom of the tuple's hole: the object's
/// address, and the tuple with its low mark bumped past the new object.
fn allocate_from_block(ba: &BlockAllocator, size: usize, t: BlockTuple) -> (r: (
    BlockTuple,
    usize,
))
    requires
        ba.wf(),
        tuple_wf(t, ba.total),
        1 <= size,
        t.high - t.low >= size,
    ensures
        tuple_wf(r.0, ba.total),
        r.0.block == t.block,
        r.0.low == t.low + size,
        r.0.high == t.high,
        r.1 == t.block * BLOCK_SIZE + t.low,
        addr_span_ok(r.1, size, ba.limit),
{
    proof {
        assert(t.block * BLOCK_SIZE + t.low + size <= ba.total * BLOCK_SIZE) by (nonlinear_arith)
            requires
                t.block < ba.total,
                t.low + size <= BLOCK_SIZE,
                0 < BLOCK_SIZE,
        ;
        lemma_addr_decompose(t.block as int, t.low as int);
    }
    let addr = t.block * BLOCK_SIZE + t.low;
    let t2 = BlockTuple { block: t.block, low: t.low + size, high: t.high };
    (t2, addr)
}

/// A fresh block from the global pool, opened as one whole-payload hole.
fn get_new_block(ba: &mut BlockAllocator) -> (r: Option<BlockTuple>)
    requires
        old(ba).wf(),
    ensures
        final(ba).wf(),
        final(ba).total == old(ba).total,
        final(ba).limit == old(ba).limit,
        final(ba).blocks == old(ba).blocks,
        match r {
            Some(t) => tuple_wf(t, final(ba).total) && t.low == LINE_SIZE && t.high == BLOCK_SIZE
                - 1 && old(ba).free@.len() > 0 && t.block == old(ba).free@.last()
                && final(ba).free@ == old(ba).free@.drop_last(),
            None => final(ba).free@ == old(ba).free@ && old(ba).free@.len() == 0,
        },
{
    match ba.get_block() {
        Some(b) => Some(BlockTuple { block: b, low: LINE_SIZE, high: BLOCK_SIZE - 1 }),
        None => None,
    }
}

/// The allocator for objects smaller than a line. It bumps into its current
/// block, then chases holes in recyclable blocks, then asks for a fresh
/// block.
pub struct NormalAllocator {
    pub current_block: Option<BlockTuple>,
    pub recyclable_blocks: Vec<usize>,
    pub unavailable_blocks: Vec<usize>,
}

impl NormalAllocator {
    pub open spec fn wf(&self, total: usize) -> bool {
        &&& (self.current_block matches Some(t) ==> tuple_wf(t, total))
        &&& blocks_wf(self.recyclable_blocks@, total)
        &&& blocks_wf(self.unavailable_blocks@, total)
    }

    pub fn new() -> (a: NormalAllocator)
        ensures
            a.current_block is None,
            a.recyclable_blocks@ == Seq::<usize>::empty(),
            a.unavailable_blocks@ == Seq::<usize>::empty(),
    {
        NormalAllocator {
            current_block: None,
            recyclable_blocks: Vec::new(),
            unavailable_blocks: Vec::new(),
        }
    }

    /// Hand the allocator the recyclable blocks the sweep found.
    pub fn set_recyclable_blocks(&mut self, blocks: Vec<usize>, total: usize)
        requires
            blocks_wf(blocks@, total),
        ensures
            final(self).recyclable_blocks == blocks,
            final(self).current_block == old(self).current_block,
            final(self).unavailable_blocks == old(self).unavailable_blocks,
    {
        self.recyclable_blocks = blocks;
    }

    /// Drain every block the allocator holds, for the collector to sweep.
    pub fn get_all_blocks(&mut self) -> (r: Vec<usize>)
        ensures
            final(self).current_block is None,
            final(self).recyclable_blocks@ == Seq::<usize>::empty(),
            final(self).unavailable_blocks@ == Seq::<usize>::empty(),
            r@ == old(self).recyclable_blocks@ + old(self).unavailable_blocks@ + (
            match old(self).current_block {
                Some(t) => seq![t.block],
                None => Seq::<usize>::empty(),
            }),
    {
        let mut r: Vec<usize> = Vec::new();
        r.append(&mut self.recyclable_blocks);
        r.append(&mut self.unavailable_blocks);
        let c = self.current_block;
        self.current_block = None;
        match c {
            Some(t) => r.push(t.block),
            None => (),
        }
        r
    }

    /// Pop recyclable blocks until one offers a hole of `size` bytes; blocks
    /// without one go to the unavailable list.
    fn scan_recyclables(&mut self, ba: &BlockAllocator, size: usize) -> (r: Option<BlockTuple>)
        requires
            ba.wf(),
            old(self).wf(ba.total),
            1 <= size,
        ensures
            final(self).wf(ba.total),
            final(self).current_block == old(self).current_block,
            old(self).recyclable_blocks@.len() == 0 ==> r is None && *final(self) == *old(self),
            match r {
                Some(t) => tuple_wf(t, ba.total) && t.high - t.low >= size,
                None => final(self).recyclable_blocks@ == Seq::<usize>::empty(),
            },
            // A fruitless scan retires every recyclable block it popped
            // into the unavailable list.
            r is None ==> forall|b: usize|
                #[trigger] old(self).recyclable_blocks@.contains(b)
                    ==> final(self).unavailable_blocks@.contains(b),
    {
        loop
            invariant
                ba.wf(),
                self.wf(ba.total),
                1 <= size,
                self.current_block == old(self).current_block,
                old(self).recyclable_blocks@.len() == 0 ==> *self == *old(self),
                forall|b: usize|
                    #[trigger] old(self).recyclable_blocks@.contains(b)
                        ==> self.recyclable_blocks@.contains(b)
                        || self.unavailable_blocks@.contains(b),
            decreases self.recyclable_blocks@.len(),
        {
            if self.recyclable_blocks.len() == 0 {
                return None;
            }
            let ghost rec0 = self.recyclable_blocks@;
            let ghost unav0 = self.unavailable_blocks@;
            let block = self.recyclable_blocks.remove(0);
            proof {
                assert forall|b: usize| rec0.contains(b) implies self.recyclable_blocks@.contains(
                    b,
                ) || b == block by {
                    lemma_remove_front_keeps(rec0, b);
                };
            }
            let blk = &ba.blocks[block];
            match blk.scan_block(LINE_SIZE - 1) {
                None => {
                    self.unavailable_blocks.push(block);
                    proof {
                        crate::collector::lemma_push_keeps_members(unav0, block);
                    }
                },
                Some(hole) => {
                    let t = BlockTuple { block, low: hole.0, high: hole.1 };
                    match scan_for_hole(ba, size, t) {
                        Some(t2) => {
                            return Some(t2);
                        },
                        None => {
                            self.unavailable_blocks.push(block);
                            proof {
                                crate::collector::lemma_push_keeps_members(unav0, block);
                            }
                        },
                    }
                },
            }
        }
    }

    /// Allocate `size` bytes (a small object) and return its address.
    pub fn allocate(&mut self, ba: &mut BlockAllocator, size: usize) -> (r: Option<usize>)
        requires
            old(ba).wf(),
            old(self).wf(old(ba).total),
            1 <= size < LINE_SIZE,
        ensures
            final(ba).wf(),
            final(ba).total == old(ba).total,
            final(ba).limit == old(ba).limit,
            final(ba).blocks == old(ba).blocks,
            final(self).wf(final(ba).total),
            old(ba).free@.len() > 0 ==> r is Some,
            // Bump placement: a current hole with room serves the request
            // at its low mark, which then advances past the new object.
            old(self).current_block matches Some(t) ==> (t.high - t.low >= size ==> r == Some(
                (t.block * BLOCK_SIZE + t.low) as usize,
            ) && final(self).current_block == Some(
                BlockTuple { block: t.block, low: (t.low + size) as usize, high: t.high },
            )),
            // Fresh placement: with no current hole and no recyclable block,
            // the object starts the payload of the next free block.
            old(self).current_block is None && old(self).recyclable_blocks@.len() == 0 && old(
                ba,
            ).free@.len() > 0 ==> r == Some((old(ba).free@.last() * BLOCK_SIZE + LINE_SIZE) as usize)
                && final(ba).free@ == old(ba).free@.drop_last(),
            match r {
                Some(addr) => addr_span_ok(addr, size, final(ba).limit),
                None => true,
            },
    {
        let t0 = self.current_block;
        self.current_block = None;
        let mut found: Option<BlockTuple> = None;
        match t0 {
            Some(t) => {
                match scan_for_hole(ba, size, t) {
                    Some(t2) => {
                        found = Some(t2);
                    },
                    None => {
                        self.unavailable_blocks.push(t.block);
                    },
                }
            },
            None => (),
        }
        if found.is_none() {
            found = self.scan_recyclables(ba, size);
        }
        if found.is_none() {
            found = get_new_block(ba);
        }
        match found {
            Some(t) => {
                proof {
                    assert(t.high - t.low >= size);
                }
                let (t2, addr) = allocate_from_block(ba, size, t);
                self.current_block = Some(t2);
                Some(addr)
            },
            None => None,
        }
    }
}

/// The allocator for objects of at least a line. It never chases holes in
/// recyclable blocks: a medium object that misses its current block gets a
/// fresh one.
pub struct OverflowAllocator {
    pub current_block: Option<BlockTuple>,
    pub unavailable_blocks: Vec<usize>,
}

impl OverflowAllocator {
    pub open spec fn wf(&self, total: usize) -> bool {
        &&& (self.current_block matches Some(t) ==> tuple_wf(t, total))
        &&& blocks_wf(self.unavailable_blocks@, total)
    }

    pub fn new() -> (a: OverflowAllocator)
        ensures
            a.current_block is None,
            a.unavailable_blocks@ == Seq::<usize>::empty(),
    {
        OverflowAllocator { current_block: None, unavailable_blocks: Vec::new() }
    }

    /// Drain every block the allocator holds, for the collector to sweep.
    pub fn get_all_blocks(&mut self) -> (r: Vec<usize>)
        ensures
            final(self).current_block is None,
            final(self).unavailable_blocks@ == Seq::<usize>::empty(),
            r@ == old(self).unavailable_blocks@ + (match old(self).current_block {
                Some(t) => seq![t.block],
                None => Seq::<usize>::empty(),
            }),
    {
        let mut r: Vec<usize> = Vec::new();
        r.append(&mut self.unavailable_blocks);
        let c = self.current_block;
        self.current_block = None;
        match c {
            Some(t) => r.push(t.block),
            None => (),
        }
        r
    }

    /// Allocate `size` bytes (a medium object) and return its address.
    pub fn allocate(&mut self, ba: &mut BlockAllocator, size: usize) -> (r: Option<usize>)
        requires
            old(ba).wf(),
            old(self).wf(old(ba).total),
            LINE_SIZE <= size,
            size <= BLOCK_SIZE - LINE_SIZE,
        ensures
            final(ba).wf(),
            final(ba).total == old(ba).total,
            final(ba).limit == old(ba).limit,
            final(ba).blocks == old(ba).blocks,
            final(self).wf(final(ba).total),
            old(ba).free@.len() > 0 && size <= BLOCK_SIZE - LINE_SIZE - 1 ==> r is Some,
            // Bump placement into the current fresh block.
            old(self).current_block matches Some(t) ==> (t.high - t.low >= size ==> r == Some(
                (t.block * BLOCK_SIZE + t.low) as usize,
            ) && final(self).current_block == Some(
                BlockTuple { block: t.block, low: (t.low + size) as usize, high: t.high },
            )),
            // A medium object that misses its current block starts the
            // payload of the next free block: no hole chasing.
            old(self).current_block is None && old(ba).free@.len() > 0 && size <= BLOCK_SIZE
                - LINE_SIZE - 1 ==> r == Some((old(ba).free@.last() * BLOCK_SIZE + LINE_SIZE) as usize)
                && final(ba).free@ == old(ba).free@.drop_last(),
            match r {
                Some(addr) => addr_span_ok(addr, size, final(ba).limit),
                None => true,
            },
    {
        let t0 = self.current_block;
        self.current_block = None;
        let mut found: Option<BlockTuple> = None;
        let ghost free0 = ba.free@.len();
        match t0 {
            Some(t) => {
                match scan_for_hole(ba, size, t) {
                    Some(t2) => {
                        found = Some(t2);
                    },
                    None => {
                        self.unavailable_blocks.push(t.block);
                    },
                }
            },
            None => (),
        }
        if found.is_none() {
            found = get_new_block(ba);
        }
        match found {
            Some(t) => {
                if t.high - t.low >= size {
                    let (t2, addr) = allocate_from_block(ba, size, t);
                    self.current_block = Some(t2);
                    Some(addr)
                } else {
                    self.current_block = Some(t);
                    None
                }
            },
            None => None,
        }
    }
}

/// Bytes the evacuation allocator can still hand out before its reserve is
/// spent. Every successful evacuation strictly lowers this, which bounds
/// how many evacuations one collection can perform.
pub open spec fn evac_capacity(e: EvacAllocator) -> int {
    (e.evac_headroom@.len() as int) * (BLOCK_SIZE as int) + (match e.current_block {
        Some(t) => BLOCK_SIZE as int - t.low,
        None => 0,
    })
}

/// The allocator evacuation copies into. It draws only on the headroom of
/// empty blocks reserved by the sweep; when that runs dry, evacuation simply
/// fails and objects stay where they are.
pub struct EvacAllocator {
    pub current_block: Option<BlockTuple>,
    pub evac_headroom: Vec<usize>,
    pub used_blocks: Vec<usize>,
}

impl EvacAllocator {
    pub open spec fn wf(&self, total: usize) -> bool {
        &&& (self.current_block matches Some(t) ==> tuple_wf(t, total))
        &&& blocks_wf(self.evac_headroom@, total)
        &&& blocks_wf(self.used_blocks@, total)
    }

    pub fn new() -> (a: EvacAllocator)
        ensures
            a.current_block is None,
            a.evac_headroom@ == Seq::<usize>::empty(),
            a.used_blocks@ == Seq::<usize>::empty(),
    {
        EvacAllocator { current_block: None, evac_headroom: Vec::new(), used_blocks: Vec::new() }
    }

    /// Number of reserve blocks currently held for evacuation.
    pub fn evac_headroom_len(&self) -> (r: usize)
        ensures
            r == self.evac_headroom@.len(),
    {
        self.evac_headroom.len()
    }

    /// Add the empty blocks the sweep reserved to the headroom.
    pub fn extend_evac_headroom(&mut self, blocks: Vec<usize>, total: usize)
        requires
            blocks_wf(blocks@, total),
        ensures
            final(self).evac_headroom@ == old(self).evac_headroom@ + blocks@,
            final(self).current_block == old(self).current_block,
            final(self).used_blocks == old(self).used_blocks,
    {
        let mut blocks = blocks;
        self.evac_headroom.append(&mut blocks);
    }

    /// Drain the filled evacuation blocks (headroom stays reserved).
    pub fn get_all_blocks(&mut self) -> (r: Vec<usize>)
        ensures
            final(self).current_block is None,
            final(self).used_blocks@ == Seq::<usize>::empty(),
            final(self).evac_headroom == old(self).evac_headroom,
            r@ == old(self).used_blocks@ + (match old(self).current_block {
                Some(t) => seq![t.block],
                None => Seq::<usize>::empty(),
            }),
    {
        let mut r: Vec<usize> = Vec::new();
        r.append(&mut self.used_blocks);
        let c = self.current_block;
        self.current_block = None;
        match c {
            Some(t) => r.push(t.block),
            None => (),
        }
        r
    }

    /// Allocate `size` bytes in a reserve block for an evacuated object.
    pub fn allocate(&mut self, ba: &BlockAllocator, size: usize) -> (r: Option<usize>)
        requires
            ba.wf(),
            old(self).wf(ba.total),
            1 <= size,
            size <= BLOCK_SIZE - LINE_SIZE,
        ensures
            final(self).wf(ba.total),
            final(self).evac_headroom@.len() <= old(self).evac_headroom@.len(),
            old(self).evac_headroom@.len() > 0 && size <= BLOCK_SIZE - LINE_SIZE - 1 ==> r
                is Some,
            old(self).current_block matches Some(t) ==> (t.high - t.low >= size ==> r == Some(
                (t.block * BLOCK_SIZE + t.low) as usize,
            )),
            // The destination always lies in a reserve: the current
            // evacuation block or one drawn from the headroom.
            match r {
                Some(addr) => (match old(self).current_block {
                    Some(t) => block_of(addr) == t.block,
                    None => false,
                }) || old(self).evac_headroom@.contains(block_of(addr) as usize),
                None => true,
            },
            match r {
                Some(addr) => addr_span_ok(addr, size, ba.limit) && evac_capacity(*final(self))
                    <= evac_capacity(*old(self)) - 1,
                None => evac_capacity(*final(self)) <= evac_capacity(*old(self)),
            },
    {
        let t0 = self.current_block;
        self.current_block = None;
        let mut found: Option<BlockTuple> = None;
        proof {
            if t0 is Some {
                assert(BLOCK_SIZE as int - t0->0.low >= 1);
            }
        }
        match t0 {
            Some(t) => {
                match scan_for_hole(ba, size, t) {
                    Some(t2) => {
                        found = Some(t2);
                    },
                    None => {
                        self.used_blocks.push(t.block);
                    },
                }
            },
            None => (),
        }
        if found.is_none() {
            match self.evac_headroom.pop() {
                Some(b) => {
                    proof {
                        assert(old(self).evac_headroom@.last() == b);
                        assert(old(self).evac_headroom@.contains(b));
                    }
                    found = Some(BlockTuple { block: b, low: LINE_SIZE, high: BLOCK_SIZE - 1 });
                },
                None => (),
            }
        }
        match found {
            Some(t) => {
                if t.high - t.low >= size {
                    let (t2, addr) = allocate_from_block(ba, size, t);
                    proof {
                        lemma_addr_decompose(t.block as int, t.low as int);
                    }
                    self.current_block = Some(t2);
                    Some(addr)
                } else {
                    self.current_block = Some(t);
                    None
                }
            },
            None => None,
        }
    }
}

} // verus!
