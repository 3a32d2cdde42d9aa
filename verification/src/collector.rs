use vstd::prelude::*;
use crate::constants::{NUM_LINES_PER_BLOCK, EVAC_HEADROOM, MAX_BLOCKS, EVAC_TRIGGER_NUMER,
    EVAC_TRIGGER_DENOM, CYCLE_TRIGGER_NUMER, CYCLE_TRIGGER_DENOM};
use crate::block_allocator::BlockAllocator;
use crate::block_info::{payload_free, line_free, holes_upto, free_lines_upto};
use crate::allocator::blocks_wf;

verus! {

/// Saturating add, for the histogram accumulators: they steer a heuristic,
/// so capping them at the integer bound is sound.
fn sat_add(a: usize, b: usize) -> (r: usize)
    ensures
        r == if a + b <= usize::MAX { a + b } else { usize::MAX as int },
{
    if a <= usize::MAX - b {
        a + b
    } else {
        usize::MAX
    }
}

/// `x < total * numer / denom`, the trigger comparisons on block counts,
/// computed without overflow. Needs `numer <= denom` (the fractions are
/// below one).
fn below_fraction(x: usize, total: usize, numer: usize, denom: usize) -> (r: bool)
    requires
        total <= MAX_BLOCKS,
        0 < denom <= 16,
        numer <= denom,
    ensures
        r == (x * denom < total * numer),
{
    if x > total {
        proof {
            assert(!(x * denom < total * numer)) by (nonlinear_arith)
                requires
                    x > total,
                    numer <= denom,
                    0 < denom,
            ;
        }
        false
    } else {
        proof {
            assert(x * denom <= MAX_BLOCKS * 16 && total * numer <= MAX_BLOCKS * 16)
                by (nonlinear_arith)
                requires
                    x <= total,
                    total <= MAX_BLOCKS,
                    denom <= 16,
                    numer <= denom,
            ;
        }
        x * denom < total * numer
    }
}

/// Pushing onto a sequence keeps every member, adds the new one, and adds
/// nothing else.
pub proof fn lemma_push_keeps_members(s: Seq<usize>, v: usize)
    ensures
        forall|x: usize| s.contains(x) ==> #[trigger] s.push(v).contains(x),
        s.push(v).contains(v),
        forall|x: usize| #[trigger] s.push(v).contains(x) ==> s.contains(x) || x == v,
{
    assert forall|x: usize| s.contains(x) implies #[trigger] s.push(v).contains(x) by {
        let i = choose|i: int| 0 <= i < s.len() && s[i] == x;
        assert(s.push(v)[i] == x);
    };
    assert(s.push(v)[s.len() as int] == v);
    assert forall|x: usize| #[trigger] s.push(v).contains(x) implies s.contains(x) || x == v by {
        let i = choose|i: int| 0 <= i < s.push(v).len() && s.push(v)[i] == x;
        if i < s.len() {
            assert(s[i] == x);
        }
    };
}

/// Saturating addition at the integer bound, as the histogram accumulators
/// compute it.
pub open spec fn sat_add_spec(a: int, b: int) -> int {
    if a + b <= usize::MAX {
        a + b
    } else {
        usize::MAX as int
    }
}

/// One bucket of the available-lines histogram: the free lines of every
/// listed block with exactly `h` holes, summed saturatingly.
pub open spec fn avail_bucket(
    blocks: Seq<crate::block_info::BlockInfo>,
    listed: Seq<usize>,
    h: int,
) -> int
    decreases listed.len(),
{
    if listed.len() == 0 {
        0
    } else {
        let rest = avail_bucket(blocks, listed.drop_last(), h);
        let lines = blocks[listed.last() as int].line_counter@;
        if holes_upto(lines, NUM_LINES_PER_BLOCK as int) == h {
            sat_add_spec(rest, free_lines_upto(lines, NUM_LINES_PER_BLOCK as int))
        } else {
            rest
        }
    }
}

/// One bucket of the mark histogram the sweep builds: the marked lines of
/// every listed occupied block with exactly `h` holes, summed saturatingly.
pub open spec fn mark_bucket(
    blocks: Seq<crate::block_info::BlockInfo>,
    listed: Seq<usize>,
    h: int,
) -> int
    decreases listed.len(),
{
    if listed.len() == 0 {
        0
    } else {
        let rest = mark_bucket(blocks, listed.drop_last(), h);
        let b = blocks[listed.last() as int];
        if !payload_free(b) && holes_upto(b.line_counter@, NUM_LINES_PER_BLOCK as int) == h {
            sat_add_spec(
                rest,
                crate::block_info::marked_lines_upto(b.line_counter@, NUM_LINES_PER_BLOCK as int),
            )
        } else {
            rest
        }
    }
}

/// The whole available-lines histogram over the listed blocks.
pub open spec fn avail_hist_seq(
    blocks: Seq<crate::block_info::BlockInfo>,
    listed: Seq<usize>,
) -> Seq<int> {
    Seq::new((NUM_LINES_PER_BLOCK + 1) as nat, |h: int| avail_bucket(blocks, listed, h))
}

/// The budget the walk starts from: every free or reserved block offers its
/// payload lines, capped at the integer bound.
pub open spec fn init_available(evac_headroom: int, free_blocks: int) -> int {
    let s = sat_add_spec(evac_headroom, free_blocks);
    if s <= usize::MAX as int / NUM_LINES_PER_BLOCK as int {
        s * (NUM_LINES_PER_BLOCK - 1)
    } else {
        usize::MAX as int
    }
}

/// The histogram walk of the threshold selection: from bucket `t` upward,
/// lines projected to stay live accumulate into `required` and the free
/// lines of blocks with `t` holes leave `available`; the first bucket at
/// which the remaining budget no longer exceeds the requirement is the
/// threshold, and the line count itself means: do not evacuate.
pub open spec fn threshold_walk(
    mark_hist: Seq<usize>,
    avail_hist: Seq<int>,
    available: int,
    required: int,
    t: int,
) -> int
    decreases NUM_LINES_PER_BLOCK + 1 - t,
{
    if t < 0 || t > NUM_LINES_PER_BLOCK {
        NUM_LINES_PER_BLOCK as int
    } else {
        let required2 = sat_add_spec(required, mark_hist[t] as int);
        let available2 = if avail_hist[t] >= available {
            0
        } else {
            available - avail_hist[t]
        };
        if available2 <= required2 {
            t
        } else {
            threshold_walk(mark_hist, avail_hist, available2, required2, t + 1)
        }
    }
}

/// The threshold §4.6 selects for the given state.
pub open spec fn chosen_threshold(
    mark_hist: Seq<usize>,
    blocks: Seq<crate::block_info::BlockInfo>,
    listed: Seq<usize>,
    evac_headroom: int,
    free_blocks: int,
) -> int {
    threshold_walk(
        mark_hist,
        avail_hist_seq(blocks, listed),
        init_available(evac_headroom, free_blocks),
        0,
        0,
    )
}

/// The listed blocks' candidate flags follow one hole threshold `t`: a
/// block becomes an evacuation candidate exactly when its hole count (in
/// its counters before the decision) reaches `t`.
pub open spec fn candidates_set_by(
    blocks1: Seq<crate::block_info::BlockInfo>,
    blocks2: Seq<crate::block_info::BlockInfo>,
    listed: Seq<usize>,
    t: usize,
) -> bool {
    forall|j: int|
        0 <= j < listed.len() ==> (#[trigger] blocks2[listed[j] as int]).evacuation_candidate == (
        holes_upto(blocks1[listed[j] as int].line_counter@, NUM_LINES_PER_BLOCK as int) >= t)
}

/// The collection-time bookkeeping of the space: the work list of blocks to
/// sweep (the unavailable blocks of the previous cycle plus everything the
/// allocators drained), and the mark histogram the last sweep built, indexed
/// by hole count.
pub struct Collector {
    pub all_blocks: Vec<usize>,
    pub mark_histogram: Vec<usize>,
}

impl Collector {
    pub open spec fn wf(&self, total: usize) -> bool {
        &&& blocks_wf(self.all_blocks@, total)
        &&& self.mark_histogram@.len() == NUM_LINES_PER_BLOCK as int + 1
    }

    pub fn new() -> (c: Collector)
        ensures
            c.all_blocks@ == Seq::<usize>::empty(),
            c.mark_histogram@.len() == NUM_LINES_PER_BLOCK as int + 1,
    {
        let mut hist: Vec<usize> = Vec::new();
        let mut i: usize = 0;
        while i <= NUM_LINES_PER_BLOCK
            invariant
                i <= NUM_LINES_PER_BLOCK + 1,
                hist@.len() == i as int,
            decreases NUM_LINES_PER_BLOCK + 1 - i,
        {
            hist.push(0);
            i = i + 1;
        }
        Collector { all_blocks: Vec::new(), mark_histogram: hist }
    }

    /// Add drained allocator blocks to the sweep work list.
    pub fn extend_all_blocks(&mut self, blocks: Vec<usize>, total: usize)
        requires
            blocks_wf(blocks@, total),
        ensures
            final(self).all_blocks@ == old(self).all_blocks@ + blocks@,
            final(self).mark_histogram == old(self).mark_histogram,
    {
        let mut blocks = blocks;
        self.all_blocks.append(&mut blocks);
    }

    /// Choose the hole-count threshold above which a block becomes an
    /// evacuation candidate: walking the buckets from the most fragmented
    /// end is not needed, the first bucket `t` at which the free lines of
    /// candidate blocks no longer cover the lines projected to stay live is
    /// the answer. `NUM_LINES_PER_BLOCK` means: do not evacuate.
    fn establish_hole_threshold(&self, ba: &BlockAllocator, evac_headroom: usize) -> (r: usize)
        requires
            self.wf(ba.total),
            ba.wf(),
            evac_headroom <= EVAC_HEADROOM,
        ensures
            r <= NUM_LINES_PER_BLOCK,
            r == chosen_threshold(
                self.mark_histogram@,
                ba.blocks@,
                self.all_blocks@,
                evac_headroom as int,
                ba.free@.len() as int,
            ),
    {
        let mut available_histogram: Vec<usize> = Vec::new();
        let mut i: usize = 0;
        while i <= NUM_LINES_PER_BLOCK
            invariant
                i <= NUM_LINES_PER_BLOCK + 1,
                available_histogram@.len() == i as int,
                forall|h: int| 0 <= h < i as int ==> available_histogram@[h] == 0,
            decreases NUM_LINES_PER_BLOCK + 1 - i,
        {
            available_histogram.push(0);
            i = i + 1;
        }
        let mut j: usize = 0;
        while j < self.all_blocks.len()
            invariant
                self.wf(ba.total),
                ba.wf(),
                j <= self.all_blocks@.len(),
                available_histogram@.len() == NUM_LINES_PER_BLOCK as int + 1,
                forall|h: int|
                    0 <= h <= NUM_LINES_PER_BLOCK ==> available_histogram@[h] == avail_bucket(
                        ba.blocks@,
                        self.all_blocks@.subrange(0, j as int),
                        h,
                    ),
            decreases self.all_blocks@.len() - j,
        {
            let b = self.all_blocks[j];
            let blk = &ba.blocks[b];
            let counts = blk.count_holes_and_available_lines();
            let prior = available_histogram[counts.0];
            let summed = sat_add(prior, counts.1);
            available_histogram.set(counts.0, summed);
            proof {
                let pre = self.all_blocks@.subrange(0, j as int);
                let now = self.all_blocks@.subrange(0, j as int + 1);
                assert(now.drop_last() =~= pre);
                assert(now.last() == self.all_blocks@[j as int]);
            }
            j = j + 1;
        }
        proof {
            assert(self.all_blocks@.subrange(0, self.all_blocks@.len() as int)
                =~= self.all_blocks@);
        }
        let mut available: usize = sat_add(evac_headroom, ba.available_blocks());
        // Each evacuation destination block offers its payload lines.
        if available <= usize::MAX / NUM_LINES_PER_BLOCK {
            proof {
                let m = usize::MAX as int;
                let n = NUM_LINES_PER_BLOCK as int;
                vstd::arithmetic::div_mod::lemma_fundamental_div_mod(m, n);
                vstd::arithmetic::div_mod::lemma_mod_bound(m, n);
                assert(available as int * (n - 1) <= m) by (nonlinear_arith)
                    requires
                        available as int <= m / n,
                        m == n * (m / n) + m % n,
                        0 <= m % n,
                        0 <= available as int,
                        n >= 2,
                ;
            }
            available = available * (NUM_LINES_PER_BLOCK - 1);
        } else {
            available = usize::MAX;
        }
        let ghost ah = avail_hist_seq(ba.blocks@, self.all_blocks@);
        let ghost m = self.mark_histogram@;
        let ghost avail0 = init_available(evac_headroom as int, ba.free@.len() as int);
        proof {
            assert(available as int == avail0);
        }
        let mut required: usize = 0;
        let mut t: usize = 0;
        while t <= NUM_LINES_PER_BLOCK
            invariant
                t <= NUM_LINES_PER_BLOCK + 1,
                self.mark_histogram@.len() == NUM_LINES_PER_BLOCK as int + 1,
                available_histogram@.len() == NUM_LINES_PER_BLOCK as int + 1,
                m == self.mark_histogram@,
                ah == avail_hist_seq(ba.blocks@, self.all_blocks@),
                avail0 == init_available(evac_headroom as int, ba.free@.len() as int),
                forall|h: int|
                    0 <= h <= NUM_LINES_PER_BLOCK ==> available_histogram@[h] == ah[h],
                threshold_walk(m, ah, avail0, 0, 0) == threshold_walk(
                    m,
                    ah,
                    available as int,
                    required as int,
                    t as int,
                ),
            decreases NUM_LINES_PER_BLOCK + 1 - t,
        {
            let req2 = sat_add(required, self.mark_histogram[t]);
            let avail_here = available_histogram[t];
            let av2 = if avail_here >= available {
                0
            } else {
                available - avail_here
            };
            proof {
                assert(threshold_walk(m, ah, available as int, required as int, t as int) == (
                if av2 as int <= req2 as int {
                    t as int
                } else {
                    threshold_walk(m, ah, av2 as int, req2 as int, t as int + 1)
                }));
            }
            required = req2;
            available = av2;
            if available <= required {
                return t;
            }
            t = t + 1;
        }
        NUM_LINES_PER_BLOCK
    }

    /// Open a collection: decide whether to trace for cycles and whether to
    /// evacuate, and in the latter case mark the fragmented blocks of the
    /// work list as candidates.
    ///
    /// The tracing decision is exact: a trace runs when asked for, or when
    /// the free pool fell under its trigger fraction. Evacuation happens
    /// only when asked for or under the evacuation trigger, and only if the
    /// chosen hole threshold is a real one.
    pub fn prepare_collection(
        &mut self,
        ba: &mut BlockAllocator,
        evacuation: bool,
        cycle_collect: bool,
        evac_headroom: usize,
    ) -> (r: (bool, bool))
        requires
            old(self).wf(old(ba).total),
            old(ba).wf(),
            evac_headroom <= EVAC_HEADROOM,
        ensures
            final(self).wf(final(ba).total),
            final(ba).wf(),
            final(ba).total == old(ba).total,
            final(ba).limit == old(ba).limit,
            final(ba).free@ == old(ba).free@,
            final(self).all_blocks == old(self).all_blocks,
            final(self).mark_histogram == old(self).mark_histogram,
            final(ba).blocks@.len() == old(ba).blocks@.len(),
            forall|i: int|
                0 <= i < old(ba).blocks@.len() ==> (#[trigger] final(ba).blocks@[i]).line_counter
                    == old(ba).blocks@[i].line_counter,
            r.0 == (cycle_collect || old(ba).free@.len() * CYCLE_TRIGGER_DENOM
                < old(ba).total * CYCLE_TRIGGER_NUMER),
            // The evacuation decision is exact: asked for or under the
            // trigger, and only when the histogram walk names a real
            // threshold.
            r.1 == ((evacuation || (old(ba).free@.len() + evac_headroom) * EVAC_TRIGGER_DENOM
                < old(ba).total * EVAC_TRIGGER_NUMER) && 0 < chosen_threshold(
                old(self).mark_histogram@,
                old(ba).blocks@,
                old(self).all_blocks@,
                evac_headroom as int,
                old(ba).free@.len() as int,
            ) < NUM_LINES_PER_BLOCK),
            // When no evacuation was decided, no flag moves; when one was,
            // exactly the listed blocks whose hole count reaches the chosen
            // threshold are candidates, and unlisted blocks are untouched.
            !r.1 ==> final(ba).blocks == old(ba).blocks,
            forall|b: int|
                0 <= b < old(ba).blocks@.len() && !old(self).all_blocks@.contains(b as usize)
                    ==> final(ba).blocks@[b] == old(ba).blocks@[b],
            r.1 ==> candidates_set_by(
                old(ba).blocks@,
                final(ba).blocks@,
                old(self).all_blocks@,
                chosen_threshold(
                    old(self).mark_histogram@,
                    old(ba).blocks@,
                    old(self).all_blocks@,
                    evac_headroom as int,
                    old(ba).free@.len() as int,
                ) as usize,
            ),
    {
        let free_blocks = ba.available_blocks();
        let available_evac_blocks = sat_add(free_blocks, evac_headroom);
        let mut perform_evac = false;
        let want_evac = evacuation || below_fraction(
            available_evac_blocks,
            ba.total_blocks(),
            EVAC_TRIGGER_NUMER,
            EVAC_TRIGGER_DENOM,
        );
        proof {
            // Saturation never changes the trigger comparison: a saturated
            // sum is far above the trigger either way.
            assert((available_evac_blocks * EVAC_TRIGGER_DENOM < ba.total * EVAC_TRIGGER_NUMER)
                == ((ba.free@.len() + evac_headroom) * EVAC_TRIGGER_DENOM < ba.total
                * EVAC_TRIGGER_NUMER)) by (nonlinear_arith)
                requires
                    available_evac_blocks as int == (if ba.free@.len() + evac_headroom
                        <= usize::MAX {
                        ba.free@.len() + evac_headroom
                    } else {
                        usize::MAX as int
                    }),
                    ba.total <= MAX_BLOCKS,
                    MAX_BLOCKS == 65536,
                    EVAC_TRIGGER_NUMER <= EVAC_TRIGGER_DENOM,
                    0 < EVAC_TRIGGER_DENOM <= 16,
            ;
        }
        if want_evac {
            let threshold = self.establish_hole_threshold(ba, evac_headroom);
            if 0 < threshold && threshold < NUM_LINES_PER_BLOCK {
                perform_evac = true;
                let mut j: usize = 0;
                while j < self.all_blocks.len()
                    invariant
                        self.wf(ba.total),
                        ba.wf(),
                        j <= self.all_blocks@.len(),
                        ba.total == old(ba).total,
                        ba.limit == old(ba).limit,
                        ba.free@ == old(ba).free@,
                        ba.blocks@.len() == old(ba).blocks@.len(),
                        0 < threshold < NUM_LINES_PER_BLOCK,
                        forall|i: int|
                            0 <= i < old(ba).blocks@.len() ==> (
                            #[trigger] ba.blocks@[i]).line_counter == old(
                                ba,
                            ).blocks@[i].line_counter,
                        forall|b2: int|
                            0 <= b2 < old(ba).blocks@.len() && !self.all_blocks@.contains(
                                b2 as usize,
                            ) ==> ba.blocks@[b2] == old(ba).blocks@[b2],
                        forall|k: int|
                            0 <= k < j as int ==> (#[trigger] ba.blocks@[
                                self.all_blocks@[k] as int
                            ]).evacuation_candidate == (holes_upto(
                                old(ba).blocks@[self.all_blocks@[k] as int].line_counter@,
                                NUM_LINES_PER_BLOCK as int,
                            ) >= threshold),
                    decreases self.all_blocks@.len() - j,
                {
                    let b = self.all_blocks[j];
                    let counts = (&ba.blocks[b]).count_holes_and_marked_lines();
                    let blk = &mut ba.blocks[b];
                    blk.set_evacuation_candidate(counts.0, threshold);
                    proof {
                        assert(self.all_blocks@.contains(b));
                    }
                    j = j + 1;
                }
                proof {
                    assert(candidates_set_by(
                        old(ba).blocks@,
                        ba.blocks@,
                        old(self).all_blocks@,
                        threshold,
                    ));
                }
            }
        }
        let perform_cycle = cycle_collect || below_fraction(
            free_blocks,
            ba.total_blocks(),
            CYCLE_TRIGGER_NUMER,
            CYCLE_TRIGGER_DENOM,
        );
        (perform_cycle, perform_evac)
    }

    /// Clear the line counters of every block on the work list, so that the
    /// marking pass can rebuild them from scratch.
    pub fn prepare_immix_collection(&mut self, ba: &mut BlockAllocator)
        requires
            old(self).wf(old(ba).total),
            old(ba).wf(),
        ensures
            *final(self) == *old(self),
            final(ba).wf(),
            final(ba).total == old(ba).total,
            final(ba).limit == old(ba).limit,
            final(ba).free@ == old(ba).free@,
            final(ba).blocks@.len() == old(ba).blocks@.len(),
            forall|i: int|
                0 <= i < old(ba).blocks@.len() && !old(self).all_blocks@.contains(i as usize)
                    ==> final(ba).blocks@[i] == old(ba).blocks@[i],
            forall|i: int|
                0 <= i < old(ba).blocks@.len() && old(self).all_blocks@.contains(i as usize)
                    ==> {
                    &&& forall|l: int|
                        0 <= l < NUM_LINES_PER_BLOCK as int ==> line_free(
                            (#[trigger] final(ba).blocks@[i]).line_counter@,
                            l,
                        )
                    &&& final(ba).blocks@[i].evacuation_candidate
                        == old(ba).blocks@[i].evacuation_candidate
                },
    {
        let mut j: usize = 0;
        while j < self.all_blocks.len()
            invariant
                self.wf(ba.total),
                ba.wf(),
                j <= self.all_blocks@.len(),
                ba.total == old(ba).total,
                ba.limit == old(ba).limit,
                ba.free@ == old(ba).free@,
                ba.blocks@.len() == old(ba).blocks@.len(),
                self == old(self),
                forall|i: int|
                    0 <= i < old(ba).blocks@.len() && !old(self).all_blocks@.contains(i as usize)
                        ==> ba.blocks@[i] == old(ba).blocks@[i],
                forall|i: int|
                    0 <= i < old(ba).blocks@.len() ==> (#[trigger] ba.blocks@[i]).evacuation_candidate
                        == old(ba).blocks@[i].evacuation_candidate,
                forall|i: int|
                    0 <= i < old(ba).blocks@.len() && old(self).all_blocks@.subrange(
                        0,
                        j as int,
                    ).contains(i as usize) ==> forall|l: int|
                        0 <= l < NUM_LINES_PER_BLOCK as int ==> line_free(
                            (#[trigger] ba.blocks@[i]).line_counter@,
                            l,
                        ),
            decreases self.all_blocks@.len() - j,
        {
            let b = self.all_blocks[j];
            let blk = &mut ba.blocks[b];
            blk.clear_line_counts();
            proof {
                assert(old(self).all_blocks@.subrange(0, j as int + 1) =~= old(
                    self,
                ).all_blocks@.subrange(0, j as int).push(old(self).all_blocks@[j as int]));
            }
            j = j + 1;
        }
        proof {
            assert(old(self).all_blocks@.subrange(0, self.all_blocks@.len() as int) =~= old(
                self,
            ).all_blocks@);
        }
    }

    /// Sweep the work list: empty blocks replenish the evacuation headroom
    /// up to its bound and then return to the free pool; occupied blocks are
    /// counted into the fresh mark histogram and sorted into recyclable
    /// (holes left) or unavailable (full), the latter staying on the work
    /// list for the next cycle.
    ///
    /// Returns the recyclable blocks and the blocks added to the headroom.
    pub fn complete_collection(&mut self, ba: &mut BlockAllocator, evac_headroom: usize) -> (r: (
        Vec<usize>,
        Vec<usize>,
    ))
        requires
            old(self).wf(old(ba).total),
            old(ba).wf(),
            evac_headroom <= EVAC_HEADROOM,
        ensures
            final(self).wf(final(ba).total),
            final(ba).wf(),
            final(ba).total == old(ba).total,
            final(ba).limit == old(ba).limit,
            blocks_wf(r.0@, final(ba).total),
            blocks_wf(r.1@, final(ba).total),
            evac_headroom + r.1@.len() <= EVAC_HEADROOM,
            // The sweep is total: every listed block that was empty is now
            // reserved as headroom or back in the free pool.
            forall|j: int|
                0 <= j < old(self).all_blocks@.len() && payload_free(
                    old(ba).blocks@[old(self).all_blocks@[j] as int],
                ) ==> r.1@.contains(#[trigger] old(self).all_blocks@[j])
                    || final(ba).free@.contains(old(self).all_blocks@[j]),
            // ... and every occupied block was sorted: recyclable when holes
            // remain, else kept on the work list as unavailable.
            forall|j: int|
                0 <= j < old(self).all_blocks@.len() && !payload_free(
                    old(ba).blocks@[old(self).all_blocks@[j] as int],
                ) ==> r.0@.contains(#[trigger] old(self).all_blocks@[j])
                    || final(self).all_blocks@.contains(old(self).all_blocks@[j]),
            // The only-if directions. An occupied block keeps its counters:
            forall|b: int|
                0 <= b < old(ba).blocks@.len() && !payload_free(old(ba).blocks@[b])
                    ==> final(ba).blocks@[b] == old(ba).blocks@[b],
            // the headroom and the free pool gain only empty blocks:
            forall|i: int|
                0 <= i < r.1@.len() ==> (#[trigger] r.1@[i]) < old(ba).total && payload_free(
                    old(ba).blocks@[r.1@[i] as int],
                ),
            forall|b: usize|
                #[trigger] final(ba).free@.contains(b) ==> old(ba).free@.contains(b) || (b < old(
                    ba,
                ).total && payload_free(old(ba).blocks@[b as int])),
            // and the recyclable and unavailable lists hold only occupied
            // blocks, sorted by whether a hole remains.
            forall|i: int|
                0 <= i < r.0@.len() ==> (#[trigger] r.0@[i]) < old(ba).total && !payload_free(
                    old(ba).blocks@[r.0@[i] as int],
                ) && holes_upto(
                    old(ba).blocks@[r.0@[i] as int].line_counter@,
                    NUM_LINES_PER_BLOCK as int,
                ) >= 1,
            forall|i: int|
                0 <= i < final(self).all_blocks@.len() ==> (#[trigger] final(self).all_blocks@[i])
                    < old(ba).total && !payload_free(
                    old(ba).blocks@[final(self).all_blocks@[i] as int],
                ) && holes_upto(
                    old(ba).blocks@[final(self).all_blocks@[i] as int].line_counter@,
                    NUM_LINES_PER_BLOCK as int,
                ) == 0,
            // The fresh mark histogram holds, per hole count, the marked
            // lines of the swept occupied blocks.
            final(self).mark_histogram@.len() == NUM_LINES_PER_BLOCK as int + 1,
            forall|h: int|
                0 <= h <= NUM_LINES_PER_BLOCK ==> final(self).mark_histogram@[h] == mark_bucket(
                    old(ba).blocks@,
                    old(self).all_blocks@,
                    h,
                ),
    {
        let ghost old_blocks = ba.blocks@;
        let mut recyclable: Vec<usize> = Vec::new();
        let mut headroom: Vec<usize> = Vec::new();
        let mut unavailable: Vec<usize> = Vec::new();
        let mut hist: Vec<usize> = Vec::new();
        let mut i: usize = 0;
        while i <= NUM_LINES_PER_BLOCK
            invariant
                i <= NUM_LINES_PER_BLOCK + 1,
                hist@.len() == i as int,
                forall|h: int| 0 <= h < i as int ==> hist@[h] == 0,
            decreases NUM_LINES_PER_BLOCK + 1 - i,
        {
            hist.push(0);
            i = i + 1;
        }
        self.mark_histogram = hist;
        let mut j: usize = 0;
        while j < self.all_blocks.len()
            invariant
                self.wf(ba.total),
                ba.wf(),
                j <= self.all_blocks@.len(),
                ba.total == old(ba).total,
                ba.limit == old(ba).limit,
                ba.blocks@.len() == old(ba).blocks@.len(),
                self.all_blocks == old(self).all_blocks,
                blocks_wf(recyclable@, ba.total),
                blocks_wf(headroom@, ba.total),
                blocks_wf(unavailable@, ba.total),
                evac_headroom + headroom@.len() <= EVAC_HEADROOM,
                self.mark_histogram@.len() == NUM_LINES_PER_BLOCK as int + 1,
                forall|h: int|
                    0 <= h <= NUM_LINES_PER_BLOCK ==> self.mark_histogram@[h] == mark_bucket(
                        old(ba).blocks@,
                        old(self).all_blocks@.subrange(0, j as int),
                        h,
                    ),
                // The sweep moves no line counts: a block is empty now
                // exactly when it came in empty, and an occupied block is
                // untouched.
                forall|b: int|
                    0 <= b < old(ba).blocks@.len() ==> payload_free(#[trigger] ba.blocks@[b])
                        == payload_free(old(ba).blocks@[b]),
                forall|b: int|
                    0 <= b < old(ba).blocks@.len() && !payload_free(old(ba).blocks@[b])
                        ==> (#[trigger] ba.blocks@[b]) == old(ba).blocks@[b],
                forall|i: int|
                    0 <= i < headroom@.len() ==> payload_free(
                        old(ba).blocks@[(#[trigger] headroom@[i]) as int],
                    ),
                forall|b: usize|
                    #[trigger] ba.free@.contains(b) ==> old(ba).free@.contains(b) || (b < old(
                        ba,
                    ).total && payload_free(old(ba).blocks@[b as int])),
                forall|i: int|
                    0 <= i < recyclable@.len() ==> !payload_free(
                        old(ba).blocks@[(#[trigger] recyclable@[i]) as int],
                    ) && holes_upto(
                        old(ba).blocks@[recyclable@[i] as int].line_counter@,
                        NUM_LINES_PER_BLOCK as int,
                    ) >= 1,
                forall|i: int|
                    0 <= i < unavailable@.len() ==> !payload_free(
                        old(ba).blocks@[(#[trigger] unavailable@[i]) as int],
                    ) && holes_upto(
                        old(ba).blocks@[unavailable@[i] as int].line_counter@,
                        NUM_LINES_PER_BLOCK as int,
                    ) == 0,
                forall|k: int|
                    0 <= k < j as int && payload_free(
                        old(ba).blocks@[old(self).all_blocks@[k] as int],
                    ) ==> headroom@.contains(#[trigger] old(self).all_blocks@[k])
                        || ba.free@.contains(old(self).all_blocks@[k]),
                forall|k: int|
                    0 <= k < j as int && !payload_free(
                        old(ba).blocks@[old(self).all_blocks@[k] as int],
                    ) ==> recyclable@.contains(#[trigger] old(self).all_blocks@[k])
                        || unavailable@.contains(old(self).all_blocks@[k]),
            decreases self.all_blocks@.len() - j,
        {
            let b = self.all_blocks[j];
            let ghost free_before = ba.free@;
            let ghost headroom_before = headroom@;
            let ghost recyclable_before = recyclable@;
            let ghost unavailable_before = unavailable@;
            proof {
                let pre = old(self).all_blocks@.subrange(0, j as int);
                let now = old(self).all_blocks@.subrange(0, j as int + 1);
                assert(now.drop_last() =~= pre);
                assert(now.last() == old(self).all_blocks@[j as int]);
            }
            let empty = (&ba.blocks[b]).is_empty();
            if empty {
                if evac_headroom + headroom.len() < EVAC_HEADROOM {
                    ba.reset_block(b);
                    headroom.push(b);
                    proof {
                        lemma_push_keeps_members(headroom_before, b);
                    }
                } else {
                    ba.return_block(b);
                    proof {
                        lemma_push_keeps_members(free_before, b);
                    }
                }
            } else {
                let counts = (&ba.blocks[b]).count_holes_and_marked_lines();
                let prior = self.mark_histogram[counts.0];
                let summed = sat_add(prior, counts.1);
                self.mark_histogram.set(counts.0, summed);
                proof {
                    assert(ba.blocks@[b as int] == old(ba).blocks@[b as int]);
                }
                if counts.0 == 0 {
                    unavailable.push(b);
                    proof {
                        lemma_push_keeps_members(unavailable_before, b);
                    }
                } else {
                    recyclable.push(b);
                    proof {
                        lemma_push_keeps_members(recyclable_before, b);
                    }
                }
            }
            j = j + 1;
        }
        proof {
            assert(old(self).all_blocks@.subrange(0, old(self).all_blocks@.len() as int) =~= old(
                self,
            ).all_blocks@);
        }
        self.all_blocks = unavailable;
        (recyclable, headroom)
    }
}

} // verus!
