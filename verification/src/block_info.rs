use vstd::prelude::*;
use crate::constants::{BLOCK_SIZE, LINE_SIZE, NUM_LINES_PER_BLOCK, LINE_COUNTER_MAX};

verus! {

/// Whether line `i` of a block is unmarked (no live object touches it).
pub open spec fn line_free(lines: Seq<u8>, i: int) -> bool {
    lines[i] == 0
}

/// Whether lines `k` and `k + 1` are both free: the smallest shape a hole can
/// have, one guard line plus one usable line.
pub open spec fn free_pair(lines: Seq<u8>, k: int) -> bool {
    line_free(lines, k) && line_free(lines, k + 1)
}

/// The first marked line at or after `j`, or the line count if none is.
pub open spec fn hole_end(lines: Seq<u8>, j: int) -> int
    decreases NUM_LINES_PER_BLOCK as int - j,
{
    if j < 0 || j >= NUM_LINES_PER_BLOCK as int {
        NUM_LINES_PER_BLOCK as int
    } else if !line_free(lines, j) {
        j
    } else {
        hole_end(lines, j + 1)
    }
}

/// Number of marked lines among the payload lines `[1, i)`.
pub open spec fn marked_lines_upto(lines: Seq<u8>, i: int) -> int
    decreases i,
{
    if i <= 1 {
        0
    } else {
        marked_lines_upto(lines, i - 1) + if !line_free(lines, i - 1) {
            1int
        } else {
            0int
        }
    }
}

/// Number of free lines among the payload lines `[1, i)`.
pub open spec fn free_lines_upto(lines: Seq<u8>, i: int) -> int
    decreases i,
{
    if i <= 1 {
        0
    } else {
        free_lines_upto(lines, i - 1) + if line_free(lines, i - 1) {
            1int
        } else {
            0int
        }
    }
}

/// Whether payload line `i` starts a hole: it is free and is either the first
/// payload line or preceded by a marked line.
pub open spec fn hole_start(lines: Seq<u8>, i: int) -> bool {
    line_free(lines, i) && (i == 1 || !line_free(lines, i - 1))
}

/// Number of holes (maximal free runs) among the payload lines `[1, i)`.
pub open spec fn holes_upto(lines: Seq<u8>, i: int) -> int
    decreases i,
{
    if i <= 1 {
        0
    } else {
        holes_upto(lines, i - 1) + if hole_start(lines, i - 1) {
            1int
        } else {
            0int
        }
    }
}

/// What a successful hole scan after `start_high` returns: `low` is the first
/// byte of the usable hole, one guard line beyond the first free pair of
/// lines found past `start_high`'s line, and `high` is the hole's last byte,
/// right before the next marked line (or the block's end).
pub open spec fn scan_found(lines: Seq<u8>, start_high: usize, low: usize, high: usize) -> bool {
    let start_line = start_high as int / LINE_SIZE as int;
    let guard = low as int / LINE_SIZE as int - 1;
    &&& low == (guard + 1) * LINE_SIZE
    &&& start_line < guard
    &&& free_pair(lines, guard)
    &&& forall|k: int| start_line < k < guard ==> !free_pair(lines, k)
    &&& high + 1 == hole_end(lines, guard + 1) * LINE_SIZE
    &&& forall|i: int| guard <= i < hole_end(lines, guard + 1) ==> line_free(lines, i)
    &&& LINE_SIZE <= low
    &&& low < high
    &&& high < BLOCK_SIZE
}

/// What a failed hole scan after `start_high` means: no two consecutive free
/// lines lie beyond `start_high`'s line, so no usable hole is left.
pub open spec fn scan_exhausted(lines: Seq<u8>, start_high: usize) -> bool {
    let start_line = start_high as int / LINE_SIZE as int;
    let last_line = NUM_LINES_PER_BLOCK as int - 1;
    forall|k: int| start_line < k < last_line ==> !free_pair(lines, k)
}

/// The hole opened by the free pair at `k` — one guard line, then the run up
/// to the next marked line — offers at most `size` usable bytes.
pub open spec fn pair_too_small(lines: Seq<u8>, k: int, size: int) -> bool {
    hole_end(lines, k + 1) * LINE_SIZE <= (k + 1) * LINE_SIZE + size
}

/// Every hole past `start_line` is too small for `size` bytes: what it means
/// for a whole-block scan to come up empty.
pub open spec fn only_small_holes(lines: Seq<u8>, start_line: int, size: int) -> bool {
    forall|k: int|
        start_line < k && k + 1 < NUM_LINES_PER_BLOCK ==> !free_pair(lines, k) || pair_too_small(
            lines,
            k,
            size,
        )
}

/// Where the hole run ends: at the block's end or at a marked line, with
/// everything before it free.
pub proof fn lemma_hole_end_props(lines: Seq<u8>, j: int)
    requires
        lines.len() == NUM_LINES_PER_BLOCK as int,
        0 <= j <= NUM_LINES_PER_BLOCK as int,
    ensures
        j <= hole_end(lines, j) <= NUM_LINES_PER_BLOCK as int,
        hole_end(lines, j) < NUM_LINES_PER_BLOCK as int ==> !line_free(lines, hole_end(lines, j)),
        forall|l: int| j <= l < hole_end(lines, j) ==> line_free(lines, l),
    decreases NUM_LINES_PER_BLOCK as int - j,
{
    if j < NUM_LINES_PER_BLOCK as int && line_free(lines, j) {
        lemma_hole_end_props(lines, j + 1);
    }
}

/// Whether every payload line of the block is free: no live object left.
pub open spec fn payload_free(b: BlockInfo) -> bool {
    forall|i: int| 1 <= i < NUM_LINES_PER_BLOCK as int ==> line_free(b.line_counter@, i)
}

/// `b` is `a` after a saturating increment of the counters `[first, last]`.
pub open spec fn lines_incremented(a: Seq<u8>, b: Seq<u8>, first: int, last: int) -> bool {
    &&& b.len() == a.len()
    &&& forall|i: int|
        0 <= i < a.len() ==> b[i] == (if first <= i <= last {
            if a[i] < LINE_COUNTER_MAX {
                (a[i] + 1) as u8
            } else {
                LINE_COUNTER_MAX
            }
        } else {
            a[i]
        })
}

/// `b` is `a` after a decrement of the counters `[first, last]` that leaves
/// zeroed and saturated counters alone.
pub open spec fn lines_decremented(a: Seq<u8>, b: Seq<u8>, first: int, last: int) -> bool {
    &&& b.len() == a.len()
    &&& forall|i: int|
        0 <= i < a.len() ==> b[i] == (if first <= i <= last {
            if 0 < a[i] < LINE_COUNTER_MAX {
                (a[i] - 1) as u8
            } else {
                a[i]
            }
        } else {
            a[i]
        })
}

/// Per-block bookkeeping: one u8 reference counter per line, and the flag
/// that marks the block as a candidate for evacuation.
///
/// Line 0 stands for the header line and never carries a count; allocation
/// payload occupies lines `[1, NUM_LINES_PER_BLOCK)`.
pub struct BlockInfo {
    pub line_counter: Vec<u8>,
    pub evacuation_candidate: bool,
}

impl BlockInfo {
    /// One counter per line.
    pub open spec fn wf(&self) -> bool {
        self.line_counter@.len() == NUM_LINES_PER_BLOCK as int
    }

    /// A fresh block: all counters zero, not an evacuation candidate.
    pub fn new() -> (b: BlockInfo)
        ensures
            b.wf(),
            forall|i: int| 0 <= i < NUM_LINES_PER_BLOCK as int ==> line_free(b.line_counter@, i),
            !b.evacuation_candidate,
    {
        let mut v: Vec<u8> = Vec::new();
        let mut i: usize = 0;
        while i < NUM_LINES_PER_BLOCK
            invariant
                i <= NUM_LINES_PER_BLOCK,
                v@.len() == i as int,
                forall|j: int| 0 <= j < i as int ==> v@[j] == 0u8,
            decreases NUM_LINES_PER_BLOCK - i,
        {
            v.push(0u8);
            i = i + 1;
        }
        BlockInfo { line_counter: v, evacuation_candidate: false }
    }

    /// Raise the counters of lines `[first, last]` by one, saturating at
    /// `LINE_COUNTER_MAX`: a saturated line is conservatively kept live until
    /// the next trace rebuilds the counts.
    pub fn increment_line_range(&mut self, first: usize, last: usize)
        requires
            old(self).wf(),
            1 <= first <= last < NUM_LINES_PER_BLOCK,
        ensures
            final(self).wf(),
            final(self).evacuation_candidate == old(self).evacuation_candidate,
            forall|i: int|
                0 <= i < NUM_LINES_PER_BLOCK as int ==> final(self).line_counter@[i] == (
                if first as int <= i <= last as int {
                    if old(self).line_counter@[i] < LINE_COUNTER_MAX {
                        (old(self).line_counter@[i] + 1) as u8
                    } else {
                        LINE_COUNTER_MAX
                    }
                } else {
                    old(self).line_counter@[i]
                }),
    {
        let mut i: usize = first;
        while i <= last
            invariant
                self.wf(),
                first <= i <= last + 1,
                last < NUM_LINES_PER_BLOCK,
                self.evacuation_candidate == old(self).evacuation_candidate,
                forall|j: int|
                    0 <= j < NUM_LINES_PER_BLOCK as int ==> self.line_counter@[j] == (
                    if first as int <= j < i as int {
                        if old(self).line_counter@[j] < LINE_COUNTER_MAX {
                            (old(self).line_counter@[j] + 1) as u8
                        } else {
                            LINE_COUNTER_MAX
                        }
                    } else {
                        old(self).line_counter@[j]
                    }),
            decreases last + 1 - i,
        {
            let c = self.line_counter[i];
            if c < LINE_COUNTER_MAX {
                self.line_counter.set(i, c + 1);
            }
            i = i + 1;
        }
    }

    /// Lower the counters of lines `[first, last]` by one. A zero counter
    /// stays zero, and a saturated counter stays saturated: once a line hit
    /// the bound its true count is unknown, so it is conservatively kept
    /// live until the next trace rebuilds the counts.
    pub fn decrement_line_range(&mut self, first: usize, last: usize)
        requires
            old(self).wf(),
            1 <= first <= last < NUM_LINES_PER_BLOCK,
        ensures
            final(self).wf(),
            final(self).evacuation_candidate == old(self).evacuation_candidate,
            forall|i: int|
                0 <= i < NUM_LINES_PER_BLOCK as int ==> final(self).line_counter@[i] == (
                if first as int <= i <= last as int {
                    if 0 < old(self).line_counter@[i] < LINE_COUNTER_MAX {
                        (old(self).line_counter@[i] - 1) as u8
                    } else {
                        old(self).line_counter@[i]
                    }
                } else {
                    old(self).line_counter@[i]
                }),
    {
        let mut i: usize = first;
        while i <= last
            invariant
                self.wf(),
                first <= i <= last + 1,
                last < NUM_LINES_PER_BLOCK,
                self.evacuation_candidate == old(self).evacuation_candidate,
                forall|j: int|
                    0 <= j < NUM_LINES_PER_BLOCK as int ==> self.line_counter@[j] == (
                    if first as int <= j < i as int {
                        if 0 < old(self).line_counter@[j] < LINE_COUNTER_MAX {
                            (old(self).line_counter@[j] - 1) as u8
                        } else {
                            old(self).line_counter@[j]
                        }
                    } else {
                        old(self).line_counter@[j]
                    }),
            decreases last + 1 - i,
        {
            let c = self.line_counter[i];
            if 0 < c && c < LINE_COUNTER_MAX {
                self.line_counter.set(i, c - 1);
            }
            i = i + 1;
        }
    }

    /// Zero every line counter, as the trace preparation does before the
    /// marking pass rebuilds the counts.
    pub fn clear_line_counts(&mut self)
        requires
            old(self).wf(),
        ensures
            final(self).wf(),
            final(self).evacuation_candidate == old(self).evacuation_candidate,
            forall|i: int|
                0 <= i < NUM_LINES_PER_BLOCK as int ==> line_free(final(self).line_counter@, i),
    {
        let mut i: usize = 0;
        while i < NUM_LINES_PER_BLOCK
            invariant
                self.wf(),
                i <= NUM_LINES_PER_BLOCK,
                self.evacuation_candidate == old(self).evacuation_candidate,
                forall|j: int| 0 <= j < i as int ==> self.line_counter@[j] == 0u8,
            decreases NUM_LINES_PER_BLOCK - i,
        {
            self.line_counter.set(i, 0u8);
            i = i + 1;
        }
    }

    /// Zero all bookkeeping: the block is returned to its uninitialized
    /// state.
    pub fn reset(&mut self)
        requires
            old(self).wf(),
        ensures
            final(self).wf(),
            forall|i: int|
                0 <= i < NUM_LINES_PER_BLOCK as int ==> line_free(final(self).line_counter@, i),
            !final(self).evacuation_candidate,
    {
        self.clear_line_counts();
        self.evacuation_candidate = false;
    }

    /// Make the block an evacuation candidate exactly when its hole count
    /// reaches the chosen threshold.
    pub fn set_evacuation_candidate(&mut self, hole_count: usize, threshold: usize)
        requires
            old(self).wf(),
        ensures
            final(self).wf(),
            final(self).line_counter == old(self).line_counter,
            final(self).evacuation_candidate == (hole_count >= threshold),
    {
        self.evacuation_candidate = hole_count >= threshold;
    }

    /// Whether no payload line carries a count: the block holds no live
    /// object.
    pub fn is_empty(&self) -> (r: bool)
        requires
            self.wf(),
        ensures
            r == (forall|i: int|
                1 <= i < NUM_LINES_PER_BLOCK as int ==> line_free(self.line_counter@, i)),
    {
        let mut i: usize = 1;
        while i < NUM_LINES_PER_BLOCK
            invariant
                self.wf(),
                1 <= i <= NUM_LINES_PER_BLOCK,
                forall|j: int| 1 <= j < i as int ==> line_free(self.line_counter@, j),
            decreases NUM_LINES_PER_BLOCK - i,
        {
            if self.line_counter[i] != 0 {
                assert(!line_free(self.line_counter@, i as int));
                return false;
            }
            i = i + 1;
        }
        true
    }

    /// Holes and marked lines of the block, derived from the current line
    /// counters: the sweep uses them to sort blocks and to feed the mark
    /// histogram.
    pub fn count_holes_and_marked_lines(&self) -> (r: (usize, usize))
        requires
            self.wf(),
        ensures
            r.0 == holes_upto(self.line_counter@, NUM_LINES_PER_BLOCK as int),
            r.1 == marked_lines_upto(self.line_counter@, NUM_LINES_PER_BLOCK as int),
            r.0 <= NUM_LINES_PER_BLOCK,
            r.1 <= NUM_LINES_PER_BLOCK,
    {
        let mut holes: usize = 0;
        let mut marked: usize = 0;
        let mut i: usize = 1;
        while i < NUM_LINES_PER_BLOCK
            invariant
                self.wf(),
                1 <= i <= NUM_LINES_PER_BLOCK,
                holes == holes_upto(self.line_counter@, i as int),
                marked == marked_lines_upto(self.line_counter@, i as int),
                holes < i,
                marked < i,
            decreases NUM_LINES_PER_BLOCK - i,
        {
            if self.line_counter[i] == 0 {
                if i == 1 || self.line_counter[i - 1] != 0 {
                    holes = holes + 1;
                }
            } else {
                marked = marked + 1;
            }
            i = i + 1;
        }
        (holes, marked)
    }

    /// Holes and free lines of the block, the complementary scan used to
    /// build the available-lines histogram.
    pub fn count_holes_and_available_lines(&self) -> (r: (usize, usize))
        requires
            self.wf(),
        ensures
            r.0 == holes_upto(self.line_counter@, NUM_LINES_PER_BLOCK as int),
            r.1 == free_lines_upto(self.line_counter@, NUM_LINES_PER_BLOCK as int),
            r.0 <= NUM_LINES_PER_BLOCK,
            r.1 <= NUM_LINES_PER_BLOCK,
    {
        let mut holes: usize = 0;
        let mut free: usize = 0;
        let mut i: usize = 1;
        while i < NUM_LINES_PER_BLOCK
            invariant
                self.wf(),
                1 <= i <= NUM_LINES_PER_BLOCK,
                holes == holes_upto(self.line_counter@, i as int),
                free == free_lines_upto(self.line_counter@, i as int),
                holes < i,
                free < i,
            decreases NUM_LINES_PER_BLOCK - i,
        {
            if self.line_counter[i] == 0 {
                free = free + 1;
                if i == 1 || self.line_counter[i - 1] != 0 {
                    holes = holes + 1;
                }
            }
            i = i + 1;
        }
        (holes, free)
    }

    /// Scan forward for the next hole after the line containing `start_high`.
    ///
    /// A hole needs at least two consecutive free lines: an object from the
    /// preceding allocation may overflow by up to `LINE_SIZE - 1` bytes into
    /// the first free line, so that line is conservatively reserved as a
    /// guard and the usable hole starts one line later. The result is the
    /// usable hole `[low, high]` in block-relative byte offsets, maximal (it
    /// ends right before the next marked line or at the block's end), and the
    /// scan advances monotonically: `low` lies strictly beyond `start_high`.
    pub fn scan_block(&self, start_high: usize) -> (r: Option<(usize, usize)>)
        requires
            self.wf(),
            start_high < BLOCK_SIZE,
        ensures
            match r {
                Some(hole) => scan_found(self.line_counter@, start_high, hole.0, hole.1),
                None => scan_exhausted(self.line_counter@, start_high),
            },
    {
        let start_line = start_high / LINE_SIZE;
        assert(start_line < NUM_LINES_PER_BLOCK) by {
            assert((start_high as int) / (LINE_SIZE as int) < NUM_LINES_PER_BLOCK as int)
                by (nonlinear_arith)
                requires
                    start_high < BLOCK_SIZE,
                    BLOCK_SIZE == NUM_LINES_PER_BLOCK * LINE_SIZE,
                    LINE_SIZE > 0,
            ;
        };
        let mut k: usize = start_line + 1;
        loop
            invariant
                self.wf(),
                start_line == start_high as int / LINE_SIZE as int,
                start_line < k,
                k <= NUM_LINES_PER_BLOCK,
                forall|m: int|
                    start_line < m < k as int ==> !free_pair(self.line_counter@, m),
            decreases NUM_LINES_PER_BLOCK - k,
        {
            if k + 1 >= NUM_LINES_PER_BLOCK {
                return None;
            }
            if self.line_counter[k] == 0 && self.line_counter[k + 1] == 0 {
                // Found the guard line `k`; the usable hole starts at `k + 1`
                // and runs to the line before the next marked line.
                let mut j: usize = k + 2;
                while j < NUM_LINES_PER_BLOCK && self.line_counter[j] == 0
                    invariant
                        self.wf(),
                        k + 2 <= j <= NUM_LINES_PER_BLOCK,
                        forall|i: int| k as int + 2 <= i < j as int ==> line_free(
                            self.line_counter@,
                            i,
                        ),
                    decreases NUM_LINES_PER_BLOCK - j,
                {
                    j = j + 1;
                }
                assert(hole_end(self.line_counter@, j as int) == j as int || j
                    == NUM_LINES_PER_BLOCK);
                proof {
                    lemma_hole_end_run(self.line_counter@, k as int + 1, j as int);
                }
                let low = (k + 1) * LINE_SIZE;
                let high = j * LINE_SIZE - 1;
                assert(low / LINE_SIZE == k + 1 && low % LINE_SIZE == 0) by (nonlinear_arith)
                    requires
                        low == (k + 1) * LINE_SIZE,
                        LINE_SIZE > 0,
                        k + 1 <= NUM_LINES_PER_BLOCK,
                ;
                assert(low < j * LINE_SIZE && j * LINE_SIZE <= BLOCK_SIZE) by (nonlinear_arith)
                    requires
                        low == (k + 1) * LINE_SIZE,
                        k + 2 <= j <= NUM_LINES_PER_BLOCK,
                        LINE_SIZE > 0,
                        BLOCK_SIZE == NUM_LINES_PER_BLOCK * LINE_SIZE,
                ;
                return Some((low, high));
            }
            k = k + 1;
        }
    }
}

/// If lines `[from, j)` are free and `j` is marked or the end of the block,
/// then `j` is exactly where the hole beginning at `from` ends.
pub proof fn lemma_hole_end_run_export(lines: Seq<u8>, from: int, j: int)
    requires
        lines.len() == NUM_LINES_PER_BLOCK as int,
        0 <= from <= j <= NUM_LINES_PER_BLOCK as int,
        forall|i: int| from <= i < j ==> line_free(lines, i),
        j < NUM_LINES_PER_BLOCK as int ==> !line_free(lines, j),
    ensures
        hole_end(lines, from) == j,
{
    lemma_hole_end_run(lines, from, j);
}

/// If lines `[from, j)` are free and `j` is marked or the end of the block,
/// then `j` is exactly where the hole beginning at `from` ends.
proof fn lemma_hole_end_run(lines: Seq<u8>, from: int, j: int)
    requires
        lines.len() == NUM_LINES_PER_BLOCK as int,
        0 <= from <= j <= NUM_LINES_PER_BLOCK as int,
        forall|i: int| from <= i < j ==> line_free(lines, i),
        j < NUM_LINES_PER_BLOCK as int ==> !line_free(lines, j),
    ensures
        hole_end(lines, from) == j,
    decreases j - from,
{
    if from < j {
        lemma_hole_end_run(lines, from + 1, j);
    }
}

} // verus!
