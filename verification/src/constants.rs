use vstd::prelude::*;

verus! {

/// Size of one heap block in bytes. A power of two; the first line of every
/// block is reserved for the block header.
pub const BLOCK_SIZE: usize = 32768;

/// Size of one line in bytes. Liveness and holes are tracked per line.
pub const LINE_SIZE: usize = 128;

/// Number of lines in a block, the header line included.
pub const NUM_LINES_PER_BLOCK: usize = BLOCK_SIZE / LINE_SIZE;

/// Upper bound on the number of blocks a heap may be created with, so that
/// every address computation stays well inside `usize`.
pub const MAX_BLOCKS: usize = 65536;

/// Number of blocks a heap gets when no size is asked for.
pub const DEFAULT_TOTAL_BLOCKS: usize = 256;

/// Number of empty blocks held back as destinations for evacuation.
pub const EVAC_HEADROOM: usize = 5;

/// Evacuation trigger, as the fraction `EVAC_TRIGGER_NUMER /
/// EVAC_TRIGGER_DENOM` of all blocks: when fewer evacuation blocks than that
/// are available, a collection considers evacuating fragmented blocks.
pub const EVAC_TRIGGER_NUMER: usize = 1;

/// Denominator of the evacuation trigger fraction.
pub const EVAC_TRIGGER_DENOM: usize = 4;

/// Cycle collection trigger, as the fraction `CYCLE_TRIGGER_NUMER /
/// CYCLE_TRIGGER_DENOM` of all blocks: when fewer free blocks than that
/// remain, a collection also runs the tracing pass.
pub const CYCLE_TRIGGER_NUMER: usize = 1;

/// Denominator of the cycle collection trigger fraction.
pub const CYCLE_TRIGGER_DENOM: usize = 8;

/// After this many distinct objects have been logged by the write barrier
/// since the last collection, the barrier asks for a collection. Zero
/// disables barrier-triggered collection.
pub const WRITE_BARRIER_COLLECT_THRESHOLD: usize = 1000;

/// Saturation bound of a per-line reference counter. A saturated line is
/// conservatively treated as live until the next trace rebuilds the counts.
pub const LINE_COUNTER_MAX: u8 = 255;

} // verus!
