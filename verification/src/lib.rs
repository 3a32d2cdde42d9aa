//! Core of a hybrid garbage-collected heap: the Immix mark-region collector
//! combined with deferred coalesced reference counting.
//!
//! The heap is a region of `total_blocks` fixed-size blocks, each split into
//! fixed-size lines. Objects are bump-allocated into holes (runs of unmarked
//! lines) inside blocks. Liveness is tracked two ways: a deferred, coalescing
//! write barrier feeds a reference-counting pass, and a periodic Immix trace
//! marks reachable objects and rebuilds per-line counts. Fragmented blocks can
//! be opportunistically evacuated into a reserve of empty blocks.
//!
//! Memory is modelled with plain values: an object reference is the byte
//! address of the object's start inside the region, and the readable object
//! headers live in an [`object_store::ObjectStore`] keyed by address. All
//! address arithmetic (block bases, line indices, spans) is carried out on
//! these model addresses exactly as a pointer-based implementation would.

pub mod constants;
pub mod gc_object;
pub mod object_store;
pub mod block_info;
pub mod block_allocator;
pub mod addressing;
pub mod allocator;
pub mod collector;
pub mod immix_space;
pub mod measures;
pub mod large_object_space;
pub mod rc_collector;
pub mod immix_collector;
pub mod spaces;
pub mod laws;
