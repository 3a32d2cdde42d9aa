use vstd::prelude::*;
use std::collections::HashSet;
use crate::constants::{BLOCK_SIZE, LINE_SIZE, EVAC_HEADROOM, MAX_BLOCKS, DEFAULT_TOTAL_BLOCKS,
    CYCLE_TRIGGER_NUMER, CYCLE_TRIGGER_DENOM, EVAC_TRIGGER_NUMER, EVAC_TRIGGER_DENOM};
use crate::gc_object::{GcObject, fresh_object, forwarded_to, evac_copy_of};
use crate::object_store::{ObjectStore, store_closed};
use crate::block_allocator::BlockAllocator;
use crate::block_info::{lines_incremented, lines_decremented};
use crate::allocator::{NormalAllocator, OverflowAllocator, EvacAllocator, evac_capacity};
use crate::collector::Collector;
use crate::large_object_space::LargeObjectSpace;
use crate::rc_collector::{RCCollector, seq_in_dom, dom_grows};
use crate::immix_collector::ImmixCollector;
use crate::addressing::{block_of, offset_of, line_of, addr_span_ok, lemma_block_of_bound,
    lemma_span_lines};

verus! {

broadcast use vstd::std_specs::hash::group_hash_axioms;

/// Every header the store holds for an address inside the region describes a
/// well-placed object there: its span stays within its block's payload.
pub open spec fn store_ok(m: Map<usize, GcObject>, limit: usize) -> bool {
    forall|a: usize| #[trigger]
        m.contains_key(a) ==> (a < limit ==> addr_span_ok(a, m[a].size, limit))
}

/// An overwrite that keeps an object's size keeps every span well placed.
pub proof fn lemma_store_ok_same_size(m: Map<usize, GcObject>, k: usize, v: GcObject, limit: usize)
    requires
        store_ok(m, limit),
        m.contains_key(k),
        v.size == m[k].size,
    ensures
        store_ok(m.insert(k, v), limit),
{
    let m2 = m.insert(k, v);
    assert forall|a: usize| #[trigger] m2.contains_key(a) && a < limit implies addr_span_ok(
        a,
        m2[a].size,
        limit,
    ) by {
        assert(m.contains_key(a));
    };
}

/// The Immix space: the backing region, the three allocators, the
/// collection bookkeeping, the current polarity of the live mark bit, and
/// the object map (the set of addresses that are live objects of this
/// space) together with the objects allocated since the last collection.
pub struct ImmixSpace {
    pub block_allocator: BlockAllocator,
    pub allocator: NormalAllocator,
    pub overflow_allocator: OverflowAllocator,
    pub evac_allocator: EvacAllocator,
    pub collector: Collector,
    pub current_live_mark: bool,
    pub object_map: HashSet<usize>,
    pub new_objects: HashSet<usize>,
}

impl ImmixSpace {
    pub open spec fn total(&self) -> usize {
        self.block_allocator.total
    }

    pub open spec fn limit(&self) -> usize {
        self.block_allocator.limit
    }

    pub open spec fn wf(&self) -> bool {
        &&& self.block_allocator.wf()
        &&& self.allocator.wf(self.block_allocator.total)
        &&& self.overflow_allocator.wf(self.block_allocator.total)
        &&& self.evac_allocator.wf(self.block_allocator.total)
        &&& self.collector.wf(self.block_allocator.total)
        &&& self.evac_allocator.evac_headroom@.len() <= EVAC_HEADROOM
    }

    /// A space over a region of `total` blocks.
    pub fn with_total_blocks(total: usize) -> (s: ImmixSpace)
        requires
            total <= MAX_BLOCKS,
        ensures
            s.wf(),
            s.total() == total,
            !s.current_live_mark,
            s.object_map@ == Set::<usize>::empty(),
            s.new_objects@ == Set::<usize>::empty(),
            s.evac_allocator.evac_headroom@.len() == 0,
            s.allocator.current_block is None,
            s.allocator.recyclable_blocks@ == Seq::<usize>::empty(),
            s.allocator.unavailable_blocks@ == Seq::<usize>::empty(),
            s.overflow_allocator.current_block is None,
            s.overflow_allocator.unavailable_blocks@ == Seq::<usize>::empty(),
            s.evac_allocator.current_block is None,
            s.evac_allocator.used_blocks@ == Seq::<usize>::empty(),
            s.collector.all_blocks@ == Seq::<usize>::empty(),
            s.block_allocator.free@.len() == total as int,
    {
        ImmixSpace {
            block_allocator: BlockAllocator::new(total),
            allocator: NormalAllocator::new(),
            overflow_allocator: OverflowAllocator::new(),
            evac_allocator: EvacAllocator::new(),
            collector: Collector::new(),
            current_live_mark: false,
            object_map: HashSet::new(),
            new_objects: HashSet::new(),
        }
    }

    /// A space over a region of the default size.
    pub fn new() -> (s: ImmixSpace)
        ensures
            s.wf(),
            s.total() == DEFAULT_TOTAL_BLOCKS,
            !s.current_live_mark,
            s.object_map@ == Set::<usize>::empty(),
            s.new_objects@ == Set::<usize>::empty(),
            s.allocator.current_block is None,
            s.allocator.recyclable_blocks@ == Seq::<usize>::empty(),
            s.allocator.unavailable_blocks@ == Seq::<usize>::empty(),
            s.overflow_allocator.current_block is None,
            s.overflow_allocator.unavailable_blocks@ == Seq::<usize>::empty(),
            s.evac_allocator.current_block is None,
            s.evac_allocator.used_blocks@ == Seq::<usize>::empty(),
            s.evac_allocator.evac_headroom@.len() == 0,
            s.collector.all_blocks@ == Seq::<usize>::empty(),
            s.block_allocator.free@.len() == DEFAULT_TOTAL_BLOCKS as int,
    {
        ImmixSpace::with_total_blocks(DEFAULT_TOTAL_BLOCKS)
    }

    /// Whether `addr` lies inside this space's region.
    pub fn is_in_space(&self, addr: usize) -> (r: bool)
        ensures
            r == (addr < self.limit()),
    {
        self.block_allocator.is_in_space(addr)
    }

    /// Whether `addr` is a live object of this space.
    pub fn is_gc_object(&self, addr: usize) -> (r: bool)
        ensures
            r == (addr < self.limit() && self.object_map@.contains(addr)),
    {
        if self.is_in_space(addr) {
            self.object_map.contains(&addr)
        } else {
            false
        }
    }

    /// Record `addr` as a live object of this space.
    pub fn set_gc_object(&mut self, addr: usize)
        ensures
            final(self).object_map@ == old(self).object_map@.insert(addr),
            same_but_object_map(*old(self), *final(self)),
            final(self).new_objects == old(self).new_objects,
    {
        self.object_map.insert(addr);
    }

    /// Strike `addr` from the live objects of this space.
    pub fn unset_gc_object(&mut self, addr: usize)
        ensures
            final(self).object_map@ == old(self).object_map@.remove(addr),
            same_but_object_map(*old(self), *final(self)),
            final(self).new_objects == old(self).new_objects,
    {
        self.object_map.remove(&addr);
    }

    /// Record `addr` as allocated since the last collection.
    pub fn set_new_object(&mut self, addr: usize)
        ensures
            final(self).new_objects@ == old(self).new_objects@.insert(addr),
            same_but_object_map(*old(self), *final(self)),
            final(self).object_map == old(self).object_map,
    {
        self.new_objects.insert(addr);
    }

    /// The current polarity of the live mark bit.
    pub fn current_live_mark(&self) -> (r: bool)
        ensures
            r == self.current_live_mark,
    {
        self.current_live_mark
    }

    /// Raise the line counters under the object at `addr`.
    pub fn increment_lines(&mut self, store: &ObjectStore, addr: usize)
        requires
            old(self).wf(),
            store@.contains_key(addr),
            addr < old(self).limit(),
            addr_span_ok(addr, store@[addr].size, old(self).limit()),
        ensures
            final(self).wf(),
            same_but_one_block(*old(self), *final(self), block_of(addr)),
            lines_incremented(
                old(self).block_allocator.blocks@[block_of(addr)].line_counter@,
                final(self).block_allocator.blocks@[block_of(addr)].line_counter@,
                line_of(offset_of(addr)),
                line_of(offset_of(addr) + store@[addr].size - 1),
            ),
    {
        proof {
            lemma_block_of_bound(addr, self.block_allocator.total);
            lemma_span_lines(offset_of(addr), store@[addr].size as int);
        }
        let b = addr / BLOCK_SIZE;
        let off = addr % BLOCK_SIZE;
        let size = store.size_of(addr);
        let first = off / LINE_SIZE;
        let last = (off + size - 1) / LINE_SIZE;
        let blk = &mut self.block_allocator.blocks[b];
        blk.increment_line_range(first, last);
    }

    /// Lower the line counters under the object at `addr`.
    pub fn decrement_lines(&mut self, store: &ObjectStore, addr: usize)
        requires
            old(self).wf(),
            store@.contains_key(addr),
            addr < old(self).limit(),
            addr_span_ok(addr, store@[addr].size, old(self).limit()),
        ensures
            final(self).wf(),
            same_but_one_block(*old(self), *final(self), block_of(addr)),
            lines_decremented(
                old(self).block_allocator.blocks@[block_of(addr)].line_counter@,
                final(self).block_allocator.blocks@[block_of(addr)].line_counter@,
                line_of(offset_of(addr)),
                line_of(offset_of(addr) + store@[addr].size - 1),
            ),
    {
        proof {
            lemma_block_of_bound(addr, self.block_allocator.total);
            lemma_span_lines(offset_of(addr), store@[addr].size as int);
        }
        let b = addr / BLOCK_SIZE;
        let off = addr % BLOCK_SIZE;
        let size = store.size_of(addr);
        let first = off / LINE_SIZE;
        let last = (off + size - 1) / LINE_SIZE;
        let blk = &mut self.block_allocator.blocks[b];
        blk.decrement_line_range(first, last);
    }

    /// Allocate an object of `size` bytes: sizes under a line go to the
    /// normal allocator, the rest to the overflow allocator. On success the
    /// object's header is written into the store, the object becomes a live
    /// object of the space, and it is remembered as new.
    pub fn allocate(&mut self, store: &mut ObjectStore, size: usize) -> (r: Option<usize>)
        requires
            old(self).wf(),
            store_ok(old(store)@, old(self).limit()),
            store_closed(old(store)@),
            1 <= size <= BLOCK_SIZE - LINE_SIZE,
        ensures
            final(self).wf(),
            final(self).total() == old(self).total(),
            final(self).limit() == old(self).limit(),
            final(self).current_live_mark == old(self).current_live_mark,
            final(self).collector == old(self).collector,
            final(self).evac_allocator == old(self).evac_allocator,
            store_ok(final(store)@, final(self).limit()),
            store_closed(final(store)@),
            old(self).block_allocator.free@.len() > 0 && size <= BLOCK_SIZE - LINE_SIZE - 1 ==> r
                is Some,
            // Placement is the allocators' (spec 4.3): a small object bumps
            // into the normal allocator's current hole, or starts the
            // payload of the next free block when nothing is held ...
            size < LINE_SIZE ==> (old(self).allocator.current_block matches Some(t) ==> (t.high
                - t.low >= size ==> r == Some((t.block * BLOCK_SIZE + t.low) as usize))),
            size < LINE_SIZE && old(self).allocator.current_block is None && old(
                self,
            ).allocator.recyclable_blocks@.len() == 0 && old(self).block_allocator.free@.len() > 0
                ==> r == Some(
                (old(self).block_allocator.free@.last() * BLOCK_SIZE + LINE_SIZE) as usize,
            ) && final(self).block_allocator.free@ == old(self).block_allocator.free@.drop_last(),
            // ... and a medium object bumps into the overflow allocator's
            // current block or starts a fresh one, never chasing holes.
            size >= LINE_SIZE ==> (old(self).overflow_allocator.current_block matches Some(t) ==> (
            t.high - t.low >= size ==> r == Some((t.block * BLOCK_SIZE + t.low) as usize))),
            size >= LINE_SIZE && old(self).overflow_allocator.current_block is None && old(
                self,
            ).block_allocator.free@.len() > 0 && size <= BLOCK_SIZE - LINE_SIZE - 1 ==> r == Some(
                (old(self).block_allocator.free@.last() * BLOCK_SIZE + LINE_SIZE) as usize,
            ) && final(self).block_allocator.free@ == old(self).block_allocator.free@.drop_last(),
            match r {
                Some(addr) => {
                    &&& addr < final(self).limit()
                    &&& addr_span_ok(addr, size, final(self).limit())
                    &&& final(store)@.contains_key(addr)
                    &&& fresh_object(final(store)@[addr], size, old(self).current_live_mark)
                    &&& final(store)@ =~= old(store)@.insert(addr, final(store)@[addr])
                    &&& final(self).object_map@ == old(self).object_map@.insert(addr)
                    &&& final(self).new_objects@ == old(self).new_objects@.insert(addr)
                },
                None => {
                    &&& final(store)@ == old(store)@
                    &&& final(self).object_map == old(self).object_map
                    &&& final(self).new_objects == old(self).new_objects
                },
            },
    {
        let r = if size < LINE_SIZE {
            self.allocator.allocate(&mut self.block_allocator, size)
        } else {
            self.overflow_allocator.allocate(&mut self.block_allocator, size)
        };
        match r {
            Some(addr) => {
                let header = GcObject::new(size, self.current_live_mark);
                store.insert_object(addr, header);
                self.object_map.insert(addr);
                self.new_objects.insert(addr);
                Some(addr)
            },
            None => None,
        }
    }

    /// Try to move the object at `addr` out of its fragmented block. The
    /// move fails when the object is pinned, its block is not an evacuation
    /// candidate, or the headroom is spent; the object then stays put. On
    /// success the body is copied to a fresh address in a reserve block, the
    /// old body gets the forwarding address written into it, and the old
    /// address stops being a live object.
    pub fn maybe_evacuate(&mut self, store: &mut ObjectStore, addr: usize) -> (r: Option<usize>)
        requires
            old(self).wf(),
            old(store)@.contains_key(addr),
            store_ok(old(store)@, old(self).limit()),
            store_closed(old(store)@),
        ensures
            final(self).wf(),
            final(self).block_allocator == old(self).block_allocator,
            final(self).allocator == old(self).allocator,
            final(self).overflow_allocator == old(self).overflow_allocator,
            final(self).collector == old(self).collector,
            final(self).current_live_mark == old(self).current_live_mark,
            final(self).new_objects == old(self).new_objects,
            final(self).evac_allocator.evac_headroom@.len() <= old(
                self,
            ).evac_allocator.evac_headroom@.len(),
            evac_capacity(final(self).evac_allocator) <= evac_capacity(old(self).evac_allocator),
            store_ok(final(store)@, final(self).limit()),
            store_closed(final(store)@),
            addr < old(self).limit() && !old(store)@[addr].pinned && old(
                self,
            ).block_allocator.blocks@[block_of(addr)].evacuation_candidate && (old(
                self,
            ).evac_allocator.evac_headroom@.len() > 0 || (
            match old(self).evac_allocator.current_block {
                Some(t) => t.high - t.low >= old(store)@[addr].size,
                None => false,
            })) && old(store)@[addr].size <= BLOCK_SIZE - LINE_SIZE - 1 ==> r is Some,
            // The copy never lands on the object itself as long as the
            // object's block is none of the reserves.
            r matches Some(new) ==> (new == addr ==> old(
                self,
            ).evac_allocator.evac_headroom@.contains(block_of(addr) as usize) || (
            match old(self).evac_allocator.current_block {
                Some(t) => t.block == block_of(addr),
                None => false,
            })),
            match r {
                None => final(store)@ == old(store)@ && final(self).object_map == old(
                    self,
                ).object_map,
                Some(new) => {
                    &&& evac_capacity(final(self).evac_allocator) <= evac_capacity(
                        old(self).evac_allocator,
                    ) - 1
                    &&& ((match old(self).evac_allocator.current_block {
                        Some(t) => block_of(new) == t.block,
                        None => false,
                    }) || old(self).evac_allocator.evac_headroom@.contains(block_of(new) as usize))
                    &&& addr < old(self).limit()
                    &&& !old(store)@[addr].pinned
                    &&& old(self).block_allocator.blocks@[block_of(addr)].evacuation_candidate
                    &&& new < old(self).limit()
                    &&& addr_span_ok(new, old(store)@[addr].size, old(self).limit())
                    &&& final(store)@.contains_key(new)
                    &&& final(store)@.contains_key(addr)
                    &&& forwarded_to(old(store)@[addr], final(store)@[addr], new)
                    &&& (new != addr ==> evac_copy_of(old(store)@[addr], final(store)@[new]))
                    &&& final(store)@ =~= old(store)@.insert(new, final(store)@[new]).insert(
                        addr,
                        final(store)@[addr],
                    )
                    &&& final(self).object_map@ =~= old(self).object_map@.remove(addr)
                },
            },
    {
        if !self.block_allocator.is_in_space(addr) {
            return None;
        }
        proof {
            lemma_block_of_bound(addr, self.block_allocator.total);
        }
        let b = addr / BLOCK_SIZE;
        let pinned = store.is_pinned(addr);
        let candidate = (&self.block_allocator.blocks[b]).evacuation_candidate;
        if pinned || !candidate {
            return None;
        }
        let size = store.size_of(addr);
        match self.evac_allocator.allocate(&self.block_allocator, size) {
            None => None,
            Some(new) => {
                let copy = store.copy_object(addr);
                store.insert_object(new, copy);
                store.set_forwarded(addr, new);
                self.object_map.remove(&addr);
                proof {
                    assert(store_ok(store@, self.limit())) by {
                        assert(forall|a: usize| #[trigger]
                            store@.contains_key(a) && a != new && a != addr ==> old(
                                store,
                            )@.contains_key(a) && store@[a] == old(store)@[a]);
                    };
                    assert(store_closed(store@)) by {
                        assert(forall|a: usize| #[trigger]
                            store@.contains_key(a) && a != new && a != addr ==> old(
                                store,
                            )@.contains_key(a) && store@[a] == old(store)@[a]);
                        assert(forall|a: usize|
                            old(store)@.contains_key(a) ==> #[trigger] store@.contains_key(a));
                    };
                }
                Some(new)
            },
        }
    }
}

impl ImmixSpace {
    /// One full collection of this space.
    ///
    /// The allocators' blocks are drained into the sweep work list; the
    /// collector decides whether to evacuate and whether to trace, and marks
    /// candidate blocks; the reference-counting pass runs first, then — when
    /// tracing was decided — the line counts are cleared, the object map
    /// emptied, the graph retraced from the roots with the opposite mark
    /// polarity, and the mark sense committed. Finally the work list is
    /// swept: empty blocks refill the evacuation headroom up to its bound
    /// and then the free pool, and the rest are handed back as recyclable
    /// or kept unavailable.
    ///
    /// Afterwards the headroom never exceeds its bound, the
    /// reference-counting buffers are empty with this collection's roots
    /// kept as old roots, and if a trace was asked for, every root carries
    /// the new live mark, unpinned.
    pub fn collect(
        &mut self,
        store: &mut ObjectStore,
        los: &mut LargeObjectSpace,
        rc_collector: &mut RCCollector,
        evacuation: bool,
        cycle_collect: bool,
        roots: &Vec<usize>,
    )
        requires
            old(self).wf(),
            store_ok(old(store)@, old(self).limit()),
            store_closed(old(store)@),
            old(rc_collector).buffers_in(old(store)@),
            seq_in_dom(roots@, old(store)@),
            seq_in_dom(old(los).new_objects@, old(store)@),
        ensures
            final(self).wf(),
            final(self).total() == old(self).total(),
            final(self).limit() == old(self).limit(),
            store_ok(final(store)@, final(self).limit()),
            store_closed(final(store)@),
            dom_grows(old(store)@, final(store)@),
            final(self).evac_allocator.evac_headroom@.len() <= EVAC_HEADROOM,
            final(rc_collector).buffers_in(final(store)@),
            final(rc_collector).modified_buffer@ == Seq::<usize>::empty(),
            final(rc_collector).decrement_buffer@ == Seq::<usize>::empty(),
            final(rc_collector).old_root_buffer@ == roots@,
            final(rc_collector).write_barrier_counter == 0,
            final(los).new_objects@ == Seq::<usize>::empty(),
            seq_in_dom(roots@, final(store)@),
            cycle_collect ==> {
                &&& final(self).current_live_mark == !old(self).current_live_mark
                &&& forall|j: int|
                    0 <= j < roots@.len() ==> final(store)@[#[trigger] roots@[j]].mark
                        == final(self).current_live_mark && !final(store)@[roots@[j]].pinned
            },
            // The mark flips exactly when a trace ran: when none was asked
            // for and the free pool stays above its trigger, it does not.
            !cycle_collect && old(self).block_allocator.free@.len() * CYCLE_TRIGGER_DENOM
                >= old(self).total() * CYCLE_TRIGGER_NUMER ==> final(self).current_live_mark
                == old(self).current_live_mark,
            // Invariant I4: when no evacuation was decided, no forwarding
            // word is written anywhere in this collection.
            !evacuation && (old(self).block_allocator.free@.len() + old(
                self,
            ).evac_allocator.evac_headroom@.len()) * EVAC_TRIGGER_DENOM >= old(self).total()
                * EVAC_TRIGGER_NUMER ==> forall|a: usize|
                #[trigger] old(store)@.contains_key(a) ==> final(store)@.contains_key(a)
                    && final(store)@[a].forwarded == old(store)@[a].forwarded,
            // Invariant I5: with neither a trace nor an evacuation decided,
            // a pinned live object stays a live object — and reclamation is
            // owed: an unpinned object whose count this collection brought
            // to zero is live no longer.
            !cycle_collect && !evacuation && old(self).block_allocator.free@.len()
                * CYCLE_TRIGGER_DENOM >= old(self).total() * CYCLE_TRIGGER_NUMER && (old(
                self,
            ).block_allocator.free@.len() + old(self).evac_allocator.evac_headroom@.len())
                * EVAC_TRIGGER_DENOM >= old(self).total() * EVAC_TRIGGER_NUMER ==> forall|a: usize|
                old(self).object_map@.contains(a) && old(store)@.contains_key(a) && old(store)@[
                    a
                ].pinned ==> #[trigger] final(self).object_map@.contains(a),
            !cycle_collect && !evacuation && old(self).block_allocator.free@.len()
                * CYCLE_TRIGGER_DENOM >= old(self).total() * CYCLE_TRIGGER_NUMER && (old(
                self,
            ).block_allocator.free@.len() + old(self).evac_allocator.evac_headroom@.len())
                * EVAC_TRIGGER_DENOM >= old(self).total() * EVAC_TRIGGER_NUMER ==> forall|a: usize|
                #[trigger] old(store)@.contains_key(a) && old(store)@[a].rc > 0 && final(store)@[
                    a
                ].rc == 0 && !old(store)@[a].pinned && a < old(self).limit()
                    ==> !final(self).object_map@.contains(a),
            // A quiet collection keeps what the mutator holds: with nothing
            // pending and no tracing pass, every root keeps a positive count.
            old(rc_collector).old_root_buffer@.len() == 0 && old(
                rc_collector,
            ).decrement_buffer@.len() == 0 && old(rc_collector).modified_buffer@.len() == 0 && old(
                los,
            ).new_objects@.len() == 0 && !cycle_collect && old(self).block_allocator.free@.len()
                * CYCLE_TRIGGER_DENOM >= old(self).total() * CYCLE_TRIGGER_NUMER ==> forall|j: int|
                0 <= j < roots@.len() ==> final(store)@[#[trigger] roots@[j]].rc >= 1,
    {
        let total = self.block_allocator.total_blocks();
        self.new_objects = HashSet::new();
        let evac_headroom_count = self.evac_allocator.evac_headroom_len();
        let drained_normal = self.allocator.get_all_blocks();
        self.collector.extend_all_blocks(drained_normal, total);
        let drained_overflow = self.overflow_allocator.get_all_blocks();
        self.collector.extend_all_blocks(drained_overflow, total);
        let drained_evac = self.evac_allocator.get_all_blocks();
        self.collector.extend_all_blocks(drained_evac, total);
        let decisions = self.collector.prepare_collection(
            &mut self.block_allocator,
            evacuation,
            cycle_collect,
            evac_headroom_count,
        );
        let perform_cc = decisions.0;
        let perform_evac = decisions.1;
        rc_collector.collect(store, self, los, perform_evac, roots);
        if perform_cc {
            let next_live_mark = !self.current_live_mark;
            self.collector.prepare_immix_collection(&mut self.block_allocator);
            self.object_map = HashSet::new();
            ImmixCollector::collect(self, store, perform_evac, next_live_mark, roots);
            self.current_live_mark = next_live_mark;
        }
        let headroom_now = self.evac_allocator.evac_headroom_len();
        let swept = self.collector.complete_collection(&mut self.block_allocator, headroom_now);
        let recyclable_blocks = swept.0;
        let evac_headroom_new = swept.1;
        self.allocator.set_recyclable_blocks(recyclable_blocks, total);
        self.evac_allocator.extend_evac_headroom(evac_headroom_new, total);
    }
}

/// Nothing of the space changed but (possibly) its object map.
pub open spec fn same_but_object_map(a: ImmixSpace, b: ImmixSpace) -> bool {
    &&& b.block_allocator == a.block_allocator
    &&& b.allocator == a.allocator
    &&& b.overflow_allocator == a.overflow_allocator
    &&& b.evac_allocator == a.evac_allocator
    &&& b.collector == a.collector
    &&& b.current_live_mark == a.current_live_mark
}

/// Nothing of the space changed but the line counters of block `bi`.
pub open spec fn same_but_one_block(a: ImmixSpace, b: ImmixSpace, bi: int) -> bool {
    &&& b.block_allocator.total == a.block_allocator.total
    &&& b.block_allocator.limit == a.block_allocator.limit
    &&& b.block_allocator.free == a.block_allocator.free
    &&& b.block_allocator.blocks@.len() == a.block_allocator.blocks@.len()
    &&& forall|i: int|
        0 <= i < a.block_allocator.blocks@.len() && i != bi ==> b.block_allocator.blocks@[i]
            == a.block_allocator.blocks@[i]
    &&& b.block_allocator.blocks@[bi].evacuation_candidate
        == a.block_allocator.blocks@[bi].evacuation_candidate
    &&& b.allocator == a.allocator
    &&& b.overflow_allocator == a.overflow_allocator
    &&& b.evac_allocator == a.evac_allocator
    &&& b.collector == a.collector
    &&& b.current_live_mark == a.current_live_mark
    &&& b.object_map == a.object_map
    &&& b.new_objects == a.new_objects
}

} // verus!
