use vstd::prelude::*;
use crate::constants::{BLOCK_SIZE, LINE_SIZE, NUM_LINES_PER_BLOCK, EVAC_HEADROOM, MAX_BLOCKS,
    CYCLE_TRIGGER_NUMER, CYCLE_TRIGGER_DENOM, EVAC_TRIGGER_NUMER, EVAC_TRIGGER_DENOM};
use crate::gc_object::{GcObject, fresh_object, child_rewritten, child_pushed, with_pinned};
use crate::object_store::{ObjectStore, store_closed, lemma_closed_same_refs};
use crate::immix_space::{ImmixSpace, store_ok, lemma_store_ok_same_size};
use crate::large_object_space::LargeObjectSpace;
use crate::rc_collector::{RCCollector, seq_in_dom, dom_grows};

verus! {

/// The heap as the mutator sees it: the immix space with its object
/// headers, the large-object space, and the reference counter. All mutator
/// traffic — allocation, the write barrier, reference writes, explicit
/// collections — enters here, with the conservative roots handed in by the
/// caller's stack scanner.
pub struct Spaces {
    pub store: ObjectStore,
    pub immix_space: ImmixSpace,
    pub large_object_space: LargeObjectSpace,
    pub rc_collector: RCCollector,
}

impl Spaces {
    /// The heap's overall well-formedness: the space is consistent, every
    /// header describes a well-placed object, references never dangle, and
    /// every queued address has a readable header.
    pub open spec fn wf(&self) -> bool {
        &&& self.immix_space.wf()
        &&& store_ok(self.store@, self.immix_space.limit())
        &&& store_closed(self.store@)
        &&& self.rc_collector.buffers_in(self.store@)
        &&& seq_in_dom(self.large_object_space.new_objects@, self.store@)
    }

    /// A heap over a region of `total` blocks.
    pub fn with_total_blocks(total: usize) -> (s: Spaces)
        requires
            total <= MAX_BLOCKS,
        ensures
            s.wf(),
            s.immix_space.total() == total,
            s.store@ == Map::<usize, GcObject>::empty(),
    {
        Spaces {
            store: ObjectStore::new(),
            immix_space: ImmixSpace::with_total_blocks(total),
            large_object_space: LargeObjectSpace::new(),
            rc_collector: RCCollector::new(),
        }
    }

    /// A heap over a region of the default size.
    pub fn new() -> (s: Spaces)
        ensures
            s.wf(),
            s.store@ == Map::<usize, GcObject>::empty(),
    {
        Spaces {
            store: ObjectStore::new(),
            immix_space: ImmixSpace::new(),
            large_object_space: LargeObjectSpace::new(),
            rc_collector: RCCollector::new(),
        }
    }

    /// Allocate an object of `size` bytes. If the space is exhausted, one
    /// full collection (evacuating and tracing) is forced and the
    /// allocation retried once; a second failure is the out-of-memory
    /// answer to the caller.
    ///
    /// `roots` are the conservative roots the runtime's stack scanner would
    /// hand to that forced collection.
    pub fn allocate(&mut self, size: usize, roots: &Vec<usize>) -> (r: Option<usize>)
        requires
            old(self).wf(),
            1 <= size <= BLOCK_SIZE - LINE_SIZE,
            seq_in_dom(roots@, old(self).store@),
        ensures
            final(self).wf(),
            final(self).immix_space.total() == old(self).immix_space.total(),
            old(self).immix_space.block_allocator.free@.len() > 0 && size <= BLOCK_SIZE - LINE_SIZE
                - 1 ==> r is Some && final(self).rc_collector == old(self).rc_collector,
            // Out of memory is reported only after the one forced
            // collection: its traces are the fresh barrier window and this
            // request's roots kept as old roots.
            r is None ==> {
                &&& final(self).rc_collector.old_root_buffer@ == roots@
                &&& final(self).rc_collector.modified_buffer@ == Seq::<usize>::empty()
                &&& final(self).rc_collector.decrement_buffer@ == Seq::<usize>::empty()
                &&& final(self).rc_collector.write_barrier_counter == 0
                &&& final(self).immix_space.evac_allocator.evac_headroom@.len() <= EVAC_HEADROOM
            },
            match r {
                Some(addr) => {
                    &&& addr < final(self).immix_space.limit()
                    &&& final(self).store@.contains_key(addr)
                    &&& fresh_object(
                        final(self).store@[addr],
                        size,
                        final(self).immix_space.current_live_mark,
                    )
                    &&& final(self).immix_space.object_map@.contains(addr)
                },
                None => true,
            },
    {
        match self.immix_space.allocate(&mut self.store, size) {
            Some(addr) => Some(addr),
            None => {
                self.collect(true, true, roots);
                self.immix_space.allocate(&mut self.store, size)
            },
        }
    }

    /// An explicit collection request from the mutator, with the roots the
    /// stack scanner found. Afterwards the evacuation headroom is within
    /// its bound, the write-barrier window is fresh, and — when a tracing
    /// collection was asked for — every root carries the new live mark.
    pub fn collect(&mut self, evacuation: bool, cycle_collect: bool, roots: &Vec<usize>)
        requires
            old(self).wf(),
            seq_in_dom(roots@, old(self).store@),
        ensures
            final(self).wf(),
            final(self).immix_space.total() == old(self).immix_space.total(),
            dom_grows(old(self).store@, final(self).store@),
            final(self).immix_space.evac_allocator.evac_headroom@.len() <= EVAC_HEADROOM,
            final(self).rc_collector.modified_buffer@ == Seq::<usize>::empty(),
            final(self).rc_collector.decrement_buffer@ == Seq::<usize>::empty(),
            final(self).rc_collector.old_root_buffer@ == roots@,
            final(self).rc_collector.write_barrier_counter == 0,
            cycle_collect ==> {
                &&& final(self).immix_space.current_live_mark
                    == !old(self).immix_space.current_live_mark
                &&& forall|j: int|
                    0 <= j < roots@.len() ==> final(self).store@[#[trigger] roots@[j]].mark
                        == final(self).immix_space.current_live_mark && !final(self).store@[
                        roots@[j]
                    ].pinned
            },
            // A quiet collection keeps what the mutator holds: with nothing
            // pending and no tracing pass, every root keeps a positive count.
            old(self).rc_collector.old_root_buffer@.len() == 0 && old(
                self,
            ).rc_collector.decrement_buffer@.len() == 0 && old(
                self,
            ).rc_collector.modified_buffer@.len() == 0 && old(
                self,
            ).large_object_space.new_objects@.len() == 0 && !cycle_collect && old(
                self,
            ).immix_space.block_allocator.free@.len() * CYCLE_TRIGGER_DENOM >= old(
                self,
            ).immix_space.total() * CYCLE_TRIGGER_NUMER ==> forall|j: int|
                0 <= j < roots@.len() ==> final(self).store@[#[trigger] roots@[j]].rc >= 1,
            // Invariant I4: when no evacuation was decided, no forwarding
            // word is written anywhere in this collection.
            !evacuation && (old(self).immix_space.block_allocator.free@.len() + old(
                self,
            ).immix_space.evac_allocator.evac_headroom@.len()) * EVAC_TRIGGER_DENOM
                >= old(self).immix_space.total() * EVAC_TRIGGER_NUMER ==> forall|a: usize|
                #[trigger] old(self).store@.contains_key(a) ==> final(self).store@.contains_key(a)
                    && final(self).store@[a].forwarded == old(self).store@[a].forwarded,
            // Invariant I5: with neither a trace nor an evacuation decided,
            // a pinned live object stays a live object — and reclamation is
            // owed: an unpinned object whose count this collection brought
            // to zero is live no longer.
            !cycle_collect && !evacuation && old(self).immix_space.block_allocator.free@.len()
                * CYCLE_TRIGGER_DENOM >= old(self).immix_space.total() * CYCLE_TRIGGER_NUMER
                && (old(self).immix_space.block_allocator.free@.len()
                + old(self).immix_space.evac_allocator.evac_headroom@.len()) * EVAC_TRIGGER_DENOM
                >= old(self).immix_space.total() * EVAC_TRIGGER_NUMER ==> forall|a: usize|
                old(self).immix_space.object_map@.contains(a) && old(self).store@.contains_key(a)
                    && old(self).store@[a].pinned
                    ==> #[trigger] final(self).immix_space.object_map@.contains(a),
            !cycle_collect && !evacuation && old(self).immix_space.block_allocator.free@.len()
                * CYCLE_TRIGGER_DENOM >= old(self).immix_space.total() * CYCLE_TRIGGER_NUMER
                && (old(self).immix_space.block_allocator.free@.len()
                + old(self).immix_space.evac_allocator.evac_headroom@.len()) * EVAC_TRIGGER_DENOM
                >= old(self).immix_space.total() * EVAC_TRIGGER_NUMER ==> forall|a: usize|
                #[trigger] old(self).store@.contains_key(a) && old(self).store@[a].rc > 0
                    && final(self).store@[a].rc == 0 && !old(self).store@[a].pinned && a
                    < old(self).immix_space.limit()
                    ==> !final(self).immix_space.object_map@.contains(a),
    {
        self.immix_space.collect(
            &mut self.store,
            &mut self.large_object_space,
            &mut self.rc_collector,
            evacuation,
            cycle_collect,
            roots,
        );
    }

    /// The write barrier: call before changing any of `object`'s outgoing
    /// references. Only objects of the immix space are logged; the first
    /// barrier of a window enqueues the object and its current children,
    /// repeated barriers coalesce into nothing.
    pub fn write_barrier(&mut self, object: usize)
        requires
            old(self).wf(),
            old(self).store@.contains_key(object),
        ensures
            final(self).wf(),
            final(self).immix_space == old(self).immix_space,
            final(self).store@.dom() == old(self).store@.dom(),
            old(self).immix_space.object_map@.contains(object) && object
                < old(self).immix_space.limit() && !old(self).store@[object].logged
                ==> final(self).rc_collector.modified_buffer@
                == old(self).rc_collector.modified_buffer@.push(object),
            old(self).store@[object].logged ==> final(self).rc_collector == old(
                self,
            ).rc_collector && final(self).store@ =~= old(self).store@,
            // The barrier ignores what is not a live object of the space.
            !(object < old(self).immix_space.limit() && old(
                self,
            ).immix_space.object_map@.contains(object)) ==> *final(self) == *old(self),
    {
        if self.immix_space.is_gc_object(object) {
            proof {
                lemma_store_ok_same_size(
                    self.store@,
                    object,
                    crate::gc_object::with_logged(self.store@[object], true),
                    self.immix_space.limit(),
                );
            }
            let _ = self.rc_collector.write_barrier(&mut self.store, object);
        }
    }

    /// Rewrite the `i`-th outgoing reference of `object` to `child`, as the
    /// mutator does after its write barrier.
    pub fn set_child(&mut self, object: usize, i: usize, child: usize)
        requires
            old(self).wf(),
            old(self).store@.contains_key(object),
            old(self).store@.contains_key(child),
            i < old(self).store@[object].children@.len(),
        ensures
            final(self).wf(),
            final(self).immix_space == old(self).immix_space,
            final(self).store@.contains_key(object),
            child_rewritten(old(self).store@[object], final(self).store@[object], i as int, child),
            final(self).store@ =~= old(self).store@.insert(object, final(self).store@[object]),
    {
        let ghost m0 = self.store@;
        self.store.set_child(object, i, child);
        proof {
            lemma_store_ok_same_size(m0, object, self.store@[object], self.immix_space.limit());
            crate::object_store::lemma_closed_set_child(
                m0,
                object,
                self.store@[object],
                i as int,
                child,
            );
        }
    }

    /// Append an outgoing reference to `object`, as the mutator does when
    /// it initializes a freshly allocated object's fields.
    pub fn push_child(&mut self, object: usize, child: usize)
        requires
            old(self).wf(),
            old(self).store@.contains_key(object),
            old(self).store@.contains_key(child),
            old(self).store@[object].children@.len() < usize::MAX,
        ensures
            final(self).wf(),
            final(self).immix_space == old(self).immix_space,
            final(self).store@.contains_key(object),
            child_pushed(old(self).store@[object], final(self).store@[object], child),
            final(self).store@ =~= old(self).store@.insert(object, final(self).store@[object]),
    {
        let ghost m0 = self.store@;
        self.store.push_child(object, child);
        proof {
            lemma_store_ok_same_size(m0, object, self.store@[object], self.immix_space.limit());
            lemma_closed_pushed_child(m0, object, self.store@[object], child);
        }
    }

    /// Pin or unpin an object: a pinned object is never evacuated and never
    /// reclaimed by a decrement during a collection.
    pub fn set_pinned(&mut self, object: usize, v: bool)
        requires
            old(self).wf(),
            old(self).store@.contains_key(object),
        ensures
            final(self).wf(),
            final(self).immix_space == old(self).immix_space,
            final(self).store@ =~= old(self).store@.insert(
                object,
                with_pinned(old(self).store@[object], v),
            ),
    {
        proof {
            let v2 = with_pinned(self.store@[object], v);
            lemma_store_ok_same_size(self.store@, object, v2, self.immix_space.limit());
            lemma_closed_same_refs(self.store@, object, v2);
        }
        self.store.set_pinned(object, v);
    }

    /// Take in a large object that was allocated outside the immix region.
    pub fn register_large_object(&mut self, addr: usize, size: usize)
        requires
            old(self).wf(),
            addr >= old(self).immix_space.limit(),
        ensures
            final(self).wf(),
            final(self).immix_space == old(self).immix_space,
            final(self).store@ == old(self).store@.insert(addr, final(self).store@[addr]),
            final(self).store@.contains_key(addr),
            fresh_object(
                final(self).store@[addr],
                size,
                old(self).immix_space.current_live_mark,
            ),
            final(self).large_object_space.objects@
                == old(self).large_object_space.objects@.insert(addr),
    {
        let header = GcObject::new(size, self.immix_space.current_live_mark());
        self.store.insert_object(addr, header);
        self.large_object_space.register_object(addr);
    }

    /// Whether `addr` is a live object of the immix space.
    pub fn is_gc_object(&self, addr: usize) -> (r: bool)
        ensures
            r == (addr < self.immix_space.limit() && self.immix_space.object_map@.contains(addr)),
    {
        self.immix_space.is_gc_object(addr)
    }

    /// Whether `addr` lies inside the immix region.
    pub fn is_in_space(&self, addr: usize) -> (r: bool)
        ensures
            r == (addr < self.immix_space.limit()),
    {
        self.immix_space.is_in_space(addr)
    }

    /// The current polarity of the live mark bit.
    pub fn current_live_mark(&self) -> (r: bool)
        ensures
            r == self.immix_space.current_live_mark,
    {
        self.immix_space.current_live_mark()
    }

    /// The reference count of the object at `addr`.
    pub fn rc_count(&self, addr: usize) -> (r: u32)
        requires
            self.store@.contains_key(addr),
        ensures
            r == self.store@[addr].rc,
    {
        self.store.rc_of(addr)
    }

    /// Whether the object at `addr` carries `mark`.
    pub fn is_marked(&self, addr: usize, mark: bool) -> (r: bool)
        requires
            self.store@.contains_key(addr),
        ensures
            r == (self.store@[addr].mark == mark),
    {
        self.store.is_marked(addr, mark)
    }

    /// The forwarding address of the object at `addr`, if it was evacuated.
    pub fn forwarding_of(&self, addr: usize) -> (r: Option<usize>)
        requires
            self.store@.contains_key(addr),
        ensures
            r == self.store@[addr].forwarded,
    {
        self.store.forwarded_of(addr)
    }

    /// The `i`-th outgoing reference of the object at `addr`.
    pub fn child_of(&self, addr: usize, i: usize) -> (r: usize)
        requires
            self.store@.contains_key(addr),
            i < self.store@[addr].children@.len(),
        ensures
            r == self.store@[addr].children@[i as int],
    {
        self.store.get_child(addr, i)
    }

    /// Whether `addr` holds a readable object header.
    pub fn contains_object(&self, addr: usize) -> (r: bool)
        ensures
            r == self.store@.contains_key(addr),
    {
        self.store.contains(addr)
    }

    /// The counter of line `line` in block `block`.
    pub fn line_count(&self, block: usize, line: usize) -> (r: u8)
        requires
            self.wf(),
            block < self.immix_space.total(),
            line < NUM_LINES_PER_BLOCK,
        ensures
            r == self.immix_space.block_allocator.blocks@[block as int].line_counter@[line as int],
    {
        let blk = &self.immix_space.block_allocator.blocks[block];
        blk.line_counter[line]
    }

    /// Number of reserve blocks currently held for evacuation.
    pub fn evac_headroom_len(&self) -> (r: usize)
        ensures
            r == self.immix_space.evac_allocator.evac_headroom@.len(),
    {
        self.immix_space.evac_allocator.evac_headroom_len()
    }

    /// Number of free blocks still in the global pool.
    pub fn available_blocks(&self) -> (r: usize)
        ensures
            r == self.immix_space.block_allocator.free@.len(),
    {
        self.immix_space.block_allocator.available_blocks()
    }

    /// Number of blocks the region was carved into.
    pub fn total_blocks(&self) -> (r: usize)
        ensures
            r == self.immix_space.total(),
    {
        self.immix_space.block_allocator.total_blocks()
    }
}

/// Appending a reference to an address the store knows keeps the store
/// closed.
proof fn lemma_closed_pushed_child(m: Map<usize, GcObject>, k: usize, v: GcObject, c: usize)
    requires
        store_closed(m),
        m.contains_key(k),
        m.contains_key(c),
        v.children@ == m[k].children@.push(c),
        v.forwarded == m[k].forwarded,
    ensures
        store_closed(m.insert(k, v)),
{
    let m2 = m.insert(k, v);
    assert forall|a: usize| #[trigger] m2.contains_key(a) implies {
        &&& forall|j: int|
            0 <= j < m2[a].children@.len() ==> m2.contains_key(#[trigger] m2[a].children@[j])
        &&& (m2[a].forwarded matches Some(n) ==> m2.contains_key(n))
    } by {
        assert(m.contains_key(a));
        if a == k {
            assert forall|j: int| 0 <= j < m2[a].children@.len() implies m2.contains_key(
                #[trigger] m2[a].children@[j],
            ) by {
                if j == m[k].children@.len() as int {
                    assert(m2[a].children@[j] == c);
                } else {
                    assert(m2[a].children@[j] == m[k].children@[j]);
                }
            };
        }
    };
}

} // verus!
