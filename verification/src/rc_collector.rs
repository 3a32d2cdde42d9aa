use vstd::prelude::*;
use crate::constants::WRITE_BARRIER_COLLECT_THRESHOLD;
use crate::gc_object::{GcObject, with_logged, with_rc};
use crate::object_store::{ObjectStore, store_closed, no_forwarding, lemma_closed_same_refs,
    lemma_closed_set_child};
use crate::immix_space::{ImmixSpace, store_ok, lemma_store_ok_same_size};
use crate::large_object_space::LargeObjectSpace;
use crate::allocator::evac_capacity;
use crate::measures::{count_matching, rc_zero, rc_positive, lemma_count_same, lemma_count_drop,
    lemma_count_new, lemma_store_finite};

verus! {

broadcast use vstd::set::group_set_axioms;

/// Every address in `s` has a readable header in `m`.
pub open spec fn seq_in_dom(s: Seq<usize>, m: Map<usize, GcObject>) -> bool {
    forall|i: int| 0 <= i < s.len() ==> m.contains_key(#[trigger] s[i])
}

/// `m2` still knows every address `m1` knew.
pub open spec fn dom_grows(m1: Map<usize, GcObject>, m2: Map<usize, GcObject>) -> bool {
    forall|a: usize| m1.contains_key(a) ==> #[trigger] m2.contains_key(a)
}

/// `m2` keeps every object `m1` knew, with its children untouched.
pub open spec fn children_kept(m1: Map<usize, GcObject>, m2: Map<usize, GcObject>) -> bool {
    forall|a: usize|
        m1.contains_key(a) ==> #[trigger] m2.contains_key(a) && m2[a].children@
            == m1[a].children@
}

/// No object's count drops back to zero between `m1` and `m2`: the
/// increment phases of a collection only ever raise counts.
pub open spec fn rc_floor_kept(m1: Map<usize, GcObject>, m2: Map<usize, GcObject>) -> bool {
    forall|a: usize|
        #[trigger] m1.contains_key(a) && m1[a].rc >= 1 ==> m2.contains_key(a) && m2[a].rc >= 1
}

/// Keeping every positive count is transitive.
proof fn lemma_floor_chain(
    m1: Map<usize, GcObject>,
    m2: Map<usize, GcObject>,
    m3: Map<usize, GcObject>,
)
    requires
        rc_floor_kept(m1, m2),
        rc_floor_kept(m2, m3),
    ensures
        rc_floor_kept(m1, m3),
{
    assert forall|a: usize| #[trigger] m1.contains_key(a) && m1[a].rc >= 1
        implies m3.contains_key(a) && m3[a].rc >= 1 by {
        assert(m2.contains_key(a) && m2[a].rc >= 1);
    };
}

/// The decrement phase only ever lowers counts and never touches pins:
/// every object `m1` knew is still there with a count no higher and the
/// same pinned bit.
pub open spec fn dec_phase_kept(m1: Map<usize, GcObject>, m2: Map<usize, GcObject>) -> bool {
    forall|a: usize|
        #[trigger] m1.contains_key(a) ==> m2.contains_key(a) && m2[a].rc <= m1[a].rc
            && m2[a].pinned == m1[a].pinned && m2[a].forwarded == m1[a].forwarded
}

/// Lowering one count (keeping its pin) keeps the whole phase relation.
proof fn lemma_dec_step(m: Map<usize, GcObject>, k: usize, v: GcObject)
    requires
        m.contains_key(k),
        v.rc <= m[k].rc,
        v.pinned == m[k].pinned,
        v.forwarded == m[k].forwarded,
    ensures
        dec_phase_kept(m, m.insert(k, v)),
{
}

/// The phase relation is transitive.
proof fn lemma_dec_chain(
    m1: Map<usize, GcObject>,
    m2: Map<usize, GcObject>,
    m3: Map<usize, GcObject>,
)
    requires
        dec_phase_kept(m1, m2),
        dec_phase_kept(m2, m3),
    ensures
        dec_phase_kept(m1, m3),
{
    assert forall|a: usize| #[trigger] m1.contains_key(a) implies m3.contains_key(a) && m3[a].rc
        <= m1[a].rc && m3[a].pinned == m1[a].pinned && m3[a].forwarded == m1[a].forwarded by {
        assert(m2.contains_key(a));
    };
}

/// Every object `m1` knew is still there with its pinned bit and its
/// forwarding word unchanged.
pub open spec fn pins_kept(m1: Map<usize, GcObject>, m2: Map<usize, GcObject>) -> bool {
    forall|a: usize|
        #[trigger] m1.contains_key(a) ==> m2.contains_key(a) && m2[a].pinned == m1[a].pinned
            && m2[a].forwarded == m1[a].forwarded
}

/// Keeping every pin is transitive.
proof fn lemma_pins_chain(
    m1: Map<usize, GcObject>,
    m2: Map<usize, GcObject>,
    m3: Map<usize, GcObject>,
)
    requires
        pins_kept(m1, m2),
        pins_kept(m2, m3),
    ensures
        pins_kept(m1, m3),
{
    assert forall|a: usize| #[trigger] m1.contains_key(a) implies m3.contains_key(a)
        && m3[a].pinned == m1[a].pinned && m3[a].forwarded == m1[a].forwarded by {
        assert(m2.contains_key(a));
    };
}

/// An overwrite that keeps an object's count keeps every positive count.
proof fn lemma_floor_same_rc(m: Map<usize, GcObject>, k: usize, v: GcObject)
    requires
        m.contains_key(k),
        v.rc == m[k].rc,
    ensures
        rc_floor_kept(m, m.insert(k, v)),
{
}

/// The deferred coalesced reference counter. The write barrier logs a
/// modified object once per window and queues decrements for its old
/// children; `collect` then settles all the counts in one batch: old roots
/// are decremented, current roots incremented and kept, the modified buffer
/// is drained to a fixed point (incrementing and possibly evacuating
/// children), and finally the decrement buffer is drained, reclaiming
/// whatever dropped to zero.
pub struct RCCollector {
    pub old_root_buffer: Vec<usize>,
    pub decrement_buffer: Vec<usize>,
    pub modified_buffer: Vec<usize>,
    pub perform_evac: bool,
    pub write_barrier_counter: usize,
}

impl RCCollector {
    /// All three buffers hold only addresses with readable headers.
    pub open spec fn buffers_in(&self, m: Map<usize, GcObject>) -> bool {
        &&& seq_in_dom(self.old_root_buffer@, m)
        &&& seq_in_dom(self.decrement_buffer@, m)
        &&& seq_in_dom(self.modified_buffer@, m)
    }

    pub fn new() -> (c: RCCollector)
        ensures
            c.old_root_buffer@ == Seq::<usize>::empty(),
            c.decrement_buffer@ == Seq::<usize>::empty(),
            c.modified_buffer@ == Seq::<usize>::empty(),
            !c.perform_evac,
            c.write_barrier_counter == 0,
    {
        RCCollector {
            old_root_buffer: Vec::new(),
            decrement_buffer: Vec::new(),
            modified_buffer: Vec::new(),
            perform_evac: false,
            write_barrier_counter: 0,
        }
    }

    /// The write barrier, to be called before an object's references are
    /// mutated. The first call in a window logs the object: it enters the
    /// modified buffer once, its current children are queued for a
    /// decrement, and the barrier counter rises. Every further call in the
    /// window finds the object logged and leaves all state unchanged, which
    /// is the coalescing of repeated writes.
    ///
    /// Returns whether the caller should trigger a collection.
    pub fn write_barrier(&mut self, store: &mut ObjectStore, object: usize) -> (r: bool)
        requires
            old(store)@.contains_key(object),
            store_closed(old(store)@),
            old(self).buffers_in(old(store)@),
        ensures
            store_closed(final(store)@),
            final(store)@.dom() == old(store)@.dom(),
            final(self).buffers_in(final(store)@),
            old(store)@[object].logged ==> final(store)@ =~= old(store)@ && *final(self) == *old(
                self,
            ),
            !old(store)@[object].logged ==> {
                &&& final(store)@ =~= old(store)@.insert(
                    object,
                    with_logged(old(store)@[object], true),
                )
                &&& final(self).modified_buffer@ == old(self).modified_buffer@.push(object)
                &&& final(self).decrement_buffer@ == old(self).decrement_buffer@
                    + old(store)@[object].children@
                &&& final(self).old_root_buffer == old(self).old_root_buffer
                &&& final(self).perform_evac == old(self).perform_evac
                &&& final(self).write_barrier_counter == (if old(self).write_barrier_counter
                    < usize::MAX {
                    old(self).write_barrier_counter + 1
                } else {
                    usize::MAX as int
                })
            },
            r == (WRITE_BARRIER_COLLECT_THRESHOLD > 0 && final(self).write_barrier_counter
                >= WRITE_BARRIER_COLLECT_THRESHOLD),
    {
        let prior = store.set_logged(object, true);
        proof {
            lemma_closed_same_refs(old(store)@, object, with_logged(old(store)@[object], true));
        }
        if !prior {
            self.modified_buffer.push(object);
            let n = store.child_count(object);
            let mut i: usize = 0;
            while i < n
                invariant
                    store@.contains_key(object),
                    n == store@[object].children@.len(),
                    i <= n,
                    store_closed(store@),
                    self.decrement_buffer@ == old(self).decrement_buffer@
                        + store@[object].children@.subrange(0, i as int),
                    seq_in_dom(self.decrement_buffer@, store@),
                    self.modified_buffer@ == old(self).modified_buffer@.push(object),
                    seq_in_dom(self.modified_buffer@, store@),
                    self.old_root_buffer == old(self).old_root_buffer,
                    seq_in_dom(self.old_root_buffer@, store@),
                    self.perform_evac == old(self).perform_evac,
                    self.write_barrier_counter == old(self).write_barrier_counter,
                decreases n - i,
            {
                let c = store.get_child(object, i);
                self.decrement_buffer.push(c);
                proof {
                    assert(self.decrement_buffer@ =~= old(self).decrement_buffer@
                        + store@[object].children@.subrange(0, i as int + 1));
                }
                i = i + 1;
            }
            proof {
                assert(store@[object].children@.subrange(0, n as int) =~= store@[object].children@);
            }
            if self.write_barrier_counter < usize::MAX {
                self.write_barrier_counter = self.write_barrier_counter + 1;
            }
        }
        WRITE_BARRIER_COLLECT_THRESHOLD > 0 && self.write_barrier_counter
            >= WRITE_BARRIER_COLLECT_THRESHOLD
    }

    /// Queue a decrement.
    fn decrement(&mut self, store: &ObjectStore, object: usize)
        requires
            store@.contains_key(object),
            old(self).buffers_in(store@),
        ensures
            final(self).buffers_in(store@),
            final(self).decrement_buffer@ == old(self).decrement_buffer@.push(object),
            final(self).modified_buffer == old(self).modified_buffer,
            final(self).old_root_buffer == old(self).old_root_buffer,
            final(self).perform_evac == old(self).perform_evac,
            final(self).write_barrier_counter == old(self).write_barrier_counter,
    {
        self.decrement_buffer.push(object);
    }

    /// Apply an increment to an object. On the object's 0 to 1 transition it
    /// is new to the collector: it enters the modified buffer (once — that
    /// is the coalescing), after an opportunistic evacuation if this
    /// collection evacuates and the caller allows it. A later increment
    /// leaves the buffers alone.
    ///
    /// Returns the object's new address if it was evacuated.
    fn increment(
        &mut self,
        store: &mut ObjectStore,
        space: &mut ImmixSpace,
        object: usize,
        try_evacuate: bool,
    ) -> (r: Option<usize>)
        requires
            old(space).wf(),
            old(store)@.contains_key(object),
            store_ok(old(store)@, old(space).limit()),
            store_closed(old(store)@),
            old(self).buffers_in(old(store)@),
        ensures
            final(space).wf(),
            final(space).total() == old(space).total(),
            final(space).limit() == old(space).limit(),
            final(space).current_live_mark == old(space).current_live_mark,
            final(space).collector == old(space).collector,
            final(space).allocator == old(space).allocator,
            final(space).overflow_allocator == old(space).overflow_allocator,
            final(space).new_objects == old(space).new_objects,
            evac_capacity(final(space).evac_allocator) <= evac_capacity(old(space).evac_allocator),
            final(space).evac_allocator.evac_headroom@.len() <= old(
                space,
            ).evac_allocator.evac_headroom@.len(),
            store_ok(final(store)@, final(space).limit()),
            store_closed(final(store)@),
            dom_grows(old(store)@, final(store)@),
            final(self).buffers_in(final(store)@),
            final(self).old_root_buffer == old(self).old_root_buffer,
            final(self).decrement_buffer == old(self).decrement_buffer,
            final(self).perform_evac == old(self).perform_evac,
            final(self).write_barrier_counter == old(self).write_barrier_counter,
            old(store)@[object].rc == 0 ==> final(self).modified_buffer@.len() == old(
                self,
            ).modified_buffer@.len() + 1,
            // The element enqueued on the 0 to 1 transition is the object
            // itself, or its new address when it was evacuated.
            old(store)@[object].rc == 0 && r is None ==> final(self).modified_buffer@ == old(
                self,
            ).modified_buffer@.push(object),
            r matches Some(new_object) ==> final(self).modified_buffer@ == old(
                self,
            ).modified_buffer@.push(new_object),
            // An evacuated original gives its lines back at once.
            r is Some ==> crate::block_info::lines_decremented(
                old(space).block_allocator.blocks@[
                    crate::addressing::block_of(object)
                ].line_counter@,
                final(space).block_allocator.blocks@[
                    crate::addressing::block_of(object)
                ].line_counter@,
                crate::addressing::line_of(crate::addressing::offset_of(object)),
                crate::addressing::line_of(
                    crate::addressing::offset_of(object) + old(store)@[object].size - 1,
                ),
            ),
            final(self).modified_buffer@.len() >= old(self).modified_buffer@.len(),
            forall|k: int|
                0 <= k < old(self).modified_buffer@.len()
                    ==> #[trigger] final(self).modified_buffer@[k]
                    == old(self).modified_buffer@[k],
            old(store)@[object].rc != 0 ==> final(self).modified_buffer == old(
                self,
            ).modified_buffer && r is None,
            r is None ==> children_kept(old(store)@, final(store)@),
            // Without an evacuation the increment is the whole effect: only
            // the object's count changes, and the object map stays put.
            r is None ==> final(store)@ =~= old(store)@.insert(
                object,
                with_rc(old(store)@[object], final(store)@[object].rc),
            ),
            r is None ==> final(space).object_map == old(space).object_map,
            !try_evacuate ==> r is None,
            !old(self).perform_evac ==> r is None,
            r matches Some(new_object) ==> final(store)@.contains_key(new_object)
                && evac_capacity(final(space).evac_allocator) <= evac_capacity(
                old(space).evac_allocator,
            ) - 1,
            count_matching(final(store)@, rc_zero()) + final(self).modified_buffer@.len()
                <= count_matching(old(store)@, rc_zero()) + old(self).modified_buffer@.len(),
            rc_floor_kept(old(store)@, final(store)@),
            final(store)@[object].rc >= 1,
    {
        proof {
            lemma_store_finite(store);
        }
        let ghost m0 = store@;
        let first = store.rc_increment(object);
        proof {
            let v = with_rc(
                m0[object],
                if m0[object].rc < u32::MAX {
                    (m0[object].rc + 1) as u32
                } else {
                    u32::MAX
                },
            );
            if m0[object].rc == 0 {
                lemma_count_drop(m0, object, v, rc_zero());
            } else {
                lemma_count_same(m0, object, v, rc_zero());
            }
            lemma_store_ok_same_size(m0, object, v, space.limit());
            lemma_closed_same_refs(m0, object, v);
        }
        if first {
            if try_evacuate && self.perform_evac && space.is_gc_object(object) {
                let ghost m1 = store@;
                match space.maybe_evacuate(store, object) {
                    Some(new_object) => {
                        proof {
                            lemma_count_after_evacuate(m1, store@, object, new_object);
                            assert forall|a: usize| #[trigger] m1.contains_key(a) && m1[a].rc
                                >= 1 implies store@.contains_key(a) && store@[a].rc >= 1 by {
                                if a == new_object || a == object {
                                    assert(store@[a].rc == m1[object].rc);
                                }
                            };
                        }
                        space.decrement_lines(store, object);
                        self.modified_buffer.push(new_object);
                        return Some(new_object);
                    },
                    None => {},
                }
            }
            self.modified_buffer.push(object);
            None
        } else {
            None
        }
    }

    /// Queue a decrement for every root of the previous collection.
    fn process_old_roots(&mut self, store: &ObjectStore)
        requires
            old(self).buffers_in(store@),
        ensures
            final(self).buffers_in(store@),
            final(self).old_root_buffer@ == Seq::<usize>::empty(),
            final(self).decrement_buffer@ == old(self).decrement_buffer@ + old(
                self,
            ).old_root_buffer@,
            final(self).modified_buffer == old(self).modified_buffer,
            final(self).perform_evac == old(self).perform_evac,
            final(self).write_barrier_counter == old(self).write_barrier_counter,
    {
        self.decrement_buffer.append(&mut self.old_root_buffer);
    }

    /// Increment the current roots (never evacuating them) and keep them as
    /// the old roots of the next collection.
    fn process_current_roots(
        &mut self,
        store: &mut ObjectStore,
        space: &mut ImmixSpace,
        roots: &Vec<usize>,
    )
        requires
            old(space).wf(),
            store_ok(old(store)@, old(space).limit()),
            store_closed(old(store)@),
            old(self).buffers_in(old(store)@),
            seq_in_dom(roots@, old(store)@),
            old(self).old_root_buffer@ == Seq::<usize>::empty(),
        ensures
            final(space).wf(),
            final(space).total() == old(space).total(),
            final(space).limit() == old(space).limit(),
            final(space).current_live_mark == old(space).current_live_mark,
            final(space).new_objects == old(space).new_objects,
            final(space).evac_allocator.evac_headroom@.len() <= old(
                space,
            ).evac_allocator.evac_headroom@.len(),
            store_ok(final(store)@, final(space).limit()),
            store_closed(final(store)@),
            dom_grows(old(store)@, final(store)@),
            final(self).buffers_in(final(store)@),
            final(self).old_root_buffer@ == roots@,
            final(self).decrement_buffer == old(self).decrement_buffer,
            final(self).perform_evac == old(self).perform_evac,
            final(self).write_barrier_counter == old(self).write_barrier_counter,
            rc_floor_kept(old(store)@, final(store)@),
            pins_kept(old(store)@, final(store)@),
            final(space).object_map == old(space).object_map,
            forall|j: int| 0 <= j < roots@.len() ==> final(store)@[#[trigger] roots@[j]].rc >= 1,
            // Roots new to the collector enter the modified buffer, which
            // only ever grows by extension here.
            final(self).modified_buffer@.len() >= old(self).modified_buffer@.len(),
            forall|k: int|
                0 <= k < old(self).modified_buffer@.len()
                    ==> #[trigger] final(self).modified_buffer@[k]
                    == old(self).modified_buffer@[k],
    {
        let mut i: usize = 0;
        while i < roots.len()
            invariant
                space.wf(),
                space.total() == old(space).total(),
                space.limit() == old(space).limit(),
                space.current_live_mark == old(space).current_live_mark,
                space.new_objects == old(space).new_objects,
                space.evac_allocator.evac_headroom@.len() <= old(
                    space,
                ).evac_allocator.evac_headroom@.len(),
                store_ok(store@, space.limit()),
                store_closed(store@),
                dom_grows(old(store)@, store@),
                self.buffers_in(store@),
                seq_in_dom(roots@, store@),
                i <= roots@.len(),
                self.old_root_buffer@ == roots@.subrange(0, i as int),
                self.decrement_buffer == old(self).decrement_buffer,
                self.perform_evac == old(self).perform_evac,
                self.write_barrier_counter == old(self).write_barrier_counter,
                rc_floor_kept(old(store)@, store@),
                pins_kept(old(store)@, store@),
                space.object_map == old(space).object_map,
                forall|j: int| 0 <= j < i as int ==> store@[#[trigger] roots@[j]].rc >= 1,
                self.modified_buffer@.len() >= old(self).modified_buffer@.len(),
                forall|k: int|
                    0 <= k < old(self).modified_buffer@.len()
                        ==> #[trigger] self.modified_buffer@[k] == old(self).modified_buffer@[k],
            decreases roots@.len() - i,
        {
            let root = roots[i];
            let ghost m_pre = store@;
            let _ = self.increment(store, space, root, false);
            self.old_root_buffer.push(root);
            proof {
                assert(self.old_root_buffer@ =~= roots@.subrange(0, i as int + 1));
                assert forall|a: usize| old(store)@.contains_key(a) && old(store)@[a].rc >= 1
                    implies #[trigger] store@.contains_key(a) && store@[a].rc >= 1 by {
                    assert(m_pre.contains_key(a) && m_pre[a].rc >= 1);
                };
                assert forall|a: usize| #[trigger] old(store)@.contains_key(a)
                    implies store@.contains_key(a) && store@[a].pinned == old(store)@[a].pinned
                    && store@[a].forwarded == old(store)@[a].forwarded by {
                    assert(m_pre.contains_key(a));
                };
                assert forall|j: int| 0 <= j < i as int + 1 implies store@[
                    #[trigger] roots@[j]
                ].rc >= 1 by {
                    if j < i as int {
                        assert(m_pre.contains_key(roots@[j]) && m_pre[roots@[j]].rc >= 1);
                    }
                };
            }
            i = i + 1;
        }
        proof {
            assert(roots@.subrange(0, roots@.len() as int) =~= roots@);
        }
    }

    /// Large objects taken in since the last collection get a temporary
    /// increment balanced by a queued decrement: they stay alive only if
    /// something else references them before the decrements drain.
    fn process_los_new_objects(
        &mut self,
        store: &mut ObjectStore,
        space: &mut ImmixSpace,
        new_objects: &Vec<usize>,
    )
        requires
            old(space).wf(),
            store_ok(old(store)@, old(space).limit()),
            store_closed(old(store)@),
            old(self).buffers_in(old(store)@),
            seq_in_dom(new_objects@, old(store)@),
        ensures
            final(space).wf(),
            final(space).total() == old(space).total(),
            final(space).limit() == old(space).limit(),
            final(space).current_live_mark == old(space).current_live_mark,
            final(space).new_objects == old(space).new_objects,
            final(space).evac_allocator.evac_headroom@.len() <= old(
                space,
            ).evac_allocator.evac_headroom@.len(),
            store_ok(final(store)@, final(space).limit()),
            store_closed(final(store)@),
            dom_grows(old(store)@, final(store)@),
            final(self).buffers_in(final(store)@),
            final(self).old_root_buffer == old(self).old_root_buffer,
            final(self).perform_evac == old(self).perform_evac,
            final(self).write_barrier_counter == old(self).write_barrier_counter,
            pins_kept(old(store)@, final(store)@),
            rc_floor_kept(old(store)@, final(store)@),
            final(space).object_map == old(space).object_map,
            new_objects@.len() == 0 ==> *final(self) == *old(self) && final(store)@ == old(
                store,
            )@ && *final(space) == *old(space),
    {
        let mut i: usize = 0;
        while i < new_objects.len()
            invariant
                space.wf(),
                space.total() == old(space).total(),
                space.limit() == old(space).limit(),
                space.current_live_mark == old(space).current_live_mark,
                space.new_objects == old(space).new_objects,
                space.evac_allocator.evac_headroom@.len() <= old(
                    space,
                ).evac_allocator.evac_headroom@.len(),
                store_ok(store@, space.limit()),
                store_closed(store@),
                dom_grows(old(store)@, store@),
                self.buffers_in(store@),
                seq_in_dom(new_objects@, store@),
                i <= new_objects@.len(),
                self.old_root_buffer == old(self).old_root_buffer,
                self.perform_evac == old(self).perform_evac,
                self.write_barrier_counter == old(self).write_barrier_counter,
                pins_kept(old(store)@, store@),
                rc_floor_kept(old(store)@, store@),
                space.object_map == old(space).object_map,
                new_objects@.len() == 0 ==> *self == *old(self) && store@ == old(store)@ && *space
                    == *old(space),
            decreases new_objects@.len() - i,
        {
            let object = new_objects[i];
            let ghost m_pre = store@;
            let _ = self.increment(store, space, object, false);
            proof {
                assert forall|a: usize| #[trigger] old(store)@.contains_key(a)
                    implies store@.contains_key(a) && store@[a].pinned == old(store)@[a].pinned
                    && store@[a].forwarded == old(store)@[a].forwarded by {
                    assert(m_pre.contains_key(a));
                };
                lemma_floor_chain(old(store)@, m_pre, store@);
            }
            self.decrement(store, object);
            i = i + 1;
        }
    }

    /// Drain the modified buffer to a fixed point. Each popped object has
    /// its logged bit cleared and, if it lives in the immix space, is
    /// registered there and gets its lines counted; each of its children is
    /// incremented, rewritten if it was forwarded, and possibly evacuated.
    ///
    /// The drain terminates because an object enters the buffer only on its
    /// own 0 to 1 transition: every enqueue spends one object whose count
    /// was still zero.
    fn process_mod_buffer(&mut self, store: &mut ObjectStore, space: &mut ImmixSpace)
        requires
            old(space).wf(),
            store_ok(old(store)@, old(space).limit()),
            store_closed(old(store)@),
            old(self).buffers_in(old(store)@),
        ensures
            final(space).wf(),
            final(space).total() == old(space).total(),
            final(space).limit() == old(space).limit(),
            final(space).current_live_mark == old(space).current_live_mark,
            final(space).evac_allocator.evac_headroom@.len() <= old(
                space,
            ).evac_allocator.evac_headroom@.len(),
            store_ok(final(store)@, final(space).limit()),
            store_closed(final(store)@),
            dom_grows(old(store)@, final(store)@),
            final(self).buffers_in(final(store)@),
            final(self).modified_buffer@ == Seq::<usize>::empty(),
            final(self).old_root_buffer == old(self).old_root_buffer,
            final(self).decrement_buffer == old(self).decrement_buffer,
            final(self).perform_evac == old(self).perform_evac,
            final(self).write_barrier_counter == old(self).write_barrier_counter,
            rc_floor_kept(old(store)@, final(store)@),
            // When this collection does not evacuate, every queued object
            // ends with its logged bit cleared, and every queued object of
            // the space ends registered in the object map with its lines
            // counted.
            !old(self).perform_evac ==> forall|j: int|
                0 <= j < old(self).modified_buffer@.len() ==> final(store)@[
                    #[trigger] old(self).modified_buffer@[j]
                ].logged == false,
            !old(self).perform_evac ==> forall|j: int|
                0 <= j < old(self).modified_buffer@.len() && old(self).modified_buffer@[j] < old(
                    space,
                ).limit() ==> final(space).object_map@.contains(
                    #[trigger] old(self).modified_buffer@[j],
                ),
            !old(self).perform_evac ==> pins_kept(old(store)@, final(store)@),
            !old(self).perform_evac && no_forwarding(old(store)@) ==> children_kept(
                old(store)@,
                final(store)@,
            ),
            !old(self).perform_evac ==> forall|a: usize|
                old(space).object_map@.contains(a)
                    ==> #[trigger] final(space).object_map@.contains(a),
            // The drain settles the children: with no forwarding pending and
            // no evacuation, every child of every queued object was
            // incremented and so ends with a positive count.
            !old(self).perform_evac && no_forwarding(old(store)@) ==> forall|j: int, i: int|
                0 <= j < old(self).modified_buffer@.len() && 0 <= i < old(store)@[
                    old(self).modified_buffer@[j]
                ].children@.len() ==> final(store)@[
                    #[trigger] old(store)@[old(self).modified_buffer@[j]].children@[i]
                ].rc >= 1,
    {
        let ghost init = old(self).modified_buffer@;
        let ghost mut processed: int = 0;
        while self.modified_buffer.len() > 0
            invariant
                space.wf(),
                space.total() == old(space).total(),
                space.limit() == old(space).limit(),
                space.current_live_mark == old(space).current_live_mark,
                space.evac_allocator.evac_headroom@.len() <= old(
                    space,
                ).evac_allocator.evac_headroom@.len(),
                store_ok(store@, space.limit()),
                store_closed(store@),
                dom_grows(old(store)@, store@),
                self.buffers_in(store@),
                self.old_root_buffer == old(self).old_root_buffer,
                self.decrement_buffer == old(self).decrement_buffer,
                self.perform_evac == old(self).perform_evac,
                self.write_barrier_counter == old(self).write_barrier_counter,
                rc_floor_kept(old(store)@, store@),
                0 <= processed <= init.len(),
                self.modified_buffer@.len() >= init.len() - processed,
                forall|k: int|
                    0 <= k < init.len() - processed ==> self.modified_buffer@[k] == init[processed
                        + k],
                !old(self).perform_evac ==> forall|j: int|
                    0 <= j < processed ==> store@[#[trigger] init[j]].logged == false,
                !old(self).perform_evac ==> forall|j: int|
                    0 <= j < processed && init[j] < space.limit() ==> space.object_map@.contains(
                        #[trigger] init[j],
                    ),
                !old(self).perform_evac ==> pins_kept(old(store)@, store@),
                !old(self).perform_evac && no_forwarding(old(store)@) ==> children_kept(
                    old(store)@,
                    store@,
                ),
                !old(self).perform_evac ==> forall|a: usize|
                    old(space).object_map@.contains(a) ==> #[trigger] space.object_map@.contains(
                        a,
                    ),
                !old(self).perform_evac && no_forwarding(old(store)@) ==> forall|j: int, i: int|
                    0 <= j < processed && 0 <= i < old(store)@[init[j]].children@.len()
                        ==> store@[#[trigger] old(store)@[init[j]].children@[i]].rc >= 1,
                store_closed(old(store)@),
                seq_in_dom(init, old(store)@),
                !old(self).perform_evac ==> store@.dom() =~= old(store)@.dom(),
            decreases count_matching(store@, rc_zero()) + self.modified_buffer@.len(),
        {
            let ghost iter_count = count_matching(store@, rc_zero());
            let ghost iter_len = self.modified_buffer@.len();
            let object = self.modified_buffer.remove(0);
            proof {
                lemma_store_finite(store);
                if processed < init.len() {
                    assert(object == init[processed]);
                }
            }
            let ghost m0 = store@;
            let _ = store.set_logged(object, false);
            proof {
                let v = with_logged(m0[object], false);
                lemma_count_same(m0, object, v, rc_zero());
                lemma_store_ok_same_size(m0, object, v, space.limit());
                lemma_closed_same_refs(m0, object, v);
                lemma_floor_same_rc(m0, object, v);
                lemma_floor_chain(old(store)@, m0, store@);
            }
            if space.is_in_space(object) {
                space.set_gc_object(object);
                space.increment_lines(store, object);
            }
            let mut i: usize = 0;
            while i < store.child_count(object)
                invariant
                    space.wf(),
                    space.total() == old(space).total(),
                    space.limit() == old(space).limit(),
                    space.current_live_mark == old(space).current_live_mark,
                    space.evac_allocator.evac_headroom@.len() <= old(
                        space,
                    ).evac_allocator.evac_headroom@.len(),
                    store@.contains_key(object),
                    store_ok(store@, space.limit()),
                    store_closed(store@),
                    dom_grows(old(store)@, store@),
                    self.buffers_in(store@),
                    self.old_root_buffer == old(self).old_root_buffer,
                    self.decrement_buffer == old(self).decrement_buffer,
                    self.perform_evac == old(self).perform_evac,
                    self.write_barrier_counter == old(self).write_barrier_counter,
                    count_matching(store@, rc_zero()) + self.modified_buffer@.len() <= iter_count
                        + iter_len - 1,
                    rc_floor_kept(old(store)@, store@),
                    forall|k: int|
                        0 <= k < init.len() - processed - 1 ==> self.modified_buffer@[k] == init[
                            processed + 1 + k
                        ],
                    self.modified_buffer@.len() >= init.len() - processed - 1,
                    !old(self).perform_evac ==> store@[object].logged == false,
                    !old(self).perform_evac ==> (object < space.limit()
                        ==> space.object_map@.contains(object)),
                    !old(self).perform_evac ==> forall|j: int|
                        0 <= j < processed ==> store@[#[trigger] init[j]].logged == false,
                    !old(self).perform_evac ==> forall|j: int|
                        0 <= j < processed && init[j] < space.limit()
                            ==> space.object_map@.contains(#[trigger] init[j]),
                    !old(self).perform_evac ==> pins_kept(old(store)@, store@),
                    !old(self).perform_evac && no_forwarding(old(store)@) ==> children_kept(
                        old(store)@,
                        store@,
                    ),
                    !old(self).perform_evac ==> forall|a: usize|
                        old(space).object_map@.contains(a)
                            ==> #[trigger] space.object_map@.contains(a),
                    !old(self).perform_evac && no_forwarding(old(store)@) ==> forall|j: int, i: int|
                        0 <= j < processed && 0 <= i < old(store)@[init[j]].children@.len()
                            ==> store@[#[trigger] old(store)@[init[j]].children@[i]].rc >= 1,
                    !old(self).perform_evac && no_forwarding(old(store)@) && processed < init.len()
                        ==> forall|i2: int|
                        0 <= i2 < i as int && i2 < old(store)@[init[processed]].children@.len()
                            ==> store@[
                            #[trigger] old(store)@[init[processed]].children@[i2]
                        ].rc >= 1,
                    store_closed(old(store)@),
                    seq_in_dom(init, old(store)@),
                    0 <= processed <= init.len(),
                    processed < init.len() ==> object == init[processed as int],
                    !old(self).perform_evac ==> store@.dom() =~= old(store)@.dom(),
                decreases
                    evac_capacity(space.evac_allocator),
                    (if i as int <= store@[object].children@.len() {
                        store@[object].children@.len() - i
                    } else {
                        0int
                    }),
            {
                let ghost cap0 = evac_capacity(space.evac_allocator);
                let ghost clen0 = store@[object].children@.len();
                let child = store.get_child(object, i);
                match store.forwarded_of(child) {
                    Some(new_child) => {
                        proof {
                            lemma_store_finite(store);
                            // A forwarded child cannot appear in a window
                            // that started with no forwarding and does not
                            // evacuate.
                            if !old(self).perform_evac && no_forwarding(old(store)@) {
                                assert(store@.dom().contains(object));
                                assert(old(store)@.contains_key(object));
                                assert(old(store)@.contains_key(
                                    old(store)@[object].children@[i as int],
                                ));
                                assert(child == old(store)@[object].children@[i as int]);
                                assert(false);
                            }
                        }
                        let ghost m1 = store@;
                        store.set_child(object, i, new_child);
                        proof {
                            lemma_count_same(m1, object, store@[object], rc_zero());
                            lemma_store_ok_same_size(
                                m1,
                                object,
                                store@[object],
                                space.limit(),
                            );
                            lemma_closed_set_child(
                                m1,
                                object,
                                store@[object],
                                i as int,
                                new_child,
                            );
                            lemma_floor_same_rc(m1, object, store@[object]);
                            lemma_floor_chain(old(store)@, m1, store@);
                        }
                        let ghost m2 = store@;
                        let r = self.increment(store, space, child, false);
                        proof {
                            assert(r is None);
                            lemma_floor_chain(old(store)@, m2, store@);
                        }
                    },
                    None => {
                        let ghost m1 = store@;
                        proof {
                            if !old(self).perform_evac && no_forwarding(old(store)@) {
                                assert(m1.contains_key(object));
                                if processed < init.len() {
                                    assert(child == old(store)@[
                                        init[processed as int]
                                    ].children@[i as int]);
                                }
                            }
                        }
                        match self.increment(store, space, child, true) {
                            Some(new_child) => {
                                proof {
                                    lemma_floor_chain(old(store)@, m1, store@);
                                }
                                if i < store.child_count(object) {
                                    proof {
                                        lemma_store_finite(store);
                                    }
                                    let ghost m2 = store@;
                                    store.set_child(object, i, new_child);
                                    proof {
                                        lemma_count_same(m2, object, store@[object], rc_zero());
                                        lemma_store_ok_same_size(
                                            m2,
                                            object,
                                            store@[object],
                                            space.limit(),
                                        );
                                        lemma_closed_set_child(
                                            m2,
                                            object,
                                            store@[object],
                                            i as int,
                                            new_child,
                                        );
                                        lemma_floor_same_rc(m2, object, store@[object]);
                                        lemma_floor_chain(old(store)@, m2, store@);
                                    }
                                }
                            },
                            None => {
                                proof {
                                    lemma_floor_chain(old(store)@, m1, store@);
                                    if !old(self).perform_evac && no_forwarding(old(store)@) {
                                        assert forall|a: usize| #[trigger] old(
                                            store,
                                        )@.contains_key(a) implies store@.contains_key(a)
                                            && store@[a].children@ == old(store)@[
                                            a
                                        ].children@ by {
                                            assert(m1.contains_key(a) && m1[a].children@ == old(
                                                store,
                                            )@[a].children@);
                                        };
                                        assert(store@[child].rc >= 1);
                                        assert forall|j: int, i3: int|
                                            0 <= j < processed && 0 <= i3 < old(store)@[
                                                init[j]
                                            ].children@.len() implies store@[
                                            #[trigger] old(store)@[init[j]].children@[i3]
                                        ].rc >= 1 by {
                                            assert(old(store)@.contains_key(init[j]));
                                            assert(m1.contains_key(
                                                old(store)@[init[j]].children@[i3],
                                            ) && m1[old(store)@[init[j]].children@[i3]].rc >= 1);
                                        };
                                    }
                                }
                            },
                        }
                    },
                }
                proof {
                    assert(store@.contains_key(object));
                    assert(evac_capacity(space.evac_allocator) <= cap0);
                    assert(evac_capacity(space.evac_allocator) == cap0
                        ==> store@[object].children@.len() == clen0);
                }
                i = i + 1;
            }
            proof {
                if processed < init.len() {
                    processed = processed + 1;
                }
            }
        }
    }

    /// Drain the decrement buffer to a fixed point. An object whose count
    /// drops to zero and is not pinned has decrements queued for its
    /// children and is reclaimed: its lines are given back and it stops
    /// being a live object of the immix space, or it is queued for the
    /// external free of the large-object space.
    ///
    /// The drain terminates because children are re-enqueued only when an
    /// object's count just hit zero: every round of extra work spends one
    /// object whose count was still positive.
    fn process_decrement_buffer(
        &mut self,
        store: &mut ObjectStore,
        space: &mut ImmixSpace,
        los: &mut LargeObjectSpace,
    )
        requires
            old(space).wf(),
            store_ok(old(store)@, old(space).limit()),
            store_closed(old(store)@),
            old(self).buffers_in(old(store)@),
        ensures
            final(space).wf(),
            final(space).total() == old(space).total(),
            final(space).limit() == old(space).limit(),
            final(space).current_live_mark == old(space).current_live_mark,
            final(space).evac_allocator == old(space).evac_allocator,
            store_ok(final(store)@, final(space).limit()),
            store_closed(final(store)@),
            dom_grows(old(store)@, final(store)@),
            final(self).buffers_in(final(store)@),
            final(self).decrement_buffer@ == Seq::<usize>::empty(),
            final(self).modified_buffer == old(self).modified_buffer,
            final(self).old_root_buffer == old(self).old_root_buffer,
            final(self).perform_evac == old(self).perform_evac,
            final(self).write_barrier_counter == old(self).write_barrier_counter,
            final(los).objects == old(los).objects,
            final(los).new_objects == old(los).new_objects,
            old(self).decrement_buffer@.len() == 0 ==> *final(self) == *old(self)
                && final(store)@ == old(store)@ && *final(space) == *old(space) && *final(los)
                == *old(los),
            dec_phase_kept(old(store)@, final(store)@),
            // Every queued address with a positive count was decremented
            // at least once.
            forall|j: int|
                0 <= j < old(self).decrement_buffer@.len() && old(store)@[
                    #[trigger] old(self).decrement_buffer@[j]
                ].rc > 0 ==> final(store)@[old(self).decrement_buffer@[j]].rc < old(store)@[
                    old(self).decrement_buffer@[j]
                ].rc,
            // Reclamation is owed: an unpinned object of the space whose
            // count the drain brought to zero is no longer a live object,
            // and an unpinned large object brought to zero awaits its free.
            forall|a: usize|
                #[trigger] final(space).object_map@.contains(a)
                    ==> old(space).object_map@.contains(a),
            forall|a: usize|
                #[trigger] old(store)@.contains_key(a) && old(store)@[a].rc > 0 && final(store)@[
                    a
                ].rc == 0 && !old(store)@[a].pinned && a < old(space).limit()
                    ==> !final(space).object_map@.contains(a),
            forall|a: usize|
                #[trigger] old(store)@.contains_key(a) && old(store)@[a].rc > 0 && final(store)@[
                    a
                ].rc == 0 && !old(store)@[a].pinned && !(a < old(space).limit()) && old(
                    los,
                ).objects@.contains(a) ==> final(los).free_queue@.contains(a),
            // Invariant I5: a pinned live object survives the drain.
            forall|a: usize|
                old(space).object_map@.contains(a) && old(store)@.contains_key(a) && old(store)@[
                    a
                ].pinned ==> #[trigger] final(space).object_map@.contains(a),
    {
        let ghost init = old(self).decrement_buffer@;
        let ghost mut processed: int = 0;
        while self.decrement_buffer.len() > 0
            invariant
                space.wf(),
                space.total() == old(space).total(),
                space.limit() == old(space).limit(),
                space.current_live_mark == old(space).current_live_mark,
                space.evac_allocator == old(space).evac_allocator,
                store_ok(store@, space.limit()),
                store_closed(store@),
                dom_grows(old(store)@, store@),
                self.buffers_in(store@),
                self.modified_buffer == old(self).modified_buffer,
                self.old_root_buffer == old(self).old_root_buffer,
                self.perform_evac == old(self).perform_evac,
                self.write_barrier_counter == old(self).write_barrier_counter,
                los.objects == old(los).objects,
                los.new_objects == old(los).new_objects,
                old(self).decrement_buffer@.len() == 0 ==> *self == *old(self)
                    && store@ == old(store)@ && *space == *old(space) && *los == *old(los),
                dec_phase_kept(old(store)@, store@),
                seq_in_dom(init, old(store)@),
                0 <= processed <= init.len(),
                self.decrement_buffer@.len() >= init.len() - processed,
                forall|k: int|
                    0 <= k < init.len() - processed ==> self.decrement_buffer@[k] == init[processed
                        + k],
                forall|j: int|
                    0 <= j < processed && old(store)@[#[trigger] init[j]].rc > 0 ==> store@[
                        init[j]
                    ].rc < old(store)@[init[j]].rc,
                forall|a: usize|
                    old(space).object_map@.contains(a) && old(store)@.contains_key(a) && old(
                        store,
                    )@[a].pinned ==> #[trigger] space.object_map@.contains(a),
                forall|a: usize|
                    #[trigger] space.object_map@.contains(a)
                        ==> old(space).object_map@.contains(a),
                forall|a: usize|
                    #[trigger] old(store)@.contains_key(a) && old(store)@[a].rc > 0 && store@[
                        a
                    ].rc == 0 && !old(store)@[a].pinned && a < old(space).limit()
                        ==> !space.object_map@.contains(a),
                forall|a: usize|
                    #[trigger] old(store)@.contains_key(a) && old(store)@[a].rc > 0 && store@[
                        a
                    ].rc == 0 && !old(store)@[a].pinned && !(a < old(space).limit()) && old(
                        los,
                    ).objects@.contains(a) ==> los.free_queue@.contains(a),
                forall|x: usize|
                    old(los).free_queue@.contains(x) ==> #[trigger] los.free_queue@.contains(x),
                space.limit() == old(space).limit(),
            decreases count_matching(store@, rc_positive()), self.decrement_buffer@.len(),
        {
            let object = self.decrement_buffer.remove(0);
            proof {
                lemma_store_finite(store);
                if processed < init.len() {
                    assert(object == init[processed]);
                }
            }
            let ghost m0 = store@;
            let zero = store.rc_decrement(object);
            proof {
                let v = with_rc(
                    m0[object],
                    if m0[object].rc > 0 {
                        (m0[object].rc - 1) as u32
                    } else {
                        0
                    },
                );
                if m0[object].rc == 1 {
                    lemma_count_drop(m0, object, v, rc_positive());
                } else {
                    lemma_count_same(m0, object, v, rc_positive());
                }
                lemma_dec_step(m0, object, v);
                lemma_dec_chain(old(store)@, m0, store@);
                assert forall|j: int|
                    0 <= j < processed && old(store)@[#[trigger] init[j]].rc > 0 implies store@[
                    init[j]
                ].rc < old(store)@[init[j]].rc by {
                    assert(seq_in_dom(init, old(store)@));
                    assert(old(store)@.contains_key(init[j]));
                    assert(m0.contains_key(init[j]) && m0[init[j]].rc < old(store)@[init[j]].rc);
                };
                if processed < init.len() {
                    assert(seq_in_dom(init, old(store)@));
                    assert(old(store)@.contains_key(object));
                    assert(old(store)@[object].rc > 0 ==> store@[object].rc < old(store)@[
                        object
                    ].rc);
                    processed = processed + 1;
                }
            }
            if zero {
                if !store.is_pinned(object) {
                    let n = store.child_count(object);
                    let mut i: usize = 0;
                    while i < n
                        invariant
                            store@.contains_key(object),
                            n == store@[object].children@.len(),
                            i <= n,
                            store_closed(store@),
                            self.buffers_in(store@),
                            self.decrement_buffer@.len() >= init.len() - processed,
                            forall|k: int|
                                0 <= k < init.len() - processed ==> self.decrement_buffer@[k]
                                    == init[processed + k],
                            self.modified_buffer == old(self).modified_buffer,
                            self.old_root_buffer == old(self).old_root_buffer,
                            self.perform_evac == old(self).perform_evac,
                            self.write_barrier_counter == old(self).write_barrier_counter,
                        decreases n - i,
                    {
                        let c = store.get_child(object, i);
                        self.decrement(store, c);
                        i = i + 1;
                    }
                    if space.is_gc_object(object) {
                        space.decrement_lines(store, object);
                        space.unset_gc_object(object);
                        proof {
                            assert(!space.object_map@.contains(object));
                        }
                    } else if los.is_gc_object(object) {
                        let ghost fq = los.free_queue@;
                        los.enqueue_free(object);
                        proof {
                            crate::collector::lemma_push_keeps_members(fq, object);
                        }
                    }
                    proof {
                        assert(object < old(space).limit()
                            ==> !space.object_map@.contains(object));
                    }
                }
            }
        }
    }

    /// One full reference-counting collection, in its fixed order: old
    /// roots out, current roots in, new large objects balanced, the
    /// modified buffer drained (rewriting and evacuating children), and the
    /// decrements applied last. Afterwards both work buffers are empty, the
    /// roots of this collection are the old roots of the next one, and the
    /// write barrier counter starts a fresh window.
    pub fn collect(
        &mut self,
        store: &mut ObjectStore,
        space: &mut ImmixSpace,
        los: &mut LargeObjectSpace,
        perform_evac: bool,
        roots: &Vec<usize>,
    )
        requires
            old(space).wf(),
            store_ok(old(store)@, old(space).limit()),
            store_closed(old(store)@),
            old(self).buffers_in(old(store)@),
            seq_in_dom(roots@, old(store)@),
            seq_in_dom(old(los).new_objects@, old(store)@),
        ensures
            final(space).wf(),
            final(space).total() == old(space).total(),
            final(space).limit() == old(space).limit(),
            final(space).current_live_mark == old(space).current_live_mark,
            final(space).evac_allocator.evac_headroom@.len() <= old(
                space,
            ).evac_allocator.evac_headroom@.len(),
            store_ok(final(store)@, final(space).limit()),
            store_closed(final(store)@),
            dom_grows(old(store)@, final(store)@),
            final(self).buffers_in(final(store)@),
            final(self).modified_buffer@ == Seq::<usize>::empty(),
            final(self).decrement_buffer@ == Seq::<usize>::empty(),
            final(self).old_root_buffer@ == roots@,
            final(self).write_barrier_counter == 0,
            final(los).new_objects@ == Seq::<usize>::empty(),
            final(los).objects == old(los).objects,
            // With nothing pending — no old roots, no queued work, no new
            // large objects — a collection leaves every root with a
            // positive count: the pass cannot reclaim what the mutator
            // still holds.
            old(self).old_root_buffer@.len() == 0 && old(self).decrement_buffer@.len() == 0 && old(
                self,
            ).modified_buffer@.len() == 0 && old(los).new_objects@.len() == 0 ==> forall|j: int|
                0 <= j < roots@.len() ==> final(store)@[#[trigger] roots@[j]].rc >= 1,
            // Invariant I5 across the whole pass: when this collection does
            // not evacuate, a pinned live object stays a live object.
            !perform_evac ==> forall|a: usize|
                old(space).object_map@.contains(a) && old(store)@.contains_key(a) && old(store)@[
                    a
                ].pinned ==> #[trigger] final(space).object_map@.contains(a),
            // Invariant I4 outside evacuating windows: only evacuation ever
            // writes a forwarding word.
            !perform_evac ==> forall|a: usize|
                #[trigger] old(store)@.contains_key(a) ==> final(store)@.contains_key(a)
                    && final(store)@[a].forwarded == old(store)@[a].forwarded,
            // Reclamation across the whole pass: when this collection does
            // not evacuate, an unpinned object of the space whose count the
            // pass brought to zero is no longer a live object.
            !perform_evac ==> forall|a: usize|
                #[trigger] old(store)@.contains_key(a) && old(store)@[a].rc > 0 && final(store)@[
                    a
                ].rc == 0 && !old(store)@[a].pinned && a < old(space).limit()
                    ==> !final(space).object_map@.contains(a),
    {
        let ghost quiet = old(self).old_root_buffer@.len() == 0 && old(
            self,
        ).decrement_buffer@.len() == 0 && old(self).modified_buffer@.len() == 0 && old(
            los,
        ).new_objects@.len() == 0;
        self.perform_evac = perform_evac;
        self.process_old_roots(store);
        self.process_current_roots(store, space, roots);
        let ghost m_rooted = store@;
        let new_objects = los.get_new_objects();
        self.process_los_new_objects(store, space, &new_objects);
        let ghost m_los = store@;
        self.process_mod_buffer(store, space);
        proof {
            if quiet {
                assert forall|j: int| 0 <= j < roots@.len() implies store@[
                    #[trigger] roots@[j]
                ].rc >= 1 by {
                    assert(m_rooted.contains_key(roots@[j]) && m_rooted[roots@[j]].rc >= 1);
                };
            }
            if !perform_evac {
                assert forall|a: usize|
                    old(space).object_map@.contains(a) && old(store)@.contains_key(a) && old(
                        store,
                    )@[a].pinned implies #[trigger] store@.contains_key(a) && store@[a].pinned
                    && space.object_map@.contains(a) by {
                    assert(m_rooted.contains_key(a) && m_rooted[a].pinned == old(store)@[
                        a
                    ].pinned);
                    assert(m_los.contains_key(a) && m_los[a].pinned == old(store)@[a].pinned);
                };
                assert forall|a: usize| #[trigger] old(store)@.contains_key(a)
                    implies store@.contains_key(a) && store@[a].forwarded == old(store)@[
                    a
                ].forwarded by {
                    assert(m_rooted.contains_key(a) && m_rooted[a].forwarded == old(store)@[
                        a
                    ].forwarded);
                    assert(m_los.contains_key(a) && m_los[a].forwarded == old(store)@[
                        a
                    ].forwarded);
                };
            }
        }
        let ghost m_mod = store@;
        let ghost om_mod = space.object_map@;
        self.process_decrement_buffer(store, space, los);
        proof {
            if !perform_evac {
                assert forall|a: usize|
                    old(space).object_map@.contains(a) && old(store)@.contains_key(a) && old(
                        store,
                    )@[a].pinned implies #[trigger] space.object_map@.contains(a) by {
                    assert(om_mod.contains(a) && m_mod.contains_key(a) && m_mod[a].pinned);
                };
                assert forall|a: usize|
                    #[trigger] old(store)@.contains_key(a) && old(store)@[a].rc > 0 && store@[
                        a
                    ].rc == 0 && !old(store)@[a].pinned && a < old(space).limit()
                        implies !space.object_map@.contains(a) by {
                    assert(m_rooted.contains_key(a) && m_rooted[a].rc >= 1);
                    assert(m_los.contains_key(a) && m_los[a].rc >= 1);
                    assert(m_mod.contains_key(a) && m_mod[a].rc >= 1 && m_mod[a].pinned == old(
                        store,
                    )@[a].pinned);
                };
                assert forall|a: usize| #[trigger] old(store)@.contains_key(a)
                    implies store@.contains_key(a) && store@[a].forwarded == old(store)@[
                    a
                ].forwarded by {
                    assert(m_mod.contains_key(a) && m_mod[a].forwarded == old(store)@[
                        a
                    ].forwarded);
                };
            }
        }
        self.write_barrier_counter = 0;
    }
}

/// Bookkeeping for the zero-count measure across an evacuation: the moved
/// object had just been incremented, so both its old and its new header
/// carry a positive count, and the measure cannot rise.
proof fn lemma_count_after_evacuate(
    m1: Map<usize, GcObject>,
    m2: Map<usize, GcObject>,
    addr: usize,
    new: usize,
)
    requires
        m1.dom().finite(),
        m1.contains_key(addr),
        m1[addr].rc != 0,
        m2.contains_key(new),
        m2.contains_key(addr),
        m2[addr].rc == m1[addr].rc,
        m2[new].rc == m1[addr].rc,
        m2 == m1.insert(new, m2[new]).insert(addr, m2[addr]),
    ensures
        count_matching(m2, rc_zero()) <= count_matching(m1, rc_zero()),
{
    let ma = m1.insert(new, m2[new]);
    if m1.contains_key(new) {
        if m1[new].rc == 0 {
            lemma_count_drop(m1, new, m2[new], rc_zero());
        } else {
            lemma_count_same(m1, new, m2[new], rc_zero());
        }
    } else {
        lemma_count_new(m1, new, m2[new], rc_zero());
    }
    assert(ma.dom() =~= m1.dom().insert(new));
    lemma_count_same(ma, addr, m2[addr], rc_zero());
}

} // verus!
