use vstd::prelude::*;
use crate::gc_object::GcObject;
use crate::object_store::{ObjectStore, store_closed, no_forwarding, lemma_closed_same_refs,
    lemma_closed_set_child};
use crate::immix_space::{ImmixSpace, store_ok, lemma_store_ok_same_size};
use crate::allocator::evac_capacity;
use crate::collector::lemma_push_keeps_members;
use crate::measures::{count_matching, not_marked, lemma_count_same, lemma_count_drop,
    lemma_count_new, lemma_store_finite};
use crate::rc_collector::{seq_in_dom, dom_grows};

verus! {

broadcast use vstd::set::group_set_axioms;

/// Popping the front of a sequence keeps every member except possibly the
/// front itself.
proof fn lemma_remove_front_contains(s: Seq<usize>, r: usize)
    requires
        s.len() > 0,
        s.contains(r),
    ensures
        r == s[0] || s.remove(0).contains(r),
{
    let k = choose|k: int| 0 <= k < s.len() && s[k] == r;
    if k > 0 {
        assert(s.remove(0)[k - 1] == r);
    }
}

/// Every object of the region that the trace newly marked is registered as
/// a live object: marking and registration go together.
pub open spec fn newly_marked_registered(
    m1: Map<usize, GcObject>,
    m2: Map<usize, GcObject>,
    om: Set<usize>,
    mark: bool,
    limit: usize,
) -> bool {
    forall|a: usize| #[trigger]
        m1.contains_key(a) && m1[a].mark != mark && m2.contains_key(a) && m2[a].mark == mark && a
            < limit ==> om.contains(a)
}

/// Every child of an object the trace has marked so far is itself marked
/// or still waiting in the queue: the tri-color closure that makes the
/// trace mark everything it can reach.
pub open spec fn trace_closure(
    m1: Map<usize, GcObject>,
    m2: Map<usize, GcObject>,
    queue: Seq<usize>,
    mark: bool,
) -> bool {
    forall|a: usize, i: int|
        m1.contains_key(a) && m1[a].mark != mark && m2.contains_key(a) && m2[a].mark == mark && 0
            <= i < m2[a].children@.len() ==> m2[#[trigger] m2[a].children@[i]].mark == mark
            || queue.contains(m2[a].children@[i])
}

/// The same closure with one object exempted: the object whose children
/// the trace is in the middle of visiting.
pub open spec fn trace_closure_except(
    m1: Map<usize, GcObject>,
    m2: Map<usize, GcObject>,
    queue: Seq<usize>,
    mark: bool,
    ex: usize,
) -> bool {
    forall|a: usize, i: int|
        a != ex && m1.contains_key(a) && m1[a].mark != mark && m2.contains_key(a) && m2[a].mark
            == mark && 0 <= i < m2[a].children@.len() ==> m2[
            #[trigger] m2[a].children@[i]
        ].mark == mark || queue.contains(m2[a].children@[i])
}

/// Every root is already carrying the next mark or still waiting in the
/// trace queue: the invariant that makes the trace mark all roots.
pub open spec fn roots_covered(
    roots: Seq<usize>,
    m: Map<usize, GcObject>,
    queue: Seq<usize>,
    mark: bool,
) -> bool {
    forall|j: int|
        0 <= j < roots.len() ==> m[#[trigger] roots[j]].mark == mark || queue.contains(roots[j])
}

/// The tracing Immix collector: a breadth-first marking pass over the
/// object graph.
pub struct ImmixCollector;

impl ImmixCollector {
    /// Trace the heap from `roots`. The roots are pinned so that no
    /// conservative root moves, then the graph is marked breadth-first with
    /// `next_live_mark`: each object marked for the first time is registered
    /// with the space and its line counts rebuilt; a child that was already
    /// evacuated is rewritten to its forwarding address, an unmarked child
    /// sitting in a candidate block may be evacuated first, and every
    /// unmarked child is queued. The pass ends with the roots unpinned.
    ///
    /// Breadth-first order keeps freshly evacuated objects close to the
    /// front of the queue, so their holders' references are rewritten before
    /// long chains grow stale.
    ///
    /// On return every root carries `next_live_mark` and is unpinned.
    pub fn collect(
        space: &mut ImmixSpace,
        store: &mut ObjectStore,
        perform_evac: bool,
        next_live_mark: bool,
        roots: &Vec<usize>,
    )
        requires
            old(space).wf(),
            store_ok(old(store)@, old(space).limit()),
            store_closed(old(store)@),
            seq_in_dom(roots@, old(store)@),
        ensures
            final(space).wf(),
            final(space).total() == old(space).total(),
            final(space).limit() == old(space).limit(),
            final(space).current_live_mark == old(space).current_live_mark,
            final(space).collector == old(space).collector,
            final(space).evac_allocator.evac_headroom@.len() <= old(
                space,
            ).evac_allocator.evac_headroom@.len(),
            store_ok(final(store)@, final(space).limit()),
            store_closed(final(store)@),
            dom_grows(old(store)@, final(store)@),
            seq_in_dom(roots@, final(store)@),
            forall|j: int|
                0 <= j < roots@.len() ==> final(store)@[#[trigger] roots@[j]].mark
                    == next_live_mark && !final(store)@[roots@[j]].pinned,
            // Marking registers: an object of the region that went from
            // unmarked to marked is in the object map, with its lines
            // rebuilt at the same moment.
            newly_marked_registered(
                old(store)@,
                final(store)@,
                final(space).object_map@,
                next_live_mark,
                old(space).limit(),
            ),
            // Without the evacuation flag the trace moves nothing: no new
            // object bodies appear and no forwarding word is written.
            !perform_evac ==> final(store)@.dom() =~= old(store)@.dom(),
            !perform_evac ==> (forall|a: usize|
                #[trigger] old(store)@.contains_key(a) ==> final(store)@.contains_key(a)
                    && final(store)@[a].forwarded == old(store)@[a].forwarded),
            // The marking fixed point: in a non-evacuating trace over a heap
            // with no forwarding pending, every child of every newly marked
            // object ends marked, so marking is closed under reachability.
            !perform_evac && no_forwarding(old(store)@) ==> trace_closure(
                old(store)@,
                final(store)@,
                Seq::<usize>::empty(),
                next_live_mark,
            ),
    {
        let mut queue: Vec<usize> = Vec::new();
        let mut i: usize = 0;
        while i < roots.len()
            invariant
                space.wf(),
                *space == *old(space),
                store_ok(store@, space.limit()),
                store_closed(store@),
                dom_grows(old(store)@, store@),
                seq_in_dom(roots@, store@),
                i <= roots@.len(),
                queue@ == roots@.subrange(0, i as int),
                newly_marked_registered(
                    old(store)@,
                    store@,
                    space.object_map@,
                    next_live_mark,
                    old(space).limit(),
                ),
                store@.dom() =~= old(store)@.dom(),
                !perform_evac ==> (forall|a: usize|
                    #[trigger] old(store)@.contains_key(a) ==> store@.contains_key(a)
                        && store@[a].forwarded == old(store)@[a].forwarded),
                forall|a: usize|
                    #[trigger] old(store)@.contains_key(a) ==> store@.contains_key(a)
                        && store@[a].mark == old(store)@[a].mark && store@[a].children@ == old(
                        store,
                    )@[a].children@,
            decreases roots@.len() - i,
        {
            let root = roots[i];
            proof {
                let v = crate::gc_object::with_pinned(store@[root], true);
                lemma_store_ok_same_size(store@, root, v, space.limit());
                lemma_closed_same_refs(store@, root, v);
            }
            store.set_pinned(root, true);
            queue.push(root);
            proof {
                assert(queue@ =~= roots@.subrange(0, i as int + 1));
            }
            i = i + 1;
        }
        proof {
            assert(roots@.subrange(0, roots@.len() as int) =~= roots@);
            assert forall|j: int| 0 <= j < roots@.len() implies queue@.contains(
                #[trigger] roots@[j],
            ) by {
                assert(queue@[j] == roots@[j]);
            };
        }
        while queue.len() > 0
            invariant
                space.wf(),
                space.total() == old(space).total(),
                space.limit() == old(space).limit(),
                space.current_live_mark == old(space).current_live_mark,
                space.collector == old(space).collector,
                space.evac_allocator.evac_headroom@.len() <= old(
                    space,
                ).evac_allocator.evac_headroom@.len(),
                store_ok(store@, space.limit()),
                store_closed(store@),
                dom_grows(old(store)@, store@),
                seq_in_dom(roots@, store@),
                seq_in_dom(queue@, store@),
                roots_covered(roots@, store@, queue@, next_live_mark),
                newly_marked_registered(
                    old(store)@,
                    store@,
                    space.object_map@,
                    next_live_mark,
                    old(space).limit(),
                ),
                !perform_evac ==> store@.dom() =~= old(store)@.dom(),
                !perform_evac ==> (forall|a: usize|
                    #[trigger] old(store)@.contains_key(a) ==> store@.contains_key(a)
                        && store@[a].forwarded == old(store)@[a].forwarded),
                !perform_evac && no_forwarding(old(store)@) ==> (forall|a: usize|
                    #[trigger] old(store)@.contains_key(a) ==> store@.contains_key(a)
                        && store@[a].children@ == old(store)@[a].children@),
                !perform_evac && no_forwarding(old(store)@) ==> trace_closure(
                    old(store)@,
                    store@,
                    queue@,
                    next_live_mark,
                ),
                store_closed(old(store)@),
                space.limit() == old(space).limit(),
            decreases
                count_matching(store@, not_marked(next_live_mark)) + evac_capacity(
                    space.evac_allocator,
                ),
                queue@.len(),
        {
            let ghost queue0 = queue@;
            let ghost sum0 = count_matching(store@, not_marked(next_live_mark)) + evac_capacity(
                space.evac_allocator,
            );
            let object = queue.remove(0);
            proof {
                lemma_store_finite(store);
                assert forall|j: int|
                    0 <= j < roots@.len() && store@[#[trigger] roots@[j]].mark != next_live_mark
                        implies roots@[j] == object || queue@.contains(roots@[j]) by {
                    lemma_remove_front_contains(queue0, roots@[j]);
                };
            }
            let ghost m0 = store@;
            let prior = store.set_marked(object, next_live_mark);
            proof {
                let v = crate::gc_object::with_mark(m0[object], next_live_mark);
                if m0[object].mark != next_live_mark {
                    lemma_count_drop(m0, object, v, not_marked(next_live_mark));
                } else {
                    lemma_count_same(m0, object, v, not_marked(next_live_mark));
                }
                lemma_store_ok_same_size(m0, object, v, space.limit());
                lemma_closed_same_refs(m0, object, v);
                if !perform_evac && no_forwarding(old(store)@) {
                    assert forall|a: usize, i: int|
                        a != object && old(store)@.contains_key(a) && old(store)@[a].mark
                            != next_live_mark && store@.contains_key(a) && store@[a].mark
                            == next_live_mark && 0 <= i < store@[a].children@.len()
                            implies store@[#[trigger] store@[a].children@[i]].mark
                            == next_live_mark || queue@.contains(store@[a].children@[i]) by {
                        let c = store@[a].children@[i];
                        assert(m0[a].children@[i] == c);
                        if m0[c].mark != next_live_mark {
                            lemma_remove_front_contains(queue0, c);
                            if c == object {
                                assert(store@[c].mark == next_live_mark);
                            }
                        }
                    };
                }
            }
            if !prior {
                let ghost sum1 = count_matching(store@, not_marked(next_live_mark))
                    + evac_capacity(space.evac_allocator);
                if space.is_in_space(object) {
                    space.set_gc_object(object);
                    space.increment_lines(store, object);
                }
                let mut k: usize = 0;
                while k < store.child_count(object)
                    invariant
                        space.wf(),
                        space.total() == old(space).total(),
                        space.limit() == old(space).limit(),
                        space.current_live_mark == old(space).current_live_mark,
                        space.collector == old(space).collector,
                        space.evac_allocator.evac_headroom@.len() <= old(
                            space,
                        ).evac_allocator.evac_headroom@.len(),
                        store@.contains_key(object),
                        store_ok(store@, space.limit()),
                        store_closed(store@),
                        dom_grows(old(store)@, store@),
                        seq_in_dom(roots@, store@),
                        seq_in_dom(queue@, store@),
                        roots_covered(roots@, store@, queue@, next_live_mark),
                        newly_marked_registered(
                            old(store)@,
                            store@,
                            space.object_map@,
                            next_live_mark,
                            old(space).limit(),
                        ),
                        !perform_evac ==> store@.dom() =~= old(store)@.dom(),
                        !perform_evac ==> (forall|a: usize|
                    #[trigger] old(store)@.contains_key(a) ==> store@.contains_key(a)
                        && store@[a].forwarded == old(store)@[a].forwarded),
                        !perform_evac && no_forwarding(old(store)@) ==> (forall|a: usize|
                            #[trigger] old(store)@.contains_key(a) ==> store@.contains_key(a)
                                && store@[a].children@ == old(store)@[a].children@),
                        !perform_evac && no_forwarding(old(store)@) ==> trace_closure_except(
                            old(store)@,
                            store@,
                            queue@,
                            next_live_mark,
                            object,
                        ),
                        !perform_evac && no_forwarding(old(store)@) ==> (forall|i2: int|
                            0 <= i2 < k as int && i2 < store@[object].children@.len() ==> store@[
                                #[trigger] store@[object].children@[i2]
                            ].mark == next_live_mark || queue@.contains(
                                store@[object].children@[i2],
                            )),
                        !perform_evac && no_forwarding(old(store)@) ==> store@[object].mark
                            == next_live_mark,
                        store_closed(old(store)@),
                        space.limit() == old(space).limit(),
                        count_matching(store@, not_marked(next_live_mark)) + evac_capacity(
                            space.evac_allocator,
                        ) <= sum1,
                    decreases
                        count_matching(store@, not_marked(next_live_mark)) + evac_capacity(
                            space.evac_allocator,
                        ),
                        evac_capacity(space.evac_allocator),
                        (if k as int <= store@[object].children@.len() {
                            store@[object].children@.len() - k
                        } else {
                            0int
                        }),
                {
                    let ghost cap0 = evac_capacity(space.evac_allocator);
                    let ghost cnt0 = count_matching(store@, not_marked(next_live_mark));
                    let ghost clen0 = store@[object].children@.len();
                    let mut child = store.get_child(object, k);
                    match store.forwarded_of(child) {
                        Some(new_child) => {
                            proof {
                                lemma_store_finite(store);
                            }
                            let ghost m1 = store@;
                            store.set_child(object, k, new_child);
                            proof {
                                lemma_count_same(
                                    m1,
                                    object,
                                    store@[object],
                                    not_marked(next_live_mark),
                                );
                                lemma_store_ok_same_size(m1, object, store@[object], space.limit());
                                lemma_closed_set_child(
                                    m1,
                                    object,
                                    store@[object],
                                    k as int,
                                    new_child,
                                );
                                assert forall|j: int|
                                    0 <= j < roots@.len() && m1[#[trigger] roots@[j]].mark
                                        == next_live_mark implies store@[roots@[j]].mark
                                    == next_live_mark by {};
                            }
                        },
                        None => {
                            if !store.is_marked(child, next_live_mark) {
                                if perform_evac {
                                    proof {
                                        lemma_store_finite(store);
                                    }
                                    let ghost m1 = store@;
                                    match space.maybe_evacuate(store, child) {
                                        Some(new_child) => {
                                            proof {
                                                lemma_trace_count_after_evacuate(
                                                    m1,
                                                    store@,
                                                    child,
                                                    new_child,
                                                    next_live_mark,
                                                );
                                            }
                                            if k < store.child_count(object) {
                                                proof {
                                                    lemma_store_finite(store);
                                                }
                                                let ghost m2 = store@;
                                                store.set_child(object, k, new_child);
                                                proof {
                                                    lemma_count_same(
                                                        m2,
                                                        object,
                                                        store@[object],
                                                        not_marked(next_live_mark),
                                                    );
                                                    lemma_store_ok_same_size(
                                                        m2,
                                                        object,
                                                        store@[object],
                                                        space.limit(),
                                                    );
                                                    lemma_closed_set_child(
                                                        m2,
                                                        object,
                                                        store@[object],
                                                        k as int,
                                                        new_child,
                                                    );
                                                }
                                            }
                                            child = new_child;
                                        },
                                        None => {},
                                    }
                                }
                                proof {
                                    lemma_push_keeps_members(queue@, child);
                                }
                                queue.push(child);
                            }
                        },
                    }
                    proof {
                        assert(store@.contains_key(object));
                        assert(count_matching(store@, not_marked(next_live_mark)) + evac_capacity(
                            space.evac_allocator,
                        ) <= cnt0 + cap0);
                    }
                    k = k + 1;
                }
                proof {
                    assert(count_matching(store@, not_marked(next_live_mark)) + evac_capacity(
                        space.evac_allocator,
                    ) <= sum0 - 1);
                }
            }
            proof {
                if !perform_evac && no_forwarding(old(store)@) {
                    assert forall|a: usize, i: int|
                        old(store)@.contains_key(a) && old(store)@[a].mark != next_live_mark
                            && store@.contains_key(a) && store@[a].mark == next_live_mark && 0 <= i
                            < store@[a].children@.len() implies store@[
                        #[trigger] store@[a].children@[i]
                    ].mark == next_live_mark || queue@.contains(store@[a].children@[i]) by {
                        let c = store@[a].children@[i];
                        if a == object && prior {
                            // the entry was already active at the head of
                            // this iteration
                            assert(m0.contains_key(a) && m0[a].mark == next_live_mark);
                            assert(m0[a].children@[i] == c);
                            if m0[c].mark != next_live_mark {
                                lemma_remove_front_contains(queue0, c);
                                if c == object {
                                    assert(store@[c].mark == next_live_mark);
                                }
                            }
                        }
                    };
                }
            }
        }
        let mut i2: usize = 0;
        while i2 < roots.len()
            invariant
                space.wf(),
                space.total() == old(space).total(),
                space.limit() == old(space).limit(),
                space.current_live_mark == old(space).current_live_mark,
                space.collector == old(space).collector,
                space.evac_allocator.evac_headroom@.len() <= old(
                    space,
                ).evac_allocator.evac_headroom@.len(),
                store_ok(store@, space.limit()),
                store_closed(store@),
                dom_grows(old(store)@, store@),
                seq_in_dom(roots@, store@),
                i2 <= roots@.len(),
                forall|j: int|
                    0 <= j < roots@.len() ==> store@[#[trigger] roots@[j]].mark == next_live_mark,
                forall|j: int|
                    0 <= j < i2 as int ==> !store@[#[trigger] roots@[j]].pinned,
                !perform_evac && no_forwarding(old(store)@) ==> trace_closure(
                    old(store)@,
                    store@,
                    Seq::<usize>::empty(),
                    next_live_mark,
                ),
                newly_marked_registered(
                    old(store)@,
                    store@,
                    space.object_map@,
                    next_live_mark,
                    old(space).limit(),
                ),
                !perform_evac ==> store@.dom() =~= old(store)@.dom(),
                !perform_evac ==> (forall|a: usize|
                    #[trigger] old(store)@.contains_key(a) ==> store@.contains_key(a)
                        && store@[a].forwarded == old(store)@[a].forwarded),
                space.limit() == old(space).limit(),
            decreases roots@.len() - i2,
        {
            let root = roots[i2];
            proof {
                let v = crate::gc_object::with_pinned(store@[root], false);
                lemma_store_ok_same_size(store@, root, v, space.limit());
                lemma_closed_same_refs(store@, root, v);
            }
            store.set_pinned(root, false);
            i2 = i2 + 1;
        }
    }
}

/// Bookkeeping for the unmarked-count measure across an evacuation: the new
/// copy may add one unmarked object, but the evacuation itself spent at
/// least one byte of reserve, so the combined measure cannot rise.
proof fn lemma_trace_count_after_evacuate(
    m1: Map<usize, GcObject>,
    m2: Map<usize, GcObject>,
    addr: usize,
    new: usize,
    mark: bool,
)
    requires
        m1.dom().finite(),
        m1.contains_key(addr),
        m2.contains_key(new),
        m2.contains_key(addr),
        m2[addr].mark == m1[addr].mark,
        m2[new].mark == m1[addr].mark,
        m2 == m1.insert(new, m2[new]).insert(addr, m2[addr]),
    ensures
        count_matching(m2, not_marked(mark)) <= count_matching(m1, not_marked(mark)) + 1,
{
    let ma = m1.insert(new, m2[new]);
    if m1.contains_key(new) {
        if (not_marked(mark))(m1[new]) == (not_marked(mark))(m2[new]) {
            lemma_count_same(m1, new, m2[new], not_marked(mark));
        } else if (not_marked(mark))(m1[new]) {
            lemma_count_drop(m1, new, m2[new], not_marked(mark));
        } else {
            lemma_count_new_value(m1, new, m2[new], not_marked(mark));
        }
    } else {
        lemma_count_new(m1, new, m2[new], not_marked(mark));
    }
    assert(ma.dom() =~= m1.dom().insert(new));
    lemma_count_same(ma, addr, m2[addr], not_marked(mark));
}

/// Overwriting a non-matching entry with a matching one raises the count by
/// exactly one.
proof fn lemma_count_new_value(
    m: Map<usize, GcObject>,
    k: usize,
    v: GcObject,
    p: spec_fn(GcObject) -> bool,
)
    requires
        m.dom().finite(),
        m.contains_key(k),
        !p(m[k]),
        p(v),
    ensures
        count_matching(m.insert(k, v), p) == count_matching(m, p) + 1,
{
    let m2 = m.insert(k, v);
    let s1 = m.dom().filter(|a: usize| p(m[a]));
    m.dom().lemma_len_filter(|a: usize| p(m[a]));
    assert(m2.dom().filter(|a: usize| p(m2[a])) =~= s1.insert(k));
    assert(!s1.contains(k));
}

} // verus!
