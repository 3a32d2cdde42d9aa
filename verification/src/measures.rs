use vstd::prelude::*;
use crate::gc_object::GcObject;
use crate::object_store::ObjectStore;

verus! {

broadcast use vstd::set::group_set_axioms, vstd::std_specs::hash::group_hash_axioms;

/// Number of stored objects whose header satisfies `p`.
///
/// The collection loops terminate because each round of extra work pays for
/// itself in one of these counts: an enqueue into the modified buffer takes
/// an object out of the zero-count set, a re-enqueue of children takes one
/// out of the positive-count set, and the trace queue grows only while
/// unmarked, unforwarded objects remain.
pub open spec fn count_matching(m: Map<usize, GcObject>, p: spec_fn(GcObject) -> bool) -> nat {
    m.dom().filter(|a: usize| p(m[a])).len()
}

/// The object still has a zero reference count.
pub open spec fn rc_zero() -> spec_fn(GcObject) -> bool {
    |o: GcObject| o.rc == 0
}

/// The object carries a positive reference count.
pub open spec fn rc_positive() -> spec_fn(GcObject) -> bool {
    |o: GcObject| o.rc != 0
}

/// The object does not carry `mark`.
pub open spec fn not_marked(mark: bool) -> spec_fn(GcObject) -> bool {
    |o: GcObject| o.mark != mark
}

/// The headers a store holds form a finite map.
pub proof fn lemma_store_finite(s: &ObjectStore)
    ensures
        s@.dom().finite(),
{
    s.lemma_view_finite();
}

/// Overwriting an entry with one that satisfies `p` just as (un)much leaves
/// the count unchanged.
pub proof fn lemma_count_same(m: Map<usize, GcObject>, k: usize, v: GcObject, p: spec_fn(GcObject) -> bool)
    requires
        m.dom().finite(),
        m.contains_key(k),
        p(v) == p(m[k]),
    ensures
        count_matching(m.insert(k, v), p) == count_matching(m, p),
{
    let m2 = m.insert(k, v);
    assert(m2.dom().filter(|a: usize| p(m2[a])) =~= m.dom().filter(|a: usize| p(m[a])));
}

/// Overwriting a matching entry with a non-matching one lowers the count by
/// exactly one.
pub proof fn lemma_count_drop(m: Map<usize, GcObject>, k: usize, v: GcObject, p: spec_fn(GcObject) -> bool)
    requires
        m.dom().finite(),
        m.contains_key(k),
        p(m[k]),
        !p(v),
    ensures
        count_matching(m.insert(k, v), p) + 1 == count_matching(m, p),
{
    let m2 = m.insert(k, v);
    let s1 = m.dom().filter(|a: usize| p(m[a]));
    m.dom().lemma_len_filter(|a: usize| p(m[a]));
    assert(m2.dom().filter(|a: usize| p(m2[a])) =~= s1.remove(k));
    assert(s1.contains(k));
}

/// A fresh non-matching entry leaves the count unchanged, and a fresh
/// matching entry raises it by one.
pub proof fn lemma_count_new(m: Map<usize, GcObject>, k: usize, v: GcObject, p: spec_fn(GcObject) -> bool)
    requires
        m.dom().finite(),
        !m.contains_key(k),
    ensures
        !p(v) ==> count_matching(m.insert(k, v), p) == count_matching(m, p),
        p(v) ==> count_matching(m.insert(k, v), p) == count_matching(m, p) + 1,
{
    let m2 = m.insert(k, v);
    let s1 = m.dom().filter(|a: usize| p(m[a]));
    m.dom().lemma_len_filter(|a: usize| p(m[a]));
    if p(v) {
        assert(m2.dom().filter(|a: usize| p(m2[a])) =~= s1.insert(k));
        assert(!s1.contains(k));
    } else {
        assert(m2.dom().filter(|a: usize| p(m2[a])) =~= s1);
    }
}

} // verus!
