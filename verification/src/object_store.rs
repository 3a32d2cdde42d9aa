use vstd::prelude::*;
use std::collections::HashMap;
use crate::gc_object::{GcObject, with_logged, with_mark, with_pinned, with_rc, with_forwarded,
    child_rewritten, child_pushed, evac_copy_of};

verus! {

broadcast use vstd::std_specs::hash::group_hash_axioms;

/// The readable object headers of the heap, keyed by object address.
///
/// This stands for the raw memory of the region: an entry persists until its
/// address is written again (allocation or evacuation overwrite it), exactly
/// as bytes in a reclaimed block stay readable until they are reused. Whether
/// an address is a *live* object is not recorded here but in the space's
/// object map.
pub struct ObjectStore {
    map: HashMap<usize, GcObject>,
}

/// Every object known to the store only refers to addresses the store knows:
/// children and forwarding addresses can always be followed.
pub open spec fn store_closed(m: Map<usize, GcObject>) -> bool {
    forall|a: usize| #[trigger]
        m.contains_key(a) ==> {
            &&& forall|i: int| 0 <= i < m[a].children@.len() ==> m.contains_key(
                #[trigger] m[a].children@[i],
            )
            &&& (m[a].forwarded is Some ==> m.contains_key(m[a].forwarded->0))
        }
}

/// No object in the store carries a forwarding word: the state outside an
/// evacuating collection window.
pub open spec fn no_forwarding(m: Map<usize, GcObject>) -> bool {
    forall|a: usize| #[trigger] m.contains_key(a) ==> m[a].forwarded is None
}

/// An overwrite that keeps an object's outgoing references (children and
/// forwarding word) keeps the store closed.
pub proof fn lemma_closed_same_refs(m: Map<usize, GcObject>, k: usize, v: GcObject)
    requires
        store_closed(m),
        m.contains_key(k),
        v.children@ == m[k].children@,
        v.forwarded == m[k].forwarded,
    ensures
        store_closed(m.insert(k, v)),
{
    let m2 = m.insert(k, v);
    assert forall|a: usize| #[trigger] m2.contains_key(a) implies {
        &&& forall|i: int|
            0 <= i < m2[a].children@.len() ==> m2.contains_key(#[trigger] m2[a].children@[i])
        &&& (m2[a].forwarded matches Some(n) ==> m2.contains_key(n))
    } by {
        assert(m.contains_key(a));
        if a == k {
            assert(m2[a].children@ == m[k].children@);
        }
    };
}

/// Rewriting one child of `k` to an address the store knows keeps the store
/// closed.
pub proof fn lemma_closed_set_child(m: Map<usize, GcObject>, k: usize, v: GcObject, i: int, c: usize)
    requires
        store_closed(m),
        m.contains_key(k),
        m.contains_key(c),
        0 <= i < m[k].children@.len(),
        v.children@ == m[k].children@.update(i, c),
        v.forwarded == m[k].forwarded,
    ensures
        store_closed(m.insert(k, v)),
{
    let m2 = m.insert(k, v);
    assert forall|a: usize| #[trigger] m2.contains_key(a) implies {
        &&& forall|j: int|
            0 <= j < m2[a].children@.len() ==> m2.contains_key(#[trigger] m2[a].children@[j])
        &&& (m2[a].forwarded matches Some(n) ==> m2.contains_key(n))
    } by {
        assert(m.contains_key(a));
        if a == k {
            assert forall|j: int| 0 <= j < m2[a].children@.len() implies m2.contains_key(
                #[trigger] m2[a].children@[j],
            ) by {
                if j == i {
                    assert(m2[a].children@[j] == c);
                } else {
                    assert(m2[a].children@[j] == m[k].children@[j]);
                }
            };
        }
    };
}

impl View for ObjectStore {
    type V = Map<usize, GcObject>;

    closed spec fn view(&self) -> Map<usize, GcObject> {
        self.map@
    }
}

impl ObjectStore {
    /// A store only ever holds finitely many headers.
    pub proof fn lemma_view_finite(&self)
        ensures
            self@.dom().finite(),
    {
        vstd::std_specs::hash::axiom_hashmap_view_finite_dom(self.map);
    }

    /// An empty store: no address holds an object yet.
    pub fn new() -> (s: ObjectStore)
        ensures
            s@ == Map::<usize, GcObject>::empty(),
    {
        ObjectStore { map: HashMap::new() }
    }

    /// Whether `addr` holds a readable object header.
    pub fn contains(&self, addr: usize) -> (r: bool)
        ensures
            r == self@.contains_key(addr),
    {
        self.map.contains_key(&addr)
    }

    /// Write an object header at `addr`, overwriting whatever was there.
    pub fn insert_object(&mut self, addr: usize, o: GcObject)
        ensures
            final(self)@ == old(self)@.insert(addr, o),
    {
        self.map.insert(addr, o);
    }

    /// The byte size of the object at `addr`.
    pub fn size_of(&self, addr: usize) -> (r: usize)
        requires
            self@.contains_key(addr),
        ensures
            r == self@[addr].size,
    {
        match self.map.get(&addr) {
            Some(o) => o.size,
            None => 0,
        }
    }

    /// How many outgoing references the object at `addr` has.
    pub fn child_count(&self, addr: usize) -> (r: usize)
        requires
            self@.contains_key(addr),
        ensures
            r == self@[addr].children@.len(),
    {
        match self.map.get(&addr) {
            Some(o) => o.children.len(),
            None => 0,
        }
    }

    /// The `i`-th outgoing reference of the object at `addr`.
    pub fn get_child(&self, addr: usize, i: usize) -> (r: usize)
        requires
            self@.contains_key(addr),
            i < self@[addr].children@.len(),
        ensures
            r == self@[addr].children@[i as int],
    {
        match self.map.get(&addr) {
            Some(o) => o.children[i],
            None => 0,
        }
    }

    /// The reference count of the object at `addr`.
    pub fn rc_of(&self, addr: usize) -> (r: u32)
        requires
            self@.contains_key(addr),
        ensures
            r == self@[addr].rc,
    {
        match self.map.get(&addr) {
            Some(o) => o.rc,
            None => 0,
        }
    }

    /// Whether the object at `addr` is pinned.
    pub fn is_pinned(&self, addr: usize) -> (r: bool)
        requires
            self@.contains_key(addr),
        ensures
            r == self@[addr].pinned,
    {
        match self.map.get(&addr) {
            Some(o) => o.pinned,
            None => false,
        }
    }

    /// Whether the object at `addr` is logged in the current window.
    pub fn is_logged(&self, addr: usize) -> (r: bool)
        requires
            self@.contains_key(addr),
        ensures
            r == self@[addr].logged,
    {
        match self.map.get(&addr) {
            Some(o) => o.logged,
            None => false,
        }
    }

    /// Whether the mark bit of the object at `addr` carries `mark`.
    pub fn is_marked(&self, addr: usize, mark: bool) -> (r: bool)
        requires
            self@.contains_key(addr),
        ensures
            r == (self@[addr].mark == mark),
    {
        match self.map.get(&addr) {
            Some(o) => o.mark == mark,
            None => false,
        }
    }

    /// The forwarding address of the object at `addr`, if it was evacuated.
    pub fn forwarded_of(&self, addr: usize) -> (r: Option<usize>)
        requires
            self@.contains_key(addr),
        ensures
            r == self@[addr].forwarded,
    {
        match self.map.get(&addr) {
            Some(o) => o.forwarded,
            None => None,
        }
    }

    /// Copy the object body at `addr`, as evacuation does byte for byte into
    /// a fresh address: the copy is not forwarded anywhere.
    pub fn copy_object(&self, addr: usize) -> (o: GcObject)
        requires
            self@.contains_key(addr),
        ensures
            evac_copy_of(self@[addr], o),
    {
        let n = self.child_count(addr);
        let mut children: Vec<usize> = Vec::new();
        let mut i: usize = 0;
        while i < n
            invariant
                self@.contains_key(addr),
                n == self@[addr].children@.len(),
                i <= n,
                children@ == self@[addr].children@.subrange(0, i as int),
            decreases n - i,
        {
            let c = self.get_child(addr, i);
            children.push(c);
            proof {
                assert(children@ =~= self@[addr].children@.subrange(0, i as int + 1));
            }
            i = i + 1;
        }
        proof {
            assert(children@ =~= self@[addr].children@);
        }
        GcObject {
            size: self.size_of(addr),
            children,
            rc: self.rc_of(addr),
            pinned: self.is_pinned(addr),
            logged: self.is_logged(addr),
            mark: self.is_marked(addr, true),
            forwarded: None,
        }
    }

    /// Take the header at `addr` out of the store for in-place update.
    fn take(&mut self, addr: usize) -> (o: GcObject)
        requires
            old(self)@.contains_key(addr),
        ensures
            o == old(self)@[addr],
            final(self)@ == old(self)@.remove(addr),
    {
        match self.map.remove(&addr) {
            Some(o) => o,
            None => GcObject::new(0, false),
        }
    }

    /// Set the logged bit of the object at `addr`; returns the prior value.
    pub fn set_logged(&mut self, addr: usize, v: bool) -> (prior: bool)
        requires
            old(self)@.contains_key(addr),
        ensures
            final(self)@ =~= old(self)@.insert(addr, with_logged(old(self)@[addr], v)),
            prior == old(self)@[addr].logged,
    {
        let mut o = self.take(addr);
        let prior = o.set_logged(v);
        self.map.insert(addr, o);
        prior
    }

    /// Set the mark bit of the object at `addr` to `mark`; returns whether it
    /// already carried that value.
    pub fn set_marked(&mut self, addr: usize, mark: bool) -> (prior: bool)
        requires
            old(self)@.contains_key(addr),
        ensures
            final(self)@ =~= old(self)@.insert(addr, with_mark(old(self)@[addr], mark)),
            prior == (old(self)@[addr].mark == mark),
    {
        let mut o = self.take(addr);
        let prior = o.set_marked(mark);
        self.map.insert(addr, o);
        prior
    }

    /// Set the pinned bit of the object at `addr`.
    pub fn set_pinned(&mut self, addr: usize, v: bool)
        requires
            old(self)@.contains_key(addr),
        ensures
            final(self)@ =~= old(self)@.insert(addr, with_pinned(old(self)@[addr], v)),
    {
        let mut o = self.take(addr);
        o.pinned = v;
        self.map.insert(addr, o);
    }

    /// Saturating reference count increment of the object at `addr`; reports
    /// the 0 to 1 transition.
    pub fn rc_increment(&mut self, addr: usize) -> (first: bool)
        requires
            old(self)@.contains_key(addr),
        ensures
            final(self)@ =~= old(self)@.insert(
                addr,
                with_rc(
                    old(self)@[addr],
                    if old(self)@[addr].rc < u32::MAX {
                        (old(self)@[addr].rc + 1) as u32
                    } else {
                        u32::MAX
                    },
                ),
            ),
            first == (old(self)@[addr].rc == 0),
    {
        let mut o = self.take(addr);
        let first = o.rc_increment();
        self.map.insert(addr, o);
        first
    }

    /// Saturating reference count decrement of the object at `addr`; reports
    /// the drop to zero.
    pub fn rc_decrement(&mut self, addr: usize) -> (zero: bool)
        requires
            old(self)@.contains_key(addr),
        ensures
            final(self)@ =~= old(self)@.insert(
                addr,
                with_rc(
                    old(self)@[addr],
                    if old(self)@[addr].rc > 0 { (old(self)@[addr].rc - 1) as u32 } else { 0 },
                ),
            ),
            zero == (old(self)@[addr].rc == 1),
    {
        let mut o = self.take(addr);
        let zero = o.rc_decrement();
        self.map.insert(addr, o);
        zero
    }

    /// Write the forwarding address of the object at `addr`.
    pub fn set_forwarded(&mut self, addr: usize, n: usize)
        requires
            old(self)@.contains_key(addr),
        ensures
            final(self)@ =~= old(self)@.insert(addr, with_forwarded(old(self)@[addr], n)),
    {
        let mut o = self.take(addr);
        o.forwarded = Some(n);
        self.map.insert(addr, o);
    }

    /// Rewrite the `i`-th outgoing reference of the object at `addr` to `c`.
    pub fn set_child(&mut self, addr: usize, i: usize, c: usize)
        requires
            old(self)@.contains_key(addr),
            i < old(self)@[addr].children@.len(),
        ensures
            final(self)@.contains_key(addr),
            child_rewritten(old(self)@[addr], final(self)@[addr], i as int, c),
            final(self)@ =~= old(self)@.insert(addr, final(self)@[addr]),
    {
        let mut o = self.take(addr);
        o.children.set(i, c);
        self.map.insert(addr, o);
    }

    /// Append an outgoing reference `c` to the object at `addr`.
    pub fn push_child(&mut self, addr: usize, c: usize)
        requires
            old(self)@.contains_key(addr),
            old(self)@[addr].children@.len() < usize::MAX,
        ensures
            final(self)@.contains_key(addr),
            child_pushed(old(self)@[addr], final(self)@[addr], c),
            final(self)@ =~= old(self)@.insert(addr, final(self)@[addr]),
    {
        let mut o = self.take(addr);
        o.children.push(c);
        self.map.insert(addr, o);
    }
}

} // verus!
