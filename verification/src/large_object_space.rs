use vstd::prelude::*;
use std::collections::HashSet;

verus! {

broadcast use vstd::std_specs::hash::group_hash_axioms;

/// The interface of the large-object space, which allocates and frees its
/// objects outside this crate: the set of addresses it manages, the objects
/// it took in since the last collection, and the queue of objects whose
/// count dropped to zero and that await being given back.
pub struct LargeObjectSpace {
    pub objects: HashSet<usize>,
    pub new_objects: Vec<usize>,
    pub free_queue: Vec<usize>,
}

impl LargeObjectSpace {
    pub fn new() -> (s: LargeObjectSpace)
        ensures
            s.objects@ == Set::<usize>::empty(),
            s.new_objects@ == Seq::<usize>::empty(),
            s.free_queue@ == Seq::<usize>::empty(),
    {
        LargeObjectSpace { objects: HashSet::new(), new_objects: Vec::new(), free_queue: Vec::new() }
    }

    /// Whether `addr` is an object this space manages.
    pub fn is_gc_object(&self, addr: usize) -> (r: bool)
        ensures
            r == self.objects@.contains(addr),
    {
        self.objects.contains(&addr)
    }

    /// Take in an externally allocated large object.
    pub fn register_object(&mut self, addr: usize)
        ensures
            final(self).objects@ == old(self).objects@.insert(addr),
            final(self).new_objects@ == old(self).new_objects@.push(addr),
            final(self).free_queue == old(self).free_queue,
    {
        self.objects.insert(addr);
        self.new_objects.push(addr);
    }

    /// Hand the collector the objects taken in since the last collection.
    pub fn get_new_objects(&mut self) -> (r: Vec<usize>)
        ensures
            r@ == old(self).new_objects@,
            final(self).new_objects@ == Seq::<usize>::empty(),
            final(self).objects == old(self).objects,
            final(self).free_queue == old(self).free_queue,
    {
        let mut r: Vec<usize> = Vec::new();
        r.append(&mut self.new_objects);
        r
    }

    /// Queue an object whose count dropped to zero for the external free.
    pub fn enqueue_free(&mut self, addr: usize)
        ensures
            final(self).free_queue@ == old(self).free_queue@.push(addr),
            final(self).objects == old(self).objects,
            final(self).new_objects == old(self).new_objects,
    {
        self.free_queue.push(addr);
    }

    /// Drain the queue of objects awaiting their external free.
    pub fn take_free_queue(&mut self) -> (r: Vec<usize>)
        ensures
            r@ == old(self).free_queue@,
            final(self).free_queue@ == Seq::<usize>::empty(),
            final(self).objects == old(self).objects,
            final(self).new_objects == old(self).new_objects,
    {
        let mut r: Vec<usize> = Vec::new();
        r.append(&mut self.free_queue);
        r
    }
}

} // verus!
