use vstd::prelude::*;

verus! {

/// The header of a heap object, as the collector sees it.
///
/// `children` holds the addresses of the object's outgoing references, `rc`
/// the deferred reference count, `mark` the bi-modal Immix mark bit, and
/// `forwarded` the forwarding address written into an evacuated object's old
/// body. The payload itself is not modelled; `size` is the object's aligned
/// byte size, header included.
pub struct GcObject {
    pub size: usize,
    pub children: Vec<usize>,
    pub rc: u32,
    pub pinned: bool,
    pub logged: bool,
    pub mark: bool,
    pub forwarded: Option<usize>,
}

/// `o` with its logged bit set to `v`.
pub open spec fn with_logged(o: GcObject, v: bool) -> GcObject {
    GcObject {
        size: o.size,
        children: o.children,
        rc: o.rc,
        pinned: o.pinned,
        logged: v,
        mark: o.mark,
        forwarded: o.forwarded,
    }
}

/// `o` with its mark bit set to `m`.
pub open spec fn with_mark(o: GcObject, m: bool) -> GcObject {
    GcObject {
        size: o.size,
        children: o.children,
        rc: o.rc,
        pinned: o.pinned,
        logged: o.logged,
        mark: m,
        forwarded: o.forwarded,
    }
}

/// `o` with its pinned bit set to `v`.
pub open spec fn with_pinned(o: GcObject, v: bool) -> GcObject {
    GcObject {
        size: o.size,
        children: o.children,
        rc: o.rc,
        pinned: v,
        logged: o.logged,
        mark: o.mark,
        forwarded: o.forwarded,
    }
}

/// `o` with its reference count replaced by `rc`.
pub open spec fn with_rc(o: GcObject, rc: u32) -> GcObject {
    GcObject {
        size: o.size,
        children: o.children,
        rc: rc,
        pinned: o.pinned,
        logged: o.logged,
        mark: o.mark,
        forwarded: o.forwarded,
    }
}

/// `o` forwarded to the new address `n`.
pub open spec fn with_forwarded(o: GcObject, n: usize) -> GcObject {
    GcObject {
        size: o.size,
        children: o.children,
        rc: o.rc,
        pinned: o.pinned,
        logged: o.logged,
        mark: o.mark,
        forwarded: Some(n),
    }
}

/// `p` is `o` with child `i` rewritten to `c`.
pub open spec fn child_rewritten(o: GcObject, p: GcObject, i: int, c: usize) -> bool {
    &&& p.size == o.size
    &&& p.children@ == o.children@.update(i, c)
    &&& p.rc == o.rc
    &&& p.pinned == o.pinned
    &&& p.logged == o.logged
    &&& p.mark == o.mark
    &&& p.forwarded == o.forwarded
}

/// `p` is `o` with child `c` appended.
pub open spec fn child_pushed(o: GcObject, p: GcObject, c: usize) -> bool {
    &&& p.size == o.size
    &&& p.children@ == o.children@.push(c)
    &&& p.rc == o.rc
    &&& p.pinned == o.pinned
    &&& p.logged == o.logged
    &&& p.mark == o.mark
    &&& p.forwarded == o.forwarded
}

/// `p` carries the same object body as `o`: everything but the forwarding
/// word.
pub open spec fn same_body(o: GcObject, p: GcObject) -> bool {
    &&& p.size == o.size
    &&& p.children@ == o.children@
    &&& p.rc == o.rc
    &&& p.pinned == o.pinned
    &&& p.logged == o.logged
    &&& p.mark == o.mark
}

/// `p` is the copy evacuation made of `o`: the same body at a fresh address,
/// so in particular not forwarded anywhere yet.
pub open spec fn evac_copy_of(o: GcObject, p: GcObject) -> bool {
    same_body(o, p) && p.forwarded is None
}

/// `p` is `o` left behind after evacuation to `n`: the same body with the
/// forwarding address written into it.
pub open spec fn forwarded_to(o: GcObject, p: GcObject, n: usize) -> bool {
    same_body(o, p) && p.forwarded == Some(n)
}

/// What allocation writes at a fresh address: a bare object of `size` bytes
/// carrying `mark`, with no references out of it yet.
pub open spec fn fresh_object(o: GcObject, size: usize, mark: bool) -> bool {
    &&& o.size == size
    &&& o.children@ == Seq::<usize>::empty()
    &&& o.rc == 0
    &&& !o.pinned
    &&& !o.logged
    &&& o.mark == mark
    &&& o.forwarded is None
}

impl GcObject {
    /// A freshly allocated object: no children yet, a zero reference count,
    /// no flags, and the mark bit set to the allocating space's current live
    /// mark.
    pub fn new(size: usize, mark: bool) -> (o: GcObject)
        ensures
            o.size == size,
            o.children@ == Seq::<usize>::empty(),
            o.rc == 0,
            !o.pinned,
            !o.logged,
            o.mark == mark,
            o.forwarded is None,
    {
        GcObject {
            size,
            children: Vec::new(),
            rc: 0,
            pinned: false,
            logged: false,
            mark,
            forwarded: None,
        }
    }

    /// Saturating reference count increment; reports the 0 to 1 transition,
    /// which is how the collector recognises objects new to it.
    pub fn rc_increment(&mut self) -> (first: bool)
        ensures
            *final(self) == with_rc(
                *old(self),
                if old(self).rc < u32::MAX { (old(self).rc + 1) as u32 } else { u32::MAX },
            ),
            first == (old(self).rc == 0),
    {
        let first = self.rc == 0;
        if self.rc < u32::MAX {
            self.rc = self.rc + 1;
        }
        first
    }

    /// Saturating reference count decrement; reports the drop to zero.
    pub fn rc_decrement(&mut self) -> (zero: bool)
        ensures
            *final(self) == with_rc(
                *old(self),
                if old(self).rc > 0 { (old(self).rc - 1) as u32 } else { 0 },
            ),
            zero == (old(self).rc == 1),
    {
        let was = self.rc;
        if self.rc > 0 {
            self.rc = self.rc - 1;
        }
        was == 1
    }

    /// Set the logged bit and return its prior value. The write barrier uses
    /// the prior value to coalesce repeated modifications of one object.
    pub fn set_logged(&mut self, v: bool) -> (prior: bool)
        ensures
            *final(self) == with_logged(*old(self), v),
            prior == old(self).logged,
    {
        let prior = self.logged;
        self.logged = v;
        prior
    }

    /// True iff the mark bit currently carries the value `mark`.
    pub fn is_marked(&self, mark: bool) -> (r: bool)
        ensures
            r == (self.mark == mark),
    {
        self.mark == mark
    }

    /// Set the mark bit to `mark` and return whether it already carried that
    /// value. The tracing pass processes an object only when this is false.
    pub fn set_marked(&mut self, mark: bool) -> (prior: bool)
        ensures
            *final(self) == with_mark(*old(self), mark),
            prior == (old(self).mark == mark),
    {
        let prior = self.mark == mark;
        self.mark = mark;
        prior
    }
}

} // verus!
