use vstd::prelude::*;

verus! {

/// A collection of scene objects, kept in the order of insertion.
pub struct Partition<O> {
    objects: Vec<O>,
}

impl<O> View for Partition<O> {
    type V = Seq<O>;

    closed spec fn view(&self) -> Seq<O> {
        self.objects@
    }
}

impl<O> Partition<O> {
    pub fn new() -> (r: Self)
        ensures
            r@ == Seq::<O>::empty(),
    {
        Partition { objects: Vec::new() }
    }

    /// Adds `obj` after the objects already held.
    pub fn insert(&mut self, obj: O)
        ensures
            final(self)@ == old(self)@.push(obj),
    {
        self.objects.push(obj);
    }

    /// All the objects held, in the order of insertion.
    pub fn all_objects(&self) -> (r: &[O])
        ensures
            r@ == self@,
    {
        self.objects.as_slice()
    }
}

} // verus!
