use vstd::prelude::*;
use crate::model::{insert_evicts, insert_result, remove_result, remove_returns};

verus! {

/// The interface shared by bounded first-in, first-out buffers.
pub trait Buffer<T>: Sized where T: Copy {
    /// The live elements, oldest first.
    spec fn contents(&self) -> Seq<T>;

    /// How many elements the buffer holds at most.
    spec fn capacity(&self) -> nat;

    /// The buffer's internal invariant.
    spec fn well_formed(&self) -> bool;

    /// Appends `elem`. A full buffer drops its oldest element to make room
    /// and returns it; otherwise nothing is returned.
    fn push(&mut self, elem: T) -> (evicted: Option<T>)
        requires
            old(self).well_formed(),
        ensures
            final(self).well_formed(),
            final(self).capacity() == old(self).capacity(),
            final(self).contents() == insert_result(old(self).contents(), old(self).capacity(), elem),
            evicted == insert_evicts(old(self).contents(), old(self).capacity()),
            evicted is None ==> final(self).contents().len() == old(self).contents().len() + 1,
            evicted is Some ==> final(self).contents().len() == old(self).contents().len(),
            final(self).contents().len() <= final(self).capacity(),
    ;

    /// Takes out the oldest element, or returns `None` and leaves the
    /// buffer untouched when it is empty.
    fn get(&mut self) -> (r: Option<T>)
        requires
            old(self).well_formed(),
        ensures
            final(self).well_formed(),
            final(self).capacity() == old(self).capacity(),
            final(self).contents() == remove_result(old(self).contents()),
            r == remove_returns(old(self).contents()),
            r is Some ==> final(self).contents().len() == old(self).contents().len() - 1,
            r is None ==> *final(self) == *old(self),
            final(self).contents().len() <= final(self).capacity(),
    ;

    /// Whether the buffer holds as many elements as its capacity.
    fn is_full(&self) -> (r: bool)
        requires
            self.well_formed(),
        ensures
            r == (self.contents().len() == self.capacity()),
    ;

    /// Whether the buffer holds no element.
    fn is_empty(&self) -> (r: bool)
        requires
            self.well_formed(),
        ensures
            r == (self.contents().len() == 0),
    ;
}

} // verus!
