use vstd::prelude::*;

verus! {

/// A growable sink of values: pushing appends exactly the one value at the
/// end.
pub trait Push<T> {
    /// The values held so far, in insertion order.
    spec fn spec_items(&self) -> Seq<T>;

    fn push(&mut self, value: T)
        ensures
            final(self).spec_items() == old(self).spec_items().push(value),
    ;
}

impl<T> Push<T> for Vec<T> {
    open spec fn spec_items(&self) -> Seq<T> {
        self@
    }

    fn push(&mut self, value: T) {
        self.push(value);
    }
}

} // verus!
