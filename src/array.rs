use vstd::prelude::*;

verus! {

/// A read-only, indexable sequence of fixed length, either borrowed or owned.
///
/// A matrix is generic over this capability so that it can either borrow the
/// caller's arrays or own its buffers.
pub trait ArrayLike<T> {
    /// The elements, in order.
    spec fn elems(&self) -> Seq<T>;

    /// Borrows the elements as a slice.
    fn as_items(&self) -> (r: &[T])
        ensures
            r@ == self.elems(),
    ;
}

impl<T> ArrayLike<T> for Vec<T> {
    open spec fn elems(&self) -> Seq<T> {
        self@
    }

    fn as_items(&self) -> (r: &[T]) {
        self.as_slice()
    }
}

impl<'a, T> ArrayLike<T> for &'a [T] {
    open spec fn elems(&self) -> Seq<T> {
        (*self)@
    }

    fn as_items(&self) -> (r: &[T]) {
        *self
    }
}

} // verus!
