//! Arguments that hand over a list of items: a `Vec` or an array.

use vstd::prelude::*;

verus! {

/// A list of items given by value, in order.
pub trait IntoItems<T>: Sized {
    /// The items, in order.
    spec fn items(&self) -> Seq<T>;

    fn into_items(self) -> (v: Vec<T>)
        ensures
            v@ == self.items(),
    ;
}

impl<T> IntoItems<T> for Vec<T> {
    open spec fn items(&self) -> Seq<T> {
        self@
    }

    fn into_items(self) -> (v: Vec<T>) {
        self
    }
}

impl<T, const N: usize> IntoItems<T> for [T; N] {
    open spec fn items(&self) -> Seq<T> {
        self@
    }

    fn into_items(self) -> (v: Vec<T>) {
        array_into_vec(self)
    }
}

/// `Vec::from` on an array: the std documentation states that the vector
/// holds the array's elements in order. Trusted, not proved.
#[verifier::external_body]
fn array_into_vec<T, const N: usize>(a: [T; N]) -> (v: Vec<T>)
    ensures
        v@ == a@,
{
    Vec::from(a)
}

} // verus!
