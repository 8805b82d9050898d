//! How a backend resource tells the broker what kind of resource it is.
use vstd::prelude::*;

verus! {

/// A resource that can describe itself.
///
/// The broker compares this description, by exact equality, with what a
/// client asks for, to know which resources may serve the client.
pub trait Describable<D> where D: PartialEq {
    fn describe(&self) -> D;
}

} // verus!
