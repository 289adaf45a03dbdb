//! Two handles on one stream, one for each direction.

use std::sync::Arc;
use vstd::prelude::*;

verus! {

/// The reading handle.
#[derive(Debug)]
pub struct ReadHalf<T>(pub Arc<T>);

/// The writing handle.
#[derive(Debug)]
pub struct WriteHalf<T>(pub Arc<T>);

/// `Arc::clone`: a second pointer to the same value.
#[verifier::external_body]
fn share<T>(item: &Arc<T>) -> (other: Arc<T>)
    ensures
        other == *item,
{
    Arc::clone(item)
}

/// Splits `item` into a reading and a writing handle, both on `item`.
pub fn split<T>(item: T) -> (halves: (ReadHalf<T>, WriteHalf<T>))
    ensures
        *halves.0.0 == item,
        *halves.1.0 == item,
{
    let inner = Arc::new(item);
    (ReadHalf(share(&inner)), WriteHalf(inner))
}

impl<T> ReadHalf<T> {
    /// The stream that this handle reads.
    pub fn get_ref(&self) -> (item: &T)
        ensures
            *item == *self.0,
    {
        &*self.0
    }
}

impl<T> WriteHalf<T> {
    /// The stream that this handle writes.
    pub fn get_ref(&self) -> (item: &T)
        ensures
            *item == *self.0,
    {
        &*self.0
    }
}

} // verus!
