//! Shared application data.
use vstd::prelude::*;
use std::sync::Arc;

verus! {

/// Application data shared by reference counting.
#[verifier::reject_recursive_types(T)]
#[derive(Debug)]
pub struct Data<T: ?Sized>(Arc<T>);

/// A new pointer to the same shared value.
#[verifier::external_body]
fn share<T: ?Sized>(arc: &Arc<T>) -> (r: Arc<T>)
    ensures
        r == *arc,
{
    Arc::clone(arc)
}

impl<T> Data<T> {
    /// Create new `Data` instance.
    pub fn new(state: T) -> (r: Data<T>)
        ensures
            *r.arc() == state,
    {
        Data(Arc::new(state))
    }
}

impl<T: ?Sized> Data<T> {
    /// The shared pointer that the data holds.
    pub closed spec fn arc(&self) -> Arc<T> {
        self.0
    }

    /// Returns reference to inner `T`.
    pub fn get_ref(&self) -> (r: &T)
        ensures
            r == &*self.arc(),
    {
        &*self.0
    }

    /// Unwraps to the internal `Arc<T>`
    pub fn into_inner(self) -> (r: Arc<T>)
        ensures
            r == self.arc(),
    {
        self.0
    }
}

impl<T: ?Sized> std::ops::Deref for Data<T> {
    type Target = Arc<T>;

    fn deref(&self) -> (r: &Arc<T>)
        ensures
            *r == self.arc(),
    {
        &self.0
    }
}

impl<T: ?Sized> Clone for Data<T> {
    fn clone(&self) -> (r: Data<T>)
        ensures
            r.arc() == self.arc(),
    {
        Data(share(&self.0))
    }
}

impl<T: ?Sized> From<Arc<T>> for Data<T> {
    fn from(arc: Arc<T>) -> (r: Data<T>)
        ensures
            r.arc() == arc,
    {
        Data(arc)
    }
}

impl<T: Default> Default for Data<T> {
    /// Data holding the default value of `T`.
    fn default() -> (r: Data<T>)
        ensures
            call_ensures(T::default, (), *r.arc()),
    {
        Data::new(T::default())
    }
}

impl<T: ?Sized> vstd::std_specs::convert::FromSpecImpl<Arc<T>> for Data<T> {
    open spec fn obeys_from_spec() -> bool {
        true
    }

    closed spec fn from_spec(arc: Arc<T>) -> Data<T> {
        Data(arc)
    }
}

} // verus!
