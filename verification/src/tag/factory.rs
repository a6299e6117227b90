//! Marker traits for the resources of the tagged registry.
use std::marker::PhantomData;
use vstd::prelude::*;

verus! {

/// A type whose values can be held as tagged trait objects.
pub trait Resource: Send + Sync {}

/// What the tagged registry records for each registered type.
pub trait ErasedResource: Send + Sync {}

/// The record of one registered type; it holds nothing but the type.
pub struct ResourceImpl<T> {
    _phantom: PhantomData<T>,
}

impl<T> ResourceImpl<T> {
    /// The one record of the type `T`.
    pub closed spec fn record() -> Self {
        ResourceImpl { _phantom: PhantomData }
    }

    /// The record of the type `T`; the name it is registered under is kept
    /// by the registry, not here, so every name gives the same record.
    pub fn new(_name: &'static str) -> (r: Self)
        ensures
            r == Self::record(),
    {
        ResourceImpl { _phantom: PhantomData }
    }
}

impl<T: Send + Sync> ErasedResource for ResourceImpl<T> {}

} // verus!
