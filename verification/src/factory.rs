//! The resources recorded by the component registry.
use std::marker::PhantomData;
use vstd::prelude::*;

verus! {

/// A type that can be registered as a component.
pub trait Resource: Send + Sync + core::fmt::Debug {}

/// What the component registry records for each registered type.
pub trait ErasedResource: Send + Sync + core::fmt::Debug {}

/// The record of one registered type: the name it was registered under.
#[derive(Debug)]
pub struct ResourceImpl<T> {
    name: &'static str,
    _phantom: PhantomData<T>,
}

impl<T> ResourceImpl<T> {
    /// The name held by the record.
    pub closed spec fn registered_name(&self) -> &'static str {
        self.name
    }

    /// The record of the type `T` under `name`.
    pub fn new(name: &'static str) -> (r: Self)
        ensures
            r.registered_name() == name,
    {
        ResourceImpl { name, _phantom: PhantomData }
    }
}

impl<T: Send + Sync + core::fmt::Debug> ErasedResource for ResourceImpl<T> {}

} // verus!
