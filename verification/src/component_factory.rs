//! Factories of game components.
use std::marker::PhantomData;
use vstd::prelude::*;

verus! {

/// A component of a game.
pub trait GameComponent {
    fn say(&self);
}

/// The factory of the components of type `T`, under a name.
pub struct FactoryImpl<T> {
    name: &'static str,
    _phantom: PhantomData<T>,
}

impl<T> FactoryImpl<T> {
    /// The name held by the factory.
    pub closed spec fn factory_name(&self) -> &'static str {
        self.name
    }

    /// The factory of `T` under `name`.
    pub fn new(name: &'static str) -> (f: Self)
        ensures
            f.factory_name() == name,
    {
        FactoryImpl { name, _phantom: PhantomData }
    }
}

} // verus!
