//! Trait objects written out with the name of their type as a tag.
pub mod factory;
pub mod registry;
pub mod tagged;
