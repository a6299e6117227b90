//! A registry of named types, for tagging values of those types when they
//! are written out and finding them again by tag when they are read back.
use vstd::prelude::*;

pub mod component_factory;
pub mod factory;
pub mod lazy;
pub mod names;
pub mod tag;

verus! {

/// Stands for one type of the program. The registries take distinct keys to
/// stand for distinct types; whoever hands keys in keeps them so.
pub type TypeKey = u64;

} // verus!
