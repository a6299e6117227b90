//! How a tagged trait object is written and read back: a value of a
//! registered type is written as a one-entry map from the name of its type
//! to the value; reading takes the first key of that map and finds the
//! reader registered under it.
use vstd::prelude::*;

use crate::tag::registry::{lemma_register_wf, Registry, RegistryView};
use crate::TypeKey;

verus! {

/// The start of the message given for a value whose type is not registered;
/// the name of the trait follows it.
pub const UNREGISTERED_PREFIX: &'static str =
    "Serialization attempted in unregistered type that implements the following trait: ";

/// How a value of a registered type is written: as the newtype variant
/// `variant` of an enum named `name`, at `variant_index`.
#[derive(Debug, Clone, Copy, PartialEq, Eq)]
pub struct TaggedVariant {
    pub name: &'static str,
    pub variant_index: u32,
    pub variant: &'static str,
}

/// Why a value could not be written.
#[derive(Debug, Clone, Copy, PartialEq, Eq)]
pub enum SerializeError {
    /// The value's type is not registered; `trait_name` names the trait
    /// object's trait.
    Unregistered { trait_name: &'static str },
}

impl SerializeError {
    /// The text of the error.
    pub fn message(&self) -> (s: String)
        ensures
            match self {
                SerializeError::Unregistered { trait_name } => s@ == UNREGISTERED_PREFIX@
                    + trait_name@,
            },
    {
        match self {
            SerializeError::Unregistered { trait_name } => {
                let s = String::from_str(UNREGISTERED_PREFIX);
                s.concat(trait_name)
            },
        }
    }
}

/// Why a tagged value could not be read.
#[derive(Debug, PartialEq, Eq)]
pub enum DeserializeError {
    /// The map held no entry: `len` entries were found where one was
    /// expected.
    InvalidLength { len: usize },
    /// No type is registered under the tag `variant`.
    UnknownVariant { variant: String },
}

/// The tag written for a value of the type `id`, or why there is none.
pub open spec fn tag_of<R, D>(v: RegistryView<R, D>, id: TypeKey, trait_name: &'static str) -> Result<
    TaggedVariant,
    SerializeError,
> {
    match v.name_of(id) {
        Some(n) => Ok(TaggedVariant { name: trait_name, variant_index: 0, variant: n }),
        None => Err(SerializeError::Unregistered { trait_name }),
    }
}

/// Decides how a value of the type `type_id`, held as a trait object of the
/// trait `trait_name`, is written: tagged with the name its type was
/// registered under, or refused when its type is not registered.
pub fn serialize<R, D: Copy>(registry: &Registry<R, D>, type_id: TypeKey, trait_name: &'static str) -> (res:
    Result<TaggedVariant, SerializeError>)
    requires
        registry.wf(),
    ensures
        res == tag_of(registry@, type_id, trait_name),
{
    match registry.get_name(type_id) {
        Some(name) => Ok(TaggedVariant { name: trait_name, variant_index: 0, variant: name }),
        None => Err(SerializeError::Unregistered { trait_name }),
    }
}

/// Decides how a tagged value is read, from the first key of its map: the
/// reader registered under that key; an error when the map has no key, or
/// when no type is registered under it.
pub fn deserialize<R, D: Copy>(registry: &Registry<R, D>, key: Option<&str>) -> (res: Result<
    D,
    DeserializeError,
>)
    requires
        registry.wf(),
    ensures
        key is None ==> res == Err::<D, DeserializeError>(DeserializeError::InvalidLength { len: 0 }),
        key matches Some(k) ==> match registry@.deserializer_named(k@) {
            Some(d) => res == Ok::<D, DeserializeError>(d),
            None => res matches Err(DeserializeError::UnknownVariant { variant }) && variant@ == k@,
        },
{
    let key = match key {
        Some(k) => k,
        None => {
            return Err(DeserializeError::InvalidLength { len: 0 });
        },
    };
    match registry.get_deserializer_by_name(key) {
        Some(d) => Ok(d),
        None => Err(DeserializeError::UnknownVariant { variant: key.to_owned() }),
    }
}

/// A value of a type just registered under `name` is written with `name`
/// as its tag, and reading that tag back finds the reader just registered.
pub proof fn law_register_write_read<R, D>(
    v: RegistryView<R, D>,
    name: &'static str,
    id: TypeKey,
    resource: R,
    deserializer: D,
    trait_name: &'static str,
)
    requires
        v.wf(),
    ensures
        ({
            let w = v.register(name, id, resource, deserializer);
            &&& w.wf()
            &&& tag_of(w, id, trait_name) == Ok::<TaggedVariant, SerializeError>(
                TaggedVariant { name: trait_name, variant_index: 0, variant: name },
            )
            &&& w.deserializer_named(name@) == Some(deserializer)
        }),
{
    lemma_register_wf(v, name, id, resource, deserializer);
}

/// Whatever a registry holds, the tag written for a value reads back the
/// reader of the value's own type, unless its name has since been
/// registered for another type.
pub proof fn law_write_read_round_trip<R, D>(
    v: RegistryView<R, D>,
    id: TypeKey,
    trait_name: &'static str,
)
    requires
        v.wf(),
    ensures
        tag_of(v, id, trait_name) matches Ok(tag) ==> tag.name == trait_name && tag.variant_index
            == 0 && (v.names[tag.variant@] == id ==> v.deserializer_named(tag.variant@)
            == v.deserializer_of(id) && v.deserializer_of(id) is Some),
        tag_of(v, id, trait_name) is Err <==> !v.type_ids.contains_key(id),
{
    if v.type_ids.contains_key(id) {
        let n = v.type_ids[id];
        assert(v.names.contains_key(n@));
        assert(v.impls.dom().contains(id));
        assert(v.deserializers.dom().contains(id));
    }
}

} // verus!
