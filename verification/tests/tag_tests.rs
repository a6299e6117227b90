use tag_registry::tag::factory::ResourceImpl;
use tag_registry::tag::registry::Registry;
use tag_registry::tag::tagged::{
    deserialize, serialize, DeserializeError, SerializeError, TaggedVariant, UNREGISTERED_PREFIX,
};

fn sample() -> Registry<&'static str, u32> {
    let mut r: Registry<&'static str, u32> = Registry::new();
    r.register("Dog", 10, "dog resource", 100);
    r.register("Person", 20, "person resource", 200);
    r.register("Cat", 30, "cat resource", 300);
    r
}

#[test]
fn register_then_lookup() {
    let r = sample();
    assert_eq!(r.get_names(), vec!["Cat", "Dog", "Person"]);
    assert_eq!(r.get_name(10), Some("Dog"));
    assert_eq!(r.get_name(30), Some("Cat"));
    assert_eq!(r.get_name(40), None);
    assert_eq!(r.get_deserializer(20), Some(200));
    assert_eq!(r.get_deserializer(21), None);
    assert_eq!(r.get_deserializer_by_name("Cat"), Some(300));
    assert_eq!(r.get_deserializer_by_name("Cow"), None);
    assert_eq!(r.get_by_name("Person"), Some(&"person resource"));
    assert_eq!(r.get_by_name("person"), None);
    assert_eq!(r.get(10), Some(&"dog resource"));
    assert_eq!(r.get(11), None);
}

#[test]
fn new_and_default_are_empty() {
    let r: Registry<u8, u8> = Registry::new();
    assert!(r.get_names().is_empty());
    assert_eq!(r.get(0), None);
    let d: Registry<u8, u8> = Registry::default();
    assert!(d.get_names().is_empty());
    assert_eq!(d.get_name(0), None);
}

#[test]
fn register_same_type_under_new_name() {
    let mut r = sample();
    r.register("Hound", 10, "hound resource", 101);
    assert_eq!(r.get_names(), vec!["Cat", "Dog", "Hound", "Person"]);
    assert_eq!(r.get_name(10), Some("Hound"));
    // The old name still stands for the type, whose records were replaced.
    assert_eq!(r.get_deserializer_by_name("Dog"), Some(101));
    assert_eq!(r.get_by_name("Dog"), Some(&"hound resource"));
}

#[test]
fn register_new_type_under_taken_name() {
    let mut r = sample();
    r.register("Dog", 11, "wolf resource", 110);
    assert_eq!(r.get_names(), vec!["Cat", "Dog", "Person"]);
    assert_eq!(r.get_deserializer_by_name("Dog"), Some(110));
    assert_eq!(r.get_name(11), Some("Dog"));
    // The first type keeps its records.
    assert_eq!(r.get_name(10), Some("Dog"));
    assert_eq!(r.get_deserializer(10), Some(100));
}

#[test]
fn serialize_registered_type() {
    let r = sample();
    assert_eq!(
        serialize(&r, 20, "dyn Resource"),
        Ok(TaggedVariant { name: "dyn Resource", variant_index: 0, variant: "Person" })
    );
}

#[test]
fn serialize_unregistered_type() {
    let r = sample();
    let e = serialize(&r, 99, "dyn crate::Resource").unwrap_err();
    assert_eq!(e, SerializeError::Unregistered { trait_name: "dyn crate::Resource" });
    assert_eq!(
        e.message(),
        "Serialization attempted in unregistered type that implements the following trait: dyn crate::Resource"
    );
    assert!(e.message().starts_with(UNREGISTERED_PREFIX));
}

#[test]
fn deserialize_decisions() {
    let r = sample();
    assert_eq!(deserialize(&r, None), Err(DeserializeError::InvalidLength { len: 0 }));
    assert_eq!(
        deserialize(&r, Some("Horse")),
        Err(DeserializeError::UnknownVariant { variant: "Horse".to_string() })
    );
    assert_eq!(deserialize(&r, Some("Dog")), Ok(100));
}

#[test]
fn write_then_read_round_trip() {
    let mut r = sample();
    r.register("Cow", 40, "cow resource", 400);
    let tag = serialize(&r, 40, "dyn Resource").unwrap();
    assert_eq!(tag.variant, "Cow");
    assert_eq!(deserialize(&r, Some(tag.variant)), Ok(400));
    for id in [10u64, 20, 30, 40] {
        let tag = serialize(&r, id, "T").unwrap();
        assert_eq!(deserialize(&r, Some(tag.variant)), Ok(r.get_deserializer(id).unwrap()));
    }
}

#[test]
fn tag_resource_impl_new() {
    let a: ResourceImpl<u32> = ResourceImpl::new("u32");
    let b: ResourceImpl<u32> = ResourceImpl::new("another name");
    // The record holds no name: every name gives the same, empty record.
    assert_eq!(std::mem::size_of_val(&a), 0);
    assert_eq!(std::mem::size_of_val(&b), 0);
    assert_eq!(std::mem::size_of::<ResourceImpl<String>>(), 0);
}
