use tag_registry::component_factory::FactoryImpl;
use tag_registry::factory::{ErasedResource, ResourceImpl};
use tag_registry::lazy::Registry;

#[derive(Debug)]
struct Dog;

#[derive(Debug)]
struct Cat;

#[test]
fn components_register_and_lookup() {
    let mut r: Registry<u32> = Registry::new();
    r.register("Dog", 1, 10);
    r.register("Cat", 2, 20);
    assert_eq!(r.get_component("Dog"), Some(&10));
    assert_eq!(r.get_component("Cat"), Some(&20));
    assert_eq!(r.get_component("Cow"), None);
    assert_eq!(r.get_component_by_id(2), Some(&20));
    assert_eq!(r.get_component_by_id(3), None);
}

#[test]
fn components_iter_in_name_order() {
    let mut r: Registry<u32> = Registry::default();
    assert!(r.iter().is_empty());
    r.register("Person", 3, 30);
    r.register("Dog", 1, 10);
    r.register("Cat", 2, 20);
    assert_eq!(r.iter(), vec![(2, &20), (1, &10), (3, &30)]);
    assert_eq!(r.get_names(), vec!["Cat", "Dog", "Person"]);
    // A second name for the same type: the type comes once per name.
    r.register("Hound", 1, 11);
    assert_eq!(r.iter(), vec![(2, &20), (1, &11), (1, &11), (3, &30)]);
    assert_eq!(r.get_component("Dog"), Some(&11));
}

#[test]
fn components_hold_boxed_resources() {
    let mut r: Registry<Box<dyn ErasedResource>> = Registry::new();
    r.register("Dog", 1, Box::new(ResourceImpl::<Dog>::new("Dog")));
    r.register("Cat", 2, Box::new(ResourceImpl::<Cat>::new("Cat")));
    let dog = r.get_component("Dog").unwrap();
    assert!(format!("{:?}", dog).contains("\"Dog\""));
    assert_eq!(r.iter().len(), 2);
}

#[test]
fn factory_new_keeps_type() {
    let f: FactoryImpl<Dog> = FactoryImpl::new("Dog");
    let _ = f;
}
