//! The registry behind tagged trait objects: for each registered type, its
//! resource, the function that reads a value of it back, and its name.
use std::collections::HashMap;
use vstd::prelude::*;

use crate::names::{chars_lt, NameTable};
use crate::TypeKey;

verus! {

broadcast use vstd::std_specs::hash::group_hash_axioms;

/// What a registry holds, as mathematical maps.
pub struct RegistryView<R, D> {
    /// The resource recorded for each type.
    pub impls: Map<TypeKey, R>,
    /// The function that reads back a value of each type.
    pub deserializers: Map<TypeKey, D>,
    /// The type that each name stands for.
    pub names: Map<Seq<char>, TypeKey>,
    /// The name under which each type was last registered.
    pub type_ids: Map<TypeKey, &'static str>,
}

impl<R, D> RegistryView<R, D> {
    /// Every registered type has a resource, a reader and a name; every name
    /// stands for a registered type; every type's name is a known name.
    pub open spec fn wf(self) -> bool {
        &&& self.impls.dom() == self.deserializers.dom()
        &&& self.impls.dom() == self.type_ids.dom()
        &&& forall|n: Seq<char>|
            #[trigger] self.names.contains_key(n) ==> self.impls.contains_key(self.names[n])
        &&& forall|id: TypeKey|
            #[trigger] self.type_ids.contains_key(id) ==> self.names.contains_key(
                self.type_ids[id]@,
            )
    }

    /// The registry after `name` is registered for the type `id`.
    pub open spec fn register(self, name: &'static str, id: TypeKey, resource: R, deserializer: D) -> Self {
        RegistryView {
            impls: self.impls.insert(id, resource),
            deserializers: self.deserializers.insert(id, deserializer),
            names: self.names.insert(name@, id),
            type_ids: self.type_ids.insert(id, name),
        }
    }

    /// The name recorded for a type.
    pub open spec fn name_of(self, id: TypeKey) -> Option<&'static str> {
        self.type_ids.get(id)
    }

    /// The resource recorded for a type.
    pub open spec fn resource_of(self, id: TypeKey) -> Option<R> {
        self.impls.get(id)
    }

    /// The reader recorded for a type.
    pub open spec fn deserializer_of(self, id: TypeKey) -> Option<D> {
        self.deserializers.get(id)
    }

    /// The resource of the type that a name stands for.
    pub open spec fn resource_named(self, name: Seq<char>) -> Option<R> {
        match self.names.get(name) {
            Some(id) => self.impls.get(id),
            None => None,
        }
    }

    /// The reader of the type that a name stands for.
    pub open spec fn deserializer_named(self, name: Seq<char>) -> Option<D> {
        match self.names.get(name) {
            Some(id) => self.deserializers.get(id),
            None => None,
        }
    }
}

/// Registration preserves well-formedness.
pub proof fn lemma_register_wf<R, D>(
    v: RegistryView<R, D>,
    name: &'static str,
    id: TypeKey,
    resource: R,
    deserializer: D,
)
    requires
        v.wf(),
    ensures
        v.register(name, id, resource, deserializer).wf(),
{
    let w = v.register(name, id, resource, deserializer);
    assert(w.impls.dom() =~= w.deserializers.dom());
    assert(w.impls.dom() =~= w.type_ids.dom());
    assert forall|n: Seq<char>| #[trigger] w.names.contains_key(n) implies w.impls.contains_key(
        w.names[n],
    ) by {
        if n != name@ {
            assert(v.names.contains_key(n));
        }
    }
    assert forall|t: TypeKey| #[trigger] w.type_ids.contains_key(t) implies w.names.contains_key(
        w.type_ids[t]@,
    ) by {
        if t != id {
            assert(v.type_ids.contains_key(t));
        }
    }
}

/// What a registration writes is what the lookups read back: the name
/// leads to the new resource and reader, and the type to its new name,
/// resource and reader.
pub proof fn law_register_then_lookup<R, D>(
    v: RegistryView<R, D>,
    name: &'static str,
    id: TypeKey,
    resource: R,
    deserializer: D,
)
    ensures
        ({
            let w = v.register(name, id, resource, deserializer);
            &&& w.resource_named(name@) == Some(resource)
            &&& w.deserializer_named(name@) == Some(deserializer)
            &&& w.name_of(id) == Some(name)
            &&& w.resource_of(id) == Some(resource)
            &&& w.deserializer_of(id) == Some(deserializer)
        }),
{
}

/// A registration leaves every other type as it was, and every other name
/// standing for the type it stood for; a name that stood for the same type
/// now leads to the new resource and reader.
pub proof fn law_register_frame<R, D>(
    v: RegistryView<R, D>,
    name: &'static str,
    id: TypeKey,
    resource: R,
    deserializer: D,
    other_name: Seq<char>,
    other_id: TypeKey,
)
    requires
        other_name != name@,
        other_id != id,
    ensures
        ({
            let w = v.register(name, id, resource, deserializer);
            &&& w.names.get(other_name) == v.names.get(other_name)
            &&& w.name_of(other_id) == v.name_of(other_id)
            &&& w.resource_of(other_id) == v.resource_of(other_id)
            &&& w.deserializer_of(other_id) == v.deserializer_of(other_id)
            &&& w.resource_named(other_name) == (if v.names.get(other_name) == Some(id) {
                Some(resource)
            } else {
                v.resource_named(other_name)
            })
            &&& w.deserializer_named(other_name) == (if v.names.get(other_name) == Some(id) {
                Some(deserializer)
            } else {
                v.deserializer_named(other_name)
            })
        }),
{
}

/// In a well-formed registry every registered name leads to a resource and
/// a reader, and the name recorded for a type is a registered name.
pub proof fn law_names_resolve<R, D>(v: RegistryView<R, D>, name: Seq<char>, id: TypeKey)
    requires
        v.wf(),
    ensures
        v.names.contains_key(name) ==> v.resource_named(name) is Some && v.deserializer_named(
            name,
        ) is Some,
        v.name_of(id) matches Some(n) ==> v.names.contains_key(n@),
        v.resource_of(id) is Some <==> v.name_of(id) is Some,
        v.deserializer_of(id) is Some <==> v.name_of(id) is Some,
{
    if v.names.contains_key(name) {
        assert(v.impls.contains_key(v.names[name]));
        assert(v.impls.dom().contains(v.names[name]));
        assert(v.deserializers.dom().contains(v.names[name]));
    }
    assert(v.impls.dom().contains(id) == v.type_ids.dom().contains(id));
    assert(v.deserializers.dom().contains(id) == v.type_ids.dom().contains(id));
}

/// A registry of types, their resources, readers and names.
#[derive(Debug)]
pub struct Registry<R, D> {
    impls: HashMap<TypeKey, R>,
    deserializers: HashMap<TypeKey, D>,
    names: NameTable,
    type_ids: HashMap<TypeKey, &'static str>,
}

impl<R, D> RegistryView<R, D> {
    /// The registry that holds nothing.
    pub open spec fn empty() -> Self {
        RegistryView {
            impls: Map::empty(),
            deserializers: Map::empty(),
            names: Map::empty(),
            type_ids: Map::empty(),
        }
    }

    /// The registry after each `(name, type, resource, reader)` of `regs` is
    /// registered in turn.
    pub open spec fn register_all(self, regs: Seq<(&'static str, TypeKey, R, D)>) -> Self
        decreases regs.len(),
    {
        if regs.len() == 0 {
            self
        } else {
            let last = regs.last();
            self.register_all(regs.drop_last()).register(last.0, last.1, last.2, last.3)
        }
    }
}

/// The names of a sequence of registrations are pairwise distinct, and so
/// are their types.
pub open spec fn distinct_registrations<R, D>(regs: Seq<(&'static str, TypeKey, R, D)>) -> bool {
    forall|i: int, j: int|
        0 <= i < j < regs.len() ==> (#[trigger] regs[i]).0@ != (#[trigger] regs[j]).0@ && regs[i].1
            != regs[j].1
}

/// After registrations with distinct names and distinct types, starting
/// from an empty registry, names and types correspond one to one: each type
/// has the name it was registered under, each name leads to that type's
/// resource and reader, and the registered names are exactly the names
/// given, one per registration.
pub proof fn law_register_sequence<R, D>(regs: Seq<(&'static str, TypeKey, R, D)>)
    requires
        distinct_registrations(regs),
    ensures
        ({
            let w = RegistryView::<R, D>::empty().register_all(regs);
            &&& w.wf()
            &&& forall|i: int|
                0 <= i < regs.len() ==> {
                    &&& w.name_of((#[trigger] regs[i]).1) == Some(regs[i].0)
                    &&& w.names.get(regs[i].0@) == Some(regs[i].1)
                    &&& w.resource_of(regs[i].1) == Some(regs[i].2)
                    &&& w.deserializer_of(regs[i].1) == Some(regs[i].3)
                    &&& w.resource_named(regs[i].0@) == Some(regs[i].2)
                    &&& w.deserializer_named(regs[i].0@) == Some(regs[i].3)
                }
            &&& forall|n: Seq<char>|
                w.names.contains_key(n) <==> exists|i: int|
                    0 <= i < regs.len() && (#[trigger] regs[i]).0@ == n
            &&& forall|id: TypeKey|
                w.type_ids.contains_key(id) <==> exists|i: int|
                    0 <= i < regs.len() && (#[trigger] regs[i]).1 == id
            &&& w.names.dom().finite()
            &&& w.names.dom().len() == regs.len()
        }),
    decreases regs.len(),
{
    let e = RegistryView::<R, D>::empty();
    if regs.len() == 0 {
        assert(e.impls.dom() =~= e.deserializers.dom());
        assert(e.impls.dom() =~= e.type_ids.dom());
        assert(e.names.dom() =~= Set::<Seq<char>>::empty());
    } else {
        let prev = regs.drop_last();
        let last = regs.last();
        assert forall|i: int, j: int| 0 <= i < j < prev.len() implies (#[trigger] prev[i]).0@
            != (#[trigger] prev[j]).0@ && prev[i].1 != prev[j].1 by {
            assert(prev[i] == regs[i] && prev[j] == regs[j]);
        }
        law_register_sequence(prev);
        let v = e.register_all(prev);
        let w = e.register_all(regs);
        assert(w == v.register(last.0, last.1, last.2, last.3));
        lemma_register_wf(v, last.0, last.1, last.2, last.3);
        let k = regs.len() - 1;
        assert(regs[k] == last);
        assert(!v.names.contains_key(last.0@)) by {
            if v.names.contains_key(last.0@) {
                let i = choose|i: int| 0 <= i < prev.len() && (#[trigger] prev[i]).0@ == last.0@;
                assert(prev[i] == regs[i]);
                assert(regs[i].0@ != regs[k].0@);
            }
        }
        assert(!v.type_ids.contains_key(last.1)) by {
            if v.type_ids.contains_key(last.1) {
                let i = choose|i: int| 0 <= i < prev.len() && (#[trigger] prev[i]).1 == last.1;
                assert(prev[i] == regs[i]);
                assert(regs[i].1 != regs[k].1);
            }
        }
        assert forall|i: int| 0 <= i < regs.len() implies {
            &&& w.name_of((#[trigger] regs[i]).1) == Some(regs[i].0)
            &&& w.names.get(regs[i].0@) == Some(regs[i].1)
            &&& w.resource_of(regs[i].1) == Some(regs[i].2)
            &&& w.deserializer_of(regs[i].1) == Some(regs[i].3)
            &&& w.resource_named(regs[i].0@) == Some(regs[i].2)
            &&& w.deserializer_named(regs[i].0@) == Some(regs[i].3)
        } by {
            if i < k {
                assert(prev[i] == regs[i]);
                assert(regs[i].0@ != regs[k].0@ && regs[i].1 != regs[k].1);
                assert(v.name_of(prev[i].1) == Some(prev[i].0));
                assert(v.names.get(prev[i].0@) == Some(prev[i].1));
                assert(v.resource_of(prev[i].1) == Some(prev[i].2));
                assert(v.deserializer_of(prev[i].1) == Some(prev[i].3));
            }
        }
        assert forall|n: Seq<char>| w.names.contains_key(n) <==> exists|i: int|
            0 <= i < regs.len() && (#[trigger] regs[i]).0@ == n by {
            if w.names.contains_key(n) && n != last.0@ {
                assert(v.names.contains_key(n));
                let i = choose|i: int| 0 <= i < prev.len() && (#[trigger] prev[i]).0@ == n;
                assert(prev[i] == regs[i]);
            }
            if n == last.0@ {
                assert(regs[k].0@ == n);
            }
            if exists|i: int| 0 <= i < regs.len() && (#[trigger] regs[i]).0@ == n {
                let i = choose|i: int| 0 <= i < regs.len() && (#[trigger] regs[i]).0@ == n;
                if i < k {
                    assert(prev[i] == regs[i]);
                    assert(v.names.contains_key(n));
                }
            }
        }
        assert forall|id: TypeKey| w.type_ids.contains_key(id) <==> exists|i: int|
            0 <= i < regs.len() && (#[trigger] regs[i]).1 == id by {
            if w.type_ids.contains_key(id) && id != last.1 {
                assert(v.type_ids.contains_key(id));
                let i = choose|i: int| 0 <= i < prev.len() && (#[trigger] prev[i]).1 == id;
                assert(prev[i] == regs[i]);
            }
            if id == last.1 {
                assert(regs[k].1 == id);
            }
            if exists|i: int| 0 <= i < regs.len() && (#[trigger] regs[i]).1 == id {
                let i = choose|i: int| 0 <= i < regs.len() && (#[trigger] regs[i]).1 == id;
                if i < k {
                    assert(prev[i] == regs[i]);
                    assert(v.type_ids.contains_key(id));
                }
            }
        }
        assert(w.names.dom() =~= v.names.dom().insert(last.0@));
    }
}

/// Names the trait objects that a registry serves.
pub trait Strictest {
    type Object: ?Sized;
}

impl<R, D> View for Registry<R, D> {
    type V = RegistryView<R, D>;

    closed spec fn view(&self) -> RegistryView<R, D> {
        RegistryView {
            impls: self.impls@,
            deserializers: self.deserializers@,
            names: self.names@,
            type_ids: self.type_ids@,
        }
    }
}

impl<R, D: Copy> Registry<R, D> {
    /// Well-formedness of the registry.
    pub closed spec fn wf(&self) -> bool {
        &&& self.names.wf()
        &&& self@.wf()
    }

    /// A well-formed registry holds a consistent view: every name stands
    /// for a registered type, and a type has a resource, a reader and a name
    /// together.
    pub proof fn lemma_wf(&self)
        requires
            self.wf(),
        ensures
            self@.wf(),
    {
    }

    /// The registered names in ascending order.
    pub closed spec fn name_list(&self) -> Seq<Seq<char>> {
        self.names.keys()
    }

    /// The name list holds each registered name once, in ascending order.
    pub proof fn lemma_name_list(&self)
        requires
            self.wf(),
        ensures
            forall|i: int, j: int|
                0 <= i < j < self.name_list().len() ==> chars_lt(
                    #[trigger] self.name_list()[i],
                    #[trigger] self.name_list()[j],
                ),
            forall|k: Seq<char>| self@.names.contains_key(k) <==> self.name_list().contains(k),
            self@.names.dom().len() == self.name_list().len(),
    {
        self.names.lemma_keys();
    }

    /// An empty registry.
    pub fn new() -> (r: Self)
        ensures
            r.wf(),
            r@.impls == Map::<TypeKey, R>::empty(),
            r@.deserializers == Map::<TypeKey, D>::empty(),
            r@.names == Map::<Seq<char>, TypeKey>::empty(),
            r@.type_ids == Map::<TypeKey, &'static str>::empty(),
    {
        let r = Registry {
            impls: HashMap::new(),
            deserializers: HashMap::new(),
            names: NameTable::new(),
            type_ids: HashMap::new(),
        };
        assert(r@.impls.dom() =~= r@.deserializers.dom());
        assert(r@.impls.dom() =~= r@.type_ids.dom());
        r
    }

    /// Registers `name` for the type `id`, with its resource and reader.
    /// What was recorded for `id` before is replaced; the name now stands
    /// for `id`.
    pub fn register(&mut self, name: &'static str, id: TypeKey, resource: R, deserializer: D)
        requires
            old(self).wf(),
        ensures
            final(self).wf(),
            final(self)@ == old(self)@.register(name, id, resource, deserializer),
            final(self).name_list().to_set() == old(self).name_list().to_set().insert(name@),
    {
        proof {
            lemma_register_wf(self@, name, id, resource, deserializer);
            self.names.lemma_keys();
        }
        self.impls.insert(id, resource);
        self.names.insert(name, id);
        self.deserializers.insert(id, deserializer);
        self.type_ids.insert(id, name);
        proof {
            let old_keys = old(self).names.keys();
            if old(self).names@.contains_key(name@) {
                assert(old_keys.contains(name@));
                assert(old_keys.to_set().insert(name@) =~= old_keys.to_set());
            }
        }
    }

    /// The registered names in ascending order.
    pub fn get_names(&self) -> (res: Vec<&'static str>)
        requires
            self.wf(),
        ensures
            res@.len() == self.name_list().len(),
            forall|i: int| 0 <= i < res@.len() ==> (#[trigger] res@[i])@ == self.name_list()[i],
            forall|i: int, j: int|
                0 <= i < j < res@.len() ==> chars_lt((#[trigger] res@[i])@, (#[trigger] res@[j])@),
            forall|k: Seq<char>|
                self@.names.contains_key(k) <==> exists|i: int|
                    0 <= i < res@.len() && (#[trigger] res@[i])@ == k,
    {
        let res = self.names.names();
        proof {
            self.names.lemma_keys();
            assert forall|k: Seq<char>| self@.names.contains_key(k) <==> exists|i: int|
                0 <= i < res@.len() && (#[trigger] res@[i])@ == k by {
                if self@.names.contains_key(k) {
                    assert(self.names@.contains_key(k));
                    assert(self.names.keys().contains(k));
                    let i = choose|i: int|
                        0 <= i < self.names.keys().len() && self.names.keys()[i] == k;
                    assert(res@[i]@ == k);
                }
                if exists|i: int| 0 <= i < res@.len() && (#[trigger] res@[i])@ == k {
                    let i = choose|i: int| 0 <= i < res@.len() && (#[trigger] res@[i])@ == k;
                    assert(self.names.keys()[i] == k);
                    assert(self.names.keys().contains(k));
                }
            }
        }
        res
    }

    /// The resource of the type that `name` stands for.
    pub fn get_by_name(&self, name: &str) -> (res: Option<&R>)
        requires
            self.wf(),
        ensures
            res is Some == self@.resource_named(name@) is Some,
            res matches Some(r) ==> self@.resource_named(name@) == Some(*r),
    {
        let type_id = self.names.get(name)?;
        self.impls.get(&type_id)
    }

    /// The name under which the type `type_id` was registered.
    pub fn get_name(&self, type_id: TypeKey) -> (res: Option<&'static str>)
        requires
            self.wf(),
        ensures
            res == self@.name_of(type_id),
    {
        match self.type_ids.get(&type_id) {
            Some(name) => Some(*name),
            None => None,
        }
    }

    /// The reader of the type `type_id`.
    pub fn get_deserializer(&self, type_id: TypeKey) -> (res: Option<D>)
        requires
            self.wf(),
        ensures
            res == self@.deserializer_of(type_id),
    {
        match self.deserializers.get(&type_id) {
            Some(f) => Some(*f),
            None => None,
        }
    }

    /// The reader of the type that `name` stands for.
    pub fn get_deserializer_by_name(&self, name: &str) -> (res: Option<D>)
        requires
            self.wf(),
        ensures
            res == self@.deserializer_named(name@),
    {
        let type_id = self.names.get(name)?;
        match self.deserializers.get(&type_id) {
            Some(f) => Some(*f),
            None => None,
        }
    }

    /// The resource of the type `type_id`.
    pub fn get(&self, type_id: TypeKey) -> (res: Option<&R>)
        requires
            self.wf(),
        ensures
            res is Some == self@.resource_of(type_id) is Some,
            res matches Some(r) ==> self@.resource_of(type_id) == Some(*r),
    {
        self.impls.get(&type_id)
    }
}

impl<R, D: Copy> Default for Registry<R, D> {
    /// An empty registry.
    fn default() -> (r: Self)
        ensures
            r.wf(),
            r@.impls == Map::<TypeKey, R>::empty(),
            r@.deserializers == Map::<TypeKey, D>::empty(),
            r@.names == Map::<Seq<char>, TypeKey>::empty(),
            r@.type_ids == Map::<TypeKey, &'static str>::empty(),
    {
        Registry::new()
    }
}

} // verus!
