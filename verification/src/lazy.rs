//! The component registry: for each registered type, its resource, and the
//! names under which types were registered.
use std::collections::HashMap;
use vstd::prelude::*;

use crate::names::{chars_lt, NameTable};
use crate::TypeKey;

verus! {

broadcast use vstd::std_specs::hash::group_hash_axioms;

/// What a component registry holds, as mathematical maps.
pub struct ComponentsView<R> {
    /// The resource recorded for each type.
    pub impls: Map<TypeKey, R>,
    /// The type that each name stands for.
    pub names: Map<Seq<char>, TypeKey>,
}

impl<R> ComponentsView<R> {
    /// Every name stands for a type that has a resource.
    pub open spec fn wf(self) -> bool {
        forall|n: Seq<char>|
            #[trigger] self.names.contains_key(n) ==> self.impls.contains_key(self.names[n])
    }

    /// The registry after `name` is registered for the type `id`.
    pub open spec fn register(self, name: &'static str, id: TypeKey, resource: R) -> Self {
        ComponentsView { impls: self.impls.insert(id, resource), names: self.names.insert(name@, id) }
    }

    /// The resource of the type that a name stands for.
    pub open spec fn component_named(self, name: Seq<char>) -> Option<R> {
        match self.names.get(name) {
            Some(id) => self.impls.get(id),
            None => None,
        }
    }
}

/// Registration preserves well-formedness.
pub proof fn lemma_register_components_wf<R>(
    v: ComponentsView<R>,
    name: &'static str,
    id: TypeKey,
    resource: R,
)
    requires
        v.wf(),
    ensures
        v.register(name, id, resource).wf(),
{
    let w = v.register(name, id, resource);
    assert forall|n: Seq<char>| #[trigger] w.names.contains_key(n) implies w.impls.contains_key(
        w.names[n],
    ) by {
        if n != name@ {
            assert(v.names.contains_key(n));
        }
    }
}

/// What a registration writes is what the lookups read back, and every
/// other name and type is left as it was, but for names that stood for the
/// same type, which now lead to the new resource.
pub proof fn law_register_components<R>(
    v: ComponentsView<R>,
    name: &'static str,
    id: TypeKey,
    resource: R,
    other_name: Seq<char>,
    other_id: TypeKey,
)
    ensures
        ({
            let w = v.register(name, id, resource);
            &&& w.component_named(name@) == Some(resource)
            &&& w.impls.get(id) == Some(resource)
            &&& other_id != id ==> w.impls.get(other_id) == v.impls.get(other_id)
            &&& other_name != name@ ==> w.names.get(other_name) == v.names.get(other_name)
            &&& other_name != name@ ==> w.component_named(other_name) == (if v.names.get(
                other_name,
            ) == Some(id) {
                Some(resource)
            } else {
                v.component_named(other_name)
            })
        }),
{
}

/// In a well-formed registry every registered name leads to a resource.
pub proof fn law_components_resolve<R>(v: ComponentsView<R>, name: Seq<char>)
    requires
        v.wf(),
    ensures
        v.names.contains_key(name) <==> v.component_named(name) is Some,
{
    if v.names.contains_key(name) {
        assert(v.impls.contains_key(v.names[name]));
    }
}

impl<R> ComponentsView<R> {
    /// The registry that holds nothing.
    pub open spec fn empty() -> Self {
        ComponentsView { impls: Map::empty(), names: Map::empty() }
    }

    /// The registry after each `(name, type, resource)` of `regs` is
    /// registered in turn.
    pub open spec fn register_all(self, regs: Seq<(&'static str, TypeKey, R)>) -> Self
        decreases regs.len(),
    {
        if regs.len() == 0 {
            self
        } else {
            let last = regs.last();
            self.register_all(regs.drop_last()).register(last.0, last.1, last.2)
        }
    }
}

/// After any registrations, starting from an empty registry, a name leads
/// to a resource exactly when some registration used it, and then to the
/// resource of the type it stands for.
pub proof fn law_register_components_sequence<R>(regs: Seq<(&'static str, TypeKey, R)>)
    ensures
        ({
            let w = ComponentsView::<R>::empty().register_all(regs);
            &&& w.wf()
            &&& forall|n: Seq<char>|
                w.names.contains_key(n) <==> exists|i: int|
                    0 <= i < regs.len() && (#[trigger] regs[i]).0@ == n
            &&& forall|n: Seq<char>| w.component_named(n) is Some <==> w.names.contains_key(n)
            &&& forall|n: Seq<char>|
                w.names.contains_key(n) ==> w.component_named(n) == w.impls.get(w.names[n])
        }),
    decreases regs.len(),
{
    let e = ComponentsView::<R>::empty();
    let w = e.register_all(regs);
    if regs.len() > 0 {
        let prev = regs.drop_last();
        let last = regs.last();
        let k = regs.len() - 1;
        law_register_components_sequence(prev);
        let v = e.register_all(prev);
        lemma_register_components_wf(v, last.0, last.1, last.2);
        assert(regs[k] == last);
        assert forall|n: Seq<char>| w.names.contains_key(n) <==> exists|i: int|
            0 <= i < regs.len() && (#[trigger] regs[i]).0@ == n by {
            if w.names.contains_key(n) && n != last.0@ {
                assert(v.names.contains_key(n));
                let i = choose|i: int| 0 <= i < prev.len() && (#[trigger] prev[i]).0@ == n;
                assert(prev[i] == regs[i]);
            }
            if exists|i: int| 0 <= i < regs.len() && (#[trigger] regs[i]).0@ == n {
                let i = choose|i: int| 0 <= i < regs.len() && (#[trigger] regs[i]).0@ == n;
                if i < k {
                    assert(prev[i] == regs[i]);
                    assert(v.names.contains_key(n));
                }
            }
        }
    }
    assert forall|n: Seq<char>| w.component_named(n) is Some <==> w.names.contains_key(n) by {
        if w.names.contains_key(n) {
            assert(w.impls.contains_key(w.names[n]));
        }
    }
}

/// A registry of types and their resources, found by name or by type.
#[derive(Debug)]
pub struct Registry<R> {
    impls: HashMap<TypeKey, R>,
    names: NameTable,
}

impl<R> View for Registry<R> {
    type V = ComponentsView<R>;

    closed spec fn view(&self) -> ComponentsView<R> {
        ComponentsView { impls: self.impls@, names: self.names@ }
    }
}

impl<R> Registry<R> {
    /// Well-formedness of the registry.
    pub closed spec fn wf(&self) -> bool {
        &&& self.names.wf()
        &&& self@.wf()
    }

    /// A well-formed registry holds a consistent view: every name stands
    /// for a type that has a resource.
    pub proof fn lemma_wf(&self)
        requires
            self.wf(),
        ensures
            self@.wf(),
    {
    }

    /// The registered names in ascending order.
    pub closed spec fn name_list(&self) -> Seq<Seq<char>> {
        self.names.keys()
    }

    /// The name list holds each registered name once, in ascending order.
    pub proof fn lemma_name_list(&self)
        requires
            self.wf(),
        ensures
            forall|i: int, j: int|
                0 <= i < j < self.name_list().len() ==> chars_lt(
                    #[trigger] self.name_list()[i],
                    #[trigger] self.name_list()[j],
                ),
            forall|k: Seq<char>| self@.names.contains_key(k) <==> self.name_list().contains(k),
            self@.names.dom().len() == self.name_list().len(),
    {
        self.names.lemma_keys();
    }

    /// An empty registry.
    pub fn new() -> (r: Self)
        ensures
            r.wf(),
            r@.impls == Map::<TypeKey, R>::empty(),
            r@.names == Map::<Seq<char>, TypeKey>::empty(),
    {
        Registry { impls: HashMap::new(), names: NameTable::new() }
    }

    /// The resources in the order of the names, each with its type; a type
    /// registered under several names comes once for each of them.
    pub fn iter(&self) -> (res: Vec<(TypeKey, &R)>)
        requires
            self.wf(),
        ensures
            res@.len() == self.name_list().len(),
            forall|i: int|
                0 <= i < res@.len() ==> {
                    &&& (#[trigger] res@[i]).0 == self@.names[self.name_list()[i]]
                    &&& self@.impls.contains_key(res@[i].0)
                    &&& *res@[i].1 == self@.impls[res@[i].0]
                },
    {
        proof {
            self.names.lemma_keys();
        }
        let ids = self.names.keys_in_order();
        let mut res: Vec<(TypeKey, &R)> = Vec::new();
        let n = ids.len();
        for i in 0..n
            invariant
                self.wf(),
                n == ids@.len(),
                ids@.len() == self.name_list().len(),
                forall|j: int|
                    0 <= j < ids@.len() ==> #[trigger] ids@[j] == self@.names[self.name_list()[j]],
                forall|j: int|
                    0 <= j < self.name_list().len() ==> self@.names.contains_key(
                        #[trigger] self.name_list()[j],
                    ),
                res@.len() == i,
                forall|j: int|
                    0 <= j < i ==> {
                        &&& (#[trigger] res@[j]).0 == self@.names[self.name_list()[j]]
                        &&& self@.impls.contains_key(res@[j].0)
                        &&& *res@[j].1 == self@.impls[res@[j].0]
                    },
        {
            let id = ids[i];
            proof {
                assert(self@.names.contains_key(self.name_list()[i as int]));
            }
            match self.impls.get(&id) {
                Some(r) => {
                    res.push((id, r));
                },
                None => {},
            }
        }
        res
    }

    /// Registers `name` for the type `id` with its resource. What was
    /// recorded for `id` before is replaced; the name now stands for `id`.
    pub fn register(&mut self, name: &'static str, id: TypeKey, resource: R)
        requires
            old(self).wf(),
        ensures
            final(self).wf(),
            final(self)@ == old(self)@.register(name, id, resource),
            final(self).name_list().to_set() == old(self).name_list().to_set().insert(name@),
    {
        proof {
            lemma_register_components_wf(self@, name, id, resource);
            self.names.lemma_keys();
        }
        self.impls.insert(id, resource);
        self.names.insert(name, id);
        proof {
            let old_keys = old(self).names.keys();
            if old(self).names@.contains_key(name@) {
                assert(old_keys.contains(name@));
                assert(old_keys.to_set().insert(name@) =~= old_keys.to_set());
            }
        }
    }

    /// The registered names in ascending order, as the registry shows them.
    pub fn get_names(&self) -> (res: Vec<&'static str>)
        requires
            self.wf(),
        ensures
            res@.len() == self.name_list().len(),
            forall|i: int| 0 <= i < res@.len() ==> (#[trigger] res@[i])@ == self.name_list()[i],
            forall|i: int, j: int|
                0 <= i < j < res@.len() ==> chars_lt((#[trigger] res@[i])@, (#[trigger] res@[j])@),
            forall|k: Seq<char>|
                self@.names.contains_key(k) <==> exists|i: int|
                    0 <= i < res@.len() && (#[trigger] res@[i])@ == k,
    {
        let res = self.names.names();
        proof {
            self.names.lemma_keys();
            assert forall|k: Seq<char>| self@.names.contains_key(k) <==> exists|i: int|
                0 <= i < res@.len() && (#[trigger] res@[i])@ == k by {
                if self@.names.contains_key(k) {
                    assert(self.names@.contains_key(k));
                    assert(self.names.keys().contains(k));
                    let i = choose|i: int|
                        0 <= i < self.names.keys().len() && self.names.keys()[i] == k;
                    assert(res@[i]@ == k);
                }
                if exists|i: int| 0 <= i < res@.len() && (#[trigger] res@[i])@ == k {
                    let i = choose|i: int| 0 <= i < res@.len() && (#[trigger] res@[i])@ == k;
                    assert(self.names.keys()[i] == k);
                    assert(self.names.keys().contains(k));
                }
            }
        }
        res
    }

    /// The resource of the type that `name` stands for.
    pub fn get_component(&self, name: &str) -> (res: Option<&R>)
        requires
            self.wf(),
        ensures
            res is Some == self@.component_named(name@) is Some,
            res matches Some(r) ==> self@.component_named(name@) == Some(*r),
    {
        let type_id = self.names.get(name)?;
        self.impls.get(&type_id)
    }

    /// The resource of the type `type_id`.
    pub fn get_component_by_id(&self, type_id: TypeKey) -> (res: Option<&R>)
        requires
            self.wf(),
        ensures
            res is Some == self@.impls.contains_key(type_id),
            res matches Some(r) ==> self@.impls[type_id] == *r,
    {
        self.impls.get(&type_id)
    }
}

impl<R> Default for Registry<R> {
    /// An empty registry.
    fn default() -> (r: Self)
        ensures
            r.wf(),
            r@.impls == Map::<TypeKey, R>::empty(),
            r@.names == Map::<Seq<char>, TypeKey>::empty(),
    {
        Registry::new()
    }
}

} // verus!
