//! The world: one entity store, one resource store and one system registry
//! behind a single interface.
use std::any::TypeId;
use vstd::prelude::*;

use crate::bits::MAX_COMPONENT_TYPES;
use crate::custom_errors::CustomErrors;
use crate::entities::Entities;
use crate::query::{lists_holders, Query, QueryEntity};
use crate::resources::Resources;
use crate::systems::{accepts_any, Systems};

verus! {

/// Entities with components of type `C`, resources of type `R`, and systems of type `F`.
pub struct World<C, R, F> {
    /// The resources of the world.
    resources: Resources<R>,
    /// The entities of the world and their components.
    entities: Entities<C>,
    /// The systems of the world.
    systems: Systems<F>,
}

impl<C, R, F> World<C, R, F> {
    /// The entity store.
    pub closed spec fn entity_store(&self) -> Entities<C> {
        self.entities
    }

    /// The resource store.
    pub closed spec fn resource_store(&self) -> Resources<R> {
        self.resources
    }

    /// The system registry.
    pub closed spec fn system_registry(&self) -> Systems<F> {
        self.systems
    }

    /// The world's invariant: each of its parts is well formed.
    pub open spec fn wf(&self) -> bool {
        &&& self.entity_store().wf()
        &&& self.resource_store().wf()
        &&& self.system_registry().wf()
    }

    /// An empty world.
    pub fn new() -> (r: Self)
        ensures
            r.wf(),
            r.entity_store().kinds() == Seq::<TypeId>::empty(),
            r.entity_store().memberships() == Seq::<u32>::empty(),
            r.entity_store().building() is None,
            r.resource_store()@ == Map::<TypeId, R>::empty(),
            r.system_registry().functions() == Seq::<Option<F>>::empty(),
            r.system_registry().components() == Seq::<Seq<TypeId>>::empty(),
            r.system_registry().resources() == Seq::<Seq<TypeId>>::empty(),
            r.system_registry().building() is None,
    {
        World { resources: Resources::new(), entities: Entities::new(), systems: Systems::new() }
    }

    /// Stores `resource_data` as the resource of type `key`, replacing any earlier one.
    pub fn add_resource(&mut self, key: TypeId, resource_data: R)
        requires
            old(self).wf(),
        ensures
            final(self).wf(),
            final(self).resource_store()@ == old(self).resource_store()@.insert(key, resource_data),
            final(self).entity_store() == old(self).entity_store(),
            final(self).system_registry() == old(self).system_registry(),
    {
        self.resources.add(key, resource_data);
    }

    /// The resource of type `key`, if there is one.
    pub fn get_resource(&self, key: TypeId) -> (r: Option<&R>)
        requires
            self.wf(),
        ensures
            r is Some <==> self.resource_store()@.contains_key(key),
            r is Some ==> *r->Some_0 == self.resource_store()@[key],
    {
        self.resources.get_ref(key)
    }

    /// Exclusive access to the resource of type `key`, if there is one.
    pub fn get_resource_mut(&mut self, key: TypeId) -> (r: Option<&mut R>)
        requires
            old(self).wf(),
        ensures
            r is Some <==> old(self).resource_store()@.contains_key(key),
            r is None ==> *final(self) == *old(self),
            r is Some ==> {
                &&& *r->Some_0 == old(self).resource_store()@[key]
                &&& final(self).wf()
                &&& final(self).resource_store()@ == old(self).resource_store()@.insert(key, *final(r->Some_0))
                &&& final(self).entity_store() == old(self).entity_store()
                &&& final(self).system_registry() == old(self).system_registry()
            },
    {
        self.resources.get_mut(key)
    }

    /// Removes the resource of type `key`; removing an absent one changes nothing.
    pub fn delete_resource(&mut self, key: TypeId)
        requires
            old(self).wf(),
        ensures
            final(self).wf(),
            final(self).resource_store()@ == old(self).resource_store()@.remove(key),
            final(self).entity_store() == old(self).entity_store(),
            final(self).system_registry() == old(self).system_registry(),
    {
        self.resources.remove(key);
    }

    /// Registers the component type `key`; registering it again changes nothing.
    pub fn register_component(&mut self, key: TypeId)
        requires
            old(self).wf(),
            old(self).entity_store().registered(key) || old(self).entity_store().kinds().len() < MAX_COMPONENT_TYPES,
        ensures
            final(self).wf(),
            final(self).entity_store().registered(key),
            final(self).entity_store().kinds() == if old(self).entity_store().registered(key) {
                old(self).entity_store().kinds()
            } else {
                old(self).entity_store().kinds().push(key)
            },
            final(self).entity_store().memberships() == old(self).entity_store().memberships(),
            final(self).entity_store().building() == old(self).entity_store().building(),
            forall|t: int, i: int| #[trigger] final(self).entity_store().component(t, i)
                == old(self).entity_store().component(t, i),
            final(self).resource_store() == old(self).resource_store(),
            final(self).system_registry() == old(self).system_registry(),
    {
        self.entities.register_component(key);
    }

    /// Starts a new entity and hands back the entity store, for `with_component` calls.
    pub fn create_entity(&mut self) -> (r: &mut Entities<C>)
        requires
            old(self).wf(),
            old(self).entity_store().memberships().len() < usize::MAX,
        ensures
            r.wf(),
            r.created_from(&old(self).entity_store()),
            final(self).entity_store() == *final(r),
            final(self).resource_store() == old(self).resource_store(),
            final(self).system_registry() == old(self).system_registry(),
    {
        self.entities.create_entity()
    }

    /// A query against the entity store that requires nothing yet.
    pub fn query(&self) -> (r: Query<'_, C>)
        requires
            self.wf(),
        ensures
            r.wf(),
            r.store() == self.entity_store(),
            r.requested() == Seq::<TypeId>::empty(),
    {
        Query::new(&self.entities)
    }

    /// Removes entity `index`'s component of type `key`.
    ///
    /// Fails with `ComponentNotRegistered` if `key` is not registered, and
    /// otherwise with `EntityDoesNotExist` if `index` is out of range.
    pub fn delete_component_by_entity_id(&mut self, key: TypeId, index: usize) -> (r: Result<(), CustomErrors>)
        requires
            old(self).wf(),
        ensures
            final(self).wf(),
            r == if !old(self).entity_store().registered(key) {
                Err(CustomErrors::ComponentNotRegistered)
            } else if index >= old(self).entity_store().memberships().len() {
                Err(CustomErrors::EntityDoesNotExist)
            } else {
                Ok::<(), CustomErrors>(())
            },
            r is Err ==> *final(self) == *old(self),
            r is Ok ==> final(self).entity_store().removed(
                &old(self).entity_store(),
                old(self).entity_store().kind_index(key),
                index as int,
            ),
            final(self).entity_store().building() == old(self).entity_store().building(),
            final(self).resource_store() == old(self).resource_store(),
            final(self).system_registry() == old(self).system_registry(),
    {
        self.entities.delete_component_by_entity_id(key, index)
    }

    /// Stores `data`, of the registered type `key`, as a component of entity `index`.
    ///
    /// Fails with `ComponentNotRegistered` if `key` is not registered, and
    /// otherwise with `EntityDoesNotExist` if `index` is out of range.
    pub fn add_component_to_entity_by_id(&mut self, key: TypeId, data: C, index: usize) -> (r: Result<(), CustomErrors>)
        requires
            old(self).wf(),
        ensures
            final(self).wf(),
            r == if !old(self).entity_store().registered(key) {
                Err(CustomErrors::ComponentNotRegistered)
            } else if index >= old(self).entity_store().memberships().len() {
                Err(CustomErrors::EntityDoesNotExist)
            } else {
                Ok::<(), CustomErrors>(())
            },
            r is Err ==> *final(self) == *old(self),
            r is Ok ==> final(self).entity_store().inserted(
                &old(self).entity_store(),
                old(self).entity_store().kind_index(key),
                index as int,
                data,
            ),
            final(self).entity_store().building() == old(self).entity_store().building(),
            final(self).resource_store() == old(self).resource_store(),
            final(self).system_registry() == old(self).system_registry(),
    {
        self.entities.add_component_by_entity_id(key, data, index)
    }

    /// Deletes entity `index`.
    ///
    /// Fails with `EntityDoesNotExist` if `index` is out of range.
    pub fn delete_entity_by_id(&mut self, index: usize) -> (r: Result<(), CustomErrors>)
        requires
            old(self).wf(),
        ensures
            final(self).wf(),
            r == if index >= old(self).entity_store().memberships().len() {
                Err(CustomErrors::EntityDoesNotExist)
            } else {
                Ok::<(), CustomErrors>(())
            },
            r is Err ==> *final(self) == *old(self),
            r is Ok ==> final(self).entity_store().cleared(&old(self).entity_store(), index as int),
            final(self).entity_store().building() == old(self).entity_store().building(),
            final(self).resource_store() == old(self).resource_store(),
            final(self).system_registry() == old(self).system_registry(),
    {
        self.entities.delete_entity_by_id(index)
    }

    /// Adds the system `system` and hands back the registry, for
    /// `with_component` and `with_resource` calls.
    pub fn create_system(&mut self, system: F) -> (r: &mut Systems<F>)
        requires
            old(self).wf(),
            old(self).system_registry().functions().len() < usize::MAX,
        ensures
            r.wf(),
            r.created_from(&old(self).system_registry(), system),
            final(self).system_registry() == *final(r),
            final(self).entity_store() == old(self).entity_store(),
            final(self).resource_store() == old(self).resource_store(),
    {
        self.systems.create_system(system)
    }

    /// Removes the first occurrence of the component type `key` from the
    /// requirements of system `index`.
    ///
    /// Fails with `SystemDoesNotExist` if `index` is out of range, and
    /// otherwise with `ComponentInSystemDoesNotExist` if the system does not
    /// require `key`.
    pub fn delete_component_by_system_id(&mut self, key: TypeId, index: usize) -> (r: Result<(), CustomErrors>)
        requires
            old(self).wf(),
        ensures
            final(self).wf(),
            r == if index >= old(self).system_registry().functions().len() {
                Err(CustomErrors::SystemDoesNotExist)
            } else if !old(self).system_registry().components()[index as int].contains(key) {
                Err(CustomErrors::ComponentInSystemDoesNotExist)
            } else {
                Ok::<(), CustomErrors>(())
            },
            r is Err ==> *final(self) == *old(self),
            r is Ok ==> {
                let before = old(self).system_registry();
                let after = final(self).system_registry();
                &&& after.functions() == before.functions()
                &&& after.resources() == before.resources()
                &&& after.building() == before.building()
                &&& after.components().len() == before.components().len()
                &&& forall|j: int| 0 <= j < before.components().len() && j != index ==> #[trigger] after.components()[j] == before.components()[j]
                &&& Systems::<F>::first_removed(before.components()[index as int], after.components()[index as int], key)
            },
            final(self).entity_store() == old(self).entity_store(),
            final(self).resource_store() == old(self).resource_store(),
    {
        self.systems.delete_component_by_system_id(key, index)
    }

    /// Adds the component type `key` to the requirements of system `index`.
    ///
    /// Fails with `SystemDoesNotExist` if `index` is out of range.
    pub fn add_component_to_system_by_id(&mut self, key: TypeId, index: usize) -> (r: Result<(), CustomErrors>)
        requires
            old(self).wf(),
        ensures
            final(self).wf(),
            r == if index < old(self).system_registry().functions().len() {
                Ok::<(), CustomErrors>(())
            } else {
                Err(CustomErrors::SystemDoesNotExist)
            },
            r is Err ==> *final(self) == *old(self),
            r is Ok ==> {
                let before = old(self).system_registry();
                let after = final(self).system_registry();
                &&& after.functions() == before.functions()
                &&& after.components() == before.components().update(index as int, before.components()[index as int].push(key))
                &&& after.resources() == before.resources()
                &&& after.building() == before.building()
            },
            final(self).entity_store() == old(self).entity_store(),
            final(self).resource_store() == old(self).resource_store(),
    {
        self.systems.add_component_by_system_id(key, index)
    }

    /// Deletes system `index`; deleting a deleted system changes nothing.
    ///
    /// Fails with `SystemDoesNotExist` if `index` is out of range.
    pub fn delete_system_by_id(&mut self, index: usize) -> (r: Result<(), CustomErrors>)
        requires
            old(self).wf(),
        ensures
            final(self).wf(),
            r == if index < old(self).system_registry().functions().len() {
                Ok::<(), CustomErrors>(())
            } else {
                Err(CustomErrors::SystemDoesNotExist)
            },
            r is Err ==> *final(self) == *old(self),
            r is Ok ==> {
                let before = old(self).system_registry();
                let after = final(self).system_registry();
                &&& after.functions() == before.functions().update(index as int, None)
                &&& after.components() == before.components().update(index as int, Seq::empty())
                &&& after.resources() == before.resources().update(index as int, Seq::empty())
            },
            final(self).entity_store() == old(self).entity_store(),
            final(self).resource_store() == old(self).resource_store(),
    {
        self.systems.delete_system_by_id(index)
    }

    /// Runs every active system once, in ascending slot order, on the entities
    /// that hold all the component types it requires; the `ensures` gives the
    /// run as the same trace as `Systems::run_all`.
    pub fn run_all_systems(&mut self) -> (r: Result<(), CustomErrors>)
        where
            F: Fn(&Vec<QueryEntity>, &mut Entities<C>, &mut Resources<R>) -> Result<(), CustomErrors>,
        requires
            old(self).wf(),
            forall|i: int| #[trigger] old(self).system_registry().active(i) ==> accepts_any::<C, R, F>(
                old(self).system_registry().functions()[i].unwrap(),
            ),
            forall|i: int, q: &Vec<QueryEntity>, e: &mut Entities<C>, s: &mut Resources<R>, o: Result<(), CustomErrors>|
                old(self).system_registry().active(i) && (*e).wf() && (*s).wf()
                    && #[trigger] old(self).system_registry().functions()[i].unwrap().ensures((q, e, s), o)
                    ==> (*final(e)).wf() && (*final(s)).wf() && (*final(e)).kinds() == (*e).kinds()
                    && (*final(e)).memberships() == (*e).memberships(),
        ensures
            final(self).wf(),
            final(self).system_registry() == old(self).system_registry(),
            final(self).entity_store().kinds() == old(self).entity_store().kinds(),
            final(self).entity_store().memberships() == old(self).entity_store().memberships(),
            ({
                let systems = old(self).system_registry();
                r is Ok ==> exists|es: Seq<Entities<C>>, ss: Seq<Resources<R>>|
                    #![trigger es.len(), ss.len()]
                    {
                        &&& es.len() == systems.functions().len() + 1
                        &&& ss.len() == systems.functions().len() + 1
                        &&& es[0] == old(self).entity_store()
                        &&& ss[0] == old(self).resource_store()
                        &&& es[systems.functions().len() as int] == final(self).entity_store()
                        &&& ss[systems.functions().len() as int] == final(self).resource_store()
                        &&& forall|k: int| #![trigger es[k]] 0 <= k < systems.functions().len() ==> {
                            &&& (!systems.active(k) ==> es[k + 1] == es[k] && ss[k + 1] == ss[k])
                            &&& (systems.active(k) ==> systems.requirements_registered_at(k, &es[k]) && exists|
                                q: &Vec<QueryEntity>,
                                e: &mut Entities<C>,
                                s: &mut Resources<R>,
                                o: Result<(), CustomErrors>,
                            |
                                #![trigger systems.functions()[k].unwrap().ensures((q, e, s), o)]
                                o is Ok && lists_holders(&es[k], systems.components()[k], q@.map_values(|x: QueryEntity| x.id))
                                    && *e == es[k] && *final(e) == es[k + 1] && *s == ss[k] && *final(s) == ss[k + 1]
                                    && systems.functions()[k].unwrap().ensures((q, e, s), o))
                        }
                    }
            }),
            ({
                let systems = old(self).system_registry();
                r is Err ==> exists|es: Seq<Entities<C>>, ss: Seq<Resources<R>>, n: int|
                    #![trigger es[n], ss[n]]
                    {
                        &&& 1 <= n <= systems.functions().len()
                        &&& es.len() == n + 1
                        &&& ss.len() == n + 1
                        &&& es[0] == old(self).entity_store()
                        &&& ss[0] == old(self).resource_store()
                        &&& es[n] == final(self).entity_store()
                        &&& ss[n] == final(self).resource_store()
                        &&& forall|k: int| #![trigger es[k]] 0 <= k < n - 1 ==> {
                            &&& (!systems.active(k) ==> es[k + 1] == es[k] && ss[k + 1] == ss[k])
                            &&& (systems.active(k) ==> systems.requirements_registered_at(k, &es[k]) && exists|
                                q: &Vec<QueryEntity>,
                                e: &mut Entities<C>,
                                s: &mut Resources<R>,
                                o: Result<(), CustomErrors>,
                            |
                                #![trigger systems.functions()[k].unwrap().ensures((q, e, s), o)]
                                o is Ok && lists_holders(&es[k], systems.components()[k], q@.map_values(|x: QueryEntity| x.id))
                                    && *e == es[k] && *final(e) == es[k + 1] && *s == ss[k] && *final(s) == ss[k + 1]
                                    && systems.functions()[k].unwrap().ensures((q, e, s), o))
                        }
                        &&& systems.active(n - 1)
                        &&& (systems.active(n - 1) && !systems.requirements_registered_at(n - 1, &es[n - 1]) ==> r == Err::<(), CustomErrors>(
                            CustomErrors::ComponentNotRegistered,
                        ) && es[n] == es[n - 1] && ss[n] == ss[n - 1])
                        &&& (systems.active(n - 1) && systems.requirements_registered_at(n - 1, &es[n - 1]) ==> exists|
                            q: &Vec<QueryEntity>,
                            e: &mut Entities<C>,
                            s: &mut Resources<R>,
                        |
                            #![trigger systems.functions()[n - 1].unwrap().ensures((q, e, s), r)]
                            lists_holders(&es[n - 1], systems.components()[n - 1], q@.map_values(|x: QueryEntity| x.id)) && *e == es[n - 1]
                                && *final(e) == es[n] && *s == ss[n - 1] && *final(s) == ss[n]
                                && systems.functions()[n - 1].unwrap().ensures((q, e, s), r))
                    }
            }),
    {
        self.systems.run_all(&mut self.entities, &mut self.resources)
    }
}

impl<C, R, F> Default for World<C, R, F> {
    fn default() -> (r: Self)
        ensures
            r.wf(),
    {
        Self::new()
    }
}

} // verus!
