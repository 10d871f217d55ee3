//! The system registry: behaviour functions with the component and resource
//! types they require, run in slot order once per tick.
use std::any::TypeId;
use vstd::prelude::*;

use crate::custom_errors::CustomErrors;
use crate::entities::Entities;
use crate::query::{lists_holders, Query, QueryEntity};
use crate::resources::Resources;
use crate::type_key::find_key;

verus! {

/// The component types a system requires, in order of addition.
pub type SystemComponents = Vec<TypeId>;

/// Whether `f` can be called with any entity list and any well-formed stores.
pub open spec fn accepts_any<C, R, F: Fn(&Vec<QueryEntity>, &mut Entities<C>, &mut Resources<R>) -> Result<(), CustomErrors>>(f: F) -> bool {
    forall|q: &Vec<QueryEntity>, e: &mut Entities<C>, s: &mut Resources<R>|
        (*e).wf() && (*s).wf() ==> #[trigger] f.requires((q, e, s))
}

/// Behaviour functions and their requirements, stored in slots that deleted
/// systems leave free for reuse.
pub struct Systems<F> {
    /// The function of each slot; `None` marks a deleted system.
    functions: Vec<Option<F>>,
    /// The component types each system requires.
    components: Vec<SystemComponents>,
    /// The resource types each system requires.
    resources: Vec<Vec<TypeId>>,
    /// The system that `with_component` and `with_resource` add to.
    inserting_into_index: Option<usize>,
}

impl<F> Systems<F> {
    /// The function of each slot; `None` marks a deleted system.
    pub closed spec fn functions(&self) -> Seq<Option<F>> {
        self.functions@
    }

    /// The component types each system requires.
    pub closed spec fn components(&self) -> Seq<Seq<TypeId>> {
        self.components@.map_values(|v: Vec<TypeId>| v@)
    }

    /// The resource types each system requires.
    pub closed spec fn resources(&self) -> Seq<Seq<TypeId>> {
        self.resources@.map_values(|v: Vec<TypeId>| v@)
    }

    /// The system under construction, if any.
    pub closed spec fn building(&self) -> Option<usize> {
        self.inserting_into_index
    }

    /// The registry's invariant.
    pub closed spec fn wf(&self) -> bool {
        &&& self.components@.len() == self.functions@.len()
        &&& self.resources@.len() == self.functions@.len()
        &&& self.inserting_into_index matches Some(c) ==> c < self.functions@.len()
    }

    /// Every slot has a function entry, a component list and a resource list.
    pub open spec fn lengths_agree(&self) -> bool {
        &&& self.components().len() == self.functions().len()
        &&& self.resources().len() == self.functions().len()
        &&& self.building() matches Some(c) ==> c < self.functions().len()
    }

    /// A well-formed registry has as many requirement lists as slots, and its
    /// system under construction is one of its slots.
    pub proof fn lemma_lengths_agree(&self)
        requires
            self.wf(),
        ensures
            self.lengths_agree(),
    {
    }

    /// Whether slot `i` holds a system that was not deleted.
    pub open spec fn active(&self, i: int) -> bool {
        0 <= i < self.functions().len() && self.functions()[i] is Some
    }

    /// `self` is `prev` after `create_system(f)`: the lowest deleted slot is
    /// reused, or else a slot is appended; the system there has `f` and no
    /// requirements, and is the system under construction.
    pub open spec fn created_from(&self, prev: &Self, f: F) -> bool {
        &&& self.building() is Some
        &&& {
            let c = self.building().unwrap() as int;
            &&& 0 <= c <= prev.functions().len()
            &&& forall|j: int| 0 <= j < c ==> prev.functions()[j] is Some
            &&& c < prev.functions().len() ==> {
                &&& prev.functions()[c] is None
                &&& self.functions() == prev.functions().update(c, Some(f))
                &&& self.components() == prev.components()
                &&& self.resources() == prev.resources()
            }
            &&& c == prev.functions().len() ==> {
                &&& self.functions() == prev.functions().push(Some(f))
                &&& self.components() == prev.components().push(Seq::empty())
                &&& self.resources() == prev.resources().push(Seq::empty())
            }
        }
    }

    /// `after` is `before` with the first occurrence of `key` removed.
    pub open spec fn first_removed(before: Seq<TypeId>, after: Seq<TypeId>, key: TypeId) -> bool {
        exists|p: int|
            0 <= p < before.len() && before[p] == key && (forall|j: int| 0 <= j < p ==> before[j] != key)
                && after == before.remove(p)
    }

    proof fn lemma_views_push(&self, prev: &Self, i: int, key: TypeId, components_changed: bool)
        requires
            prev.wf(),
            0 <= i < prev.functions@.len(),
            self.functions@ == prev.functions@,
            components_changed ==> self.components@.len() == prev.components@.len() && self.components@[i]@
                == prev.components@[i]@.push(key) && (forall|j: int|
                0 <= j < prev.components@.len() && j != i ==> #[trigger] self.components@[j] == prev.components@[j])
                && self.resources@ == prev.resources@,
            !components_changed ==> self.resources@.len() == prev.resources@.len() && self.resources@[i]@
                == prev.resources@[i]@.push(key) && (forall|j: int|
                0 <= j < prev.resources@.len() && j != i ==> #[trigger] self.resources@[j] == prev.resources@[j])
                && self.components@ == prev.components@,
        ensures
            components_changed ==> self.components() == prev.components().update(i, prev.components()[i].push(key))
                && self.resources() == prev.resources(),
            !components_changed ==> self.resources() == prev.resources().update(i, prev.resources()[i].push(key))
                && self.components() == prev.components(),
    {
        if components_changed {
            assert(self.components() =~= prev.components().update(i, prev.components()[i].push(key)));
            assert(self.resources() =~= prev.resources());
        } else {
            assert(self.resources() =~= prev.resources().update(i, prev.resources()[i].push(key)));
            assert(self.components() =~= prev.components());
        }
    }

    /// Removes the first occurrence of the component type `key` from the
    /// requirements of system `system_id`.
    ///
    /// Fails with `SystemDoesNotExist` if `system_id` is out of range, and
    /// otherwise with `ComponentInSystemDoesNotExist` if the system does not
    /// require `key`.
    pub fn delete_component_by_system_id(&mut self, key: TypeId, system_id: usize) -> (r: Result<(), CustomErrors>)
        requires
            old(self).wf(),
        ensures
            final(self).wf(),
            final(self).lengths_agree(),
            r == if system_id >= old(self).functions().len() {
                Err(CustomErrors::SystemDoesNotExist)
            } else if !old(self).components()[system_id as int].contains(key) {
                Err(CustomErrors::ComponentInSystemDoesNotExist)
            } else {
                Ok::<(), CustomErrors>(())
            },
            r is Err ==> *final(self) == *old(self),
            r is Ok ==> {
                &&& final(self).functions() == old(self).functions()
                &&& final(self).resources() == old(self).resources()
                &&& final(self).building() == old(self).building()
                &&& final(self).components().len() == old(self).components().len()
                &&& forall|j: int| 0 <= j < old(self).components().len() && j != system_id ==> #[trigger] final(self).components()[j] == old(self).components()[j]
                &&& Self::first_removed(old(self).components()[system_id as int], final(self).components()[system_id as int], key)
            },
    {
        if system_id >= self.components.len() {
            return Err(CustomErrors::SystemDoesNotExist);
        }
        proof {
            assert(self.components()[system_id as int] == self.components@[system_id as int]@);
        }
        let p = match find_key(&self.components[system_id], &key) {
            Some(p) => p,
            None => return Err(CustomErrors::ComponentInSystemDoesNotExist),
        };
        let ghost prev = *self;
        self.components[system_id].remove(p);
        proof {
            assert(self.components()[system_id as int] == prev.components()[system_id as int].remove(p as int));
            assert forall|j: int| 0 <= j < prev.components().len() && j != system_id implies #[trigger] self.components()[j] == prev.components()[j] by {
                assert(self.components@[j] == prev.components@[j]);
            }
        }
        Ok(())
    }

    /// Removes the first occurrence of the resource type `key` from the
    /// requirements of system `system_id`.
    ///
    /// Fails with `SystemDoesNotExist` if `system_id` is out of range, and
    /// otherwise with `ResourceInSystemDoesNotExist` if the system does not
    /// require `key`.
    pub fn delete_resource_by_system_id(&mut self, key: TypeId, system_id: usize) -> (r: Result<(), CustomErrors>)
        requires
            old(self).wf(),
        ensures
            final(self).wf(),
            final(self).lengths_agree(),
            r == if system_id >= old(self).functions().len() {
                Err(CustomErrors::SystemDoesNotExist)
            } else if !old(self).resources()[system_id as int].contains(key) {
                Err(CustomErrors::ResourceInSystemDoesNotExist)
            } else {
                Ok::<(), CustomErrors>(())
            },
            r is Err ==> *final(self) == *old(self),
            r is Ok ==> {
                &&& final(self).functions() == old(self).functions()
                &&& final(self).components() == old(self).components()
                &&& final(self).building() == old(self).building()
                &&& final(self).resources().len() == old(self).resources().len()
                &&& forall|j: int| 0 <= j < old(self).resources().len() && j != system_id ==> #[trigger] final(self).resources()[j] == old(self).resources()[j]
                &&& Self::first_removed(old(self).resources()[system_id as int], final(self).resources()[system_id as int], key)
            },
    {
        if system_id >= self.resources.len() {
            return Err(CustomErrors::SystemDoesNotExist);
        }
        proof {
            assert(self.resources()[system_id as int] == self.resources@[system_id as int]@);
        }
        let p = match find_key(&self.resources[system_id], &key) {
            Some(p) => p,
            None => return Err(CustomErrors::ResourceInSystemDoesNotExist),
        };
        let ghost prev = *self;
        self.resources[system_id].remove(p);
        proof {
            assert(self.resources()[system_id as int] == prev.resources()[system_id as int].remove(p as int));
            assert forall|j: int| 0 <= j < prev.resources().len() && j != system_id implies #[trigger] self.resources()[j] == prev.resources()[j] by {
                assert(self.resources@[j] == prev.resources@[j]);
            }
            assert(self.components() =~= prev.components());
        }
        Ok(())
    }

    /// Adds the component type `key` to the requirements of system `system_id`.
    ///
    /// Fails with `SystemDoesNotExist` if `system_id` is out of range. A deleted
    /// slot keeps what is added, and a system created there later starts with it.
    pub fn add_component_by_system_id(&mut self, key: TypeId, system_id: usize) -> (r: Result<(), CustomErrors>)
        requires
            old(self).wf(),
        ensures
            final(self).wf(),
            final(self).lengths_agree(),
            r == if system_id < old(self).functions().len() {
                Ok::<(), CustomErrors>(())
            } else {
                Err(CustomErrors::SystemDoesNotExist)
            },
            r is Err ==> *final(self) == *old(self),
            r is Ok ==> {
                &&& final(self).functions() == old(self).functions()
                &&& final(self).components() == old(self).components().update(
                    system_id as int,
                    old(self).components()[system_id as int].push(key),
                )
                &&& final(self).resources() == old(self).resources()
                &&& final(self).building() == old(self).building()
            },
    {
        if system_id >= self.functions.len() {
            return Err(CustomErrors::SystemDoesNotExist);
        }
        let ghost prev = *self;
        self.components[system_id].push(key);
        proof {
            self.lemma_views_push(&prev, system_id as int, key, true);
        }
        Ok(())
    }

    /// Adds the resource type `key` to the requirements of system `system_id`.
    ///
    /// Fails with `SystemDoesNotExist` if `system_id` is out of range. A deleted
    /// slot keeps what is added, and a system created there later starts with it.
    pub fn add_resource_by_system_id(&mut self, key: TypeId, system_id: usize) -> (r: Result<(), CustomErrors>)
        requires
            old(self).wf(),
        ensures
            final(self).wf(),
            final(self).lengths_agree(),
            r == if system_id < old(self).functions().len() {
                Ok::<(), CustomErrors>(())
            } else {
                Err(CustomErrors::SystemDoesNotExist)
            },
            r is Err ==> *final(self) == *old(self),
            r is Ok ==> {
                &&& final(self).functions() == old(self).functions()
                &&& final(self).resources() == old(self).resources().update(
                    system_id as int,
                    old(self).resources()[system_id as int].push(key),
                )
                &&& final(self).components() == old(self).components()
                &&& final(self).building() == old(self).building()
            },
    {
        if system_id >= self.functions.len() {
            return Err(CustomErrors::SystemDoesNotExist);
        }
        let ghost prev = *self;
        self.resources[system_id].push(key);
        proof {
            self.lemma_views_push(&prev, system_id as int, key, false);
        }
        Ok(())
    }

    /// Deletes system `system_id`: its slot loses its function and its
    /// requirements and is free for the next `create_system`; if it was the
    /// system under construction, it stays so. Deleting a deleted system
    /// changes nothing.
    ///
    /// Fails with `SystemDoesNotExist` if `system_id` is out of range.
    pub fn delete_system_by_id(&mut self, system_id: usize) -> (r: Result<(), CustomErrors>)
        requires
            old(self).wf(),
        ensures
            final(self).wf(),
            final(self).lengths_agree(),
            r == if system_id < old(self).functions().len() {
                Ok::<(), CustomErrors>(())
            } else {
                Err(CustomErrors::SystemDoesNotExist)
            },
            r is Err ==> *final(self) == *old(self),
            r is Ok ==> {
                &&& final(self).functions() == old(self).functions().update(system_id as int, None)
                &&& final(self).components() == old(self).components().update(system_id as int, Seq::empty())
                &&& final(self).resources() == old(self).resources().update(system_id as int, Seq::empty())
                &&& final(self).building() == old(self).building()
            },
    {
        if system_id >= self.functions.len() {
            return Err(CustomErrors::SystemDoesNotExist);
        }
        let ghost prev = *self;
        self.functions.set(system_id, None);
        self.components[system_id].clear();
        self.resources[system_id].clear();
        proof {
            assert(self.components() =~= prev.components().update(system_id as int, Seq::empty()));
            assert(self.resources() =~= prev.resources().update(system_id as int, Seq::empty()));
        }
        Ok(())
    }

    /// Builds the entity list that system `index` runs on: a query for exactly
    /// the component types it requires, run against `entities`; the entities
    /// that hold all of them, in ascending order.
    ///
    /// Fails with `ComponentNotRegistered` if it requires an unregistered type.
    pub fn entities_for<C>(&self, index: usize, entities: &Entities<C>) -> (r: Result<Vec<QueryEntity>, CustomErrors>)
        requires
            self.wf(),
            entities.wf(),
            index < self.functions().len(),
        ensures
            r is Ok <==> forall|j: int| 0 <= j < self.components()[index as int].len() ==> entities.registered(
                #[trigger] self.components()[index as int][j],
            ),
            r is Err ==> r->Err_0 == CustomErrors::ComponentNotRegistered,
            r is Ok ==> lists_holders(
                entities,
                self.components()[index as int],
                r->Ok_0@.map_values(|q: QueryEntity| q.id),
            ),
    {
        let mut query = Query::new(entities);
        let keys = &self.components[index];
        proof {
            assert(self.components()[index as int] == keys@);
        }
        let mut j: usize = 0;
        while j < keys.len()
            invariant
                query.wf(),
                query.store() == *entities,
                query.requested() == keys@.subrange(0, j as int),
                j <= keys@.len(),
                keys@ == self.components()[index as int],
                forall|jj: int| 0 <= jj < j ==> entities.registered(#[trigger] self.components()[index as int][jj]),
            decreases keys@.len() - j,
        {
            match query.with_component(keys[j]) {
                Ok(_) => {},
                Err(e) => {
                    proof {
                        assert(!entities.registered(self.components()[index as int][j as int]));
                    }
                    return Err(e);
                },
            }
            j += 1;
        }
        proof {
            assert(keys@.subrange(0, j as int) =~= keys@);
        }
        Ok(query.run_entity())
    }

    /// Runs system `index` once, if it is active: on the entity list that
    /// `entities_for` builds, with both stores. The system's own result is
    /// returned. An inactive slot does nothing. Systems may change component
    /// values and resources, but not which types are registered nor which
    /// entity holds which component.
    ///
    /// Fails with `ComponentNotRegistered`, before calling the system, if it
    /// requires an unregistered type.
    pub fn run_system<C, R>(&self, index: usize, entities: &mut Entities<C>, resources: &mut Resources<R>) -> (r: Result<(), CustomErrors>)
        where
            F: Fn(&Vec<QueryEntity>, &mut Entities<C>, &mut Resources<R>) -> Result<(), CustomErrors>,
        requires
            self.wf(),
            old(entities).wf(),
            old(resources).wf(),
            index < self.functions().len(),
            self.active(index as int) ==> accepts_any::<C, R, F>(self.functions()[index as int].unwrap()),
            forall|q: &Vec<QueryEntity>, e: &mut Entities<C>, s: &mut Resources<R>, o: Result<(), CustomErrors>|
                self.active(index as int) && (*e).wf() && (*s).wf() && #[trigger] self.functions()[index as int].unwrap().ensures((q, e, s), o)
                    ==> (*final(e)).wf() && (*final(s)).wf() && (*final(e)).kinds() == (*e).kinds()
                    && (*final(e)).memberships() == (*e).memberships(),
        ensures
            final(entities).wf(),
            final(resources).wf(),
            final(entities).kinds() == old(entities).kinds(),
            final(entities).memberships() == old(entities).memberships(),
            !self.active(index as int) ==> r is Ok && *final(entities) == *old(entities) && *final(resources) == *old(resources),
            self.active(index as int) && !self.requirements_registered_at(index as int, old(entities)) ==> r
                == Err::<(), CustomErrors>(CustomErrors::ComponentNotRegistered) && *final(entities) == *old(entities)
                && *final(resources) == *old(resources),
            self.active(index as int) && self.requirements_registered_at(index as int, old(entities)) ==> exists|
                q: &Vec<QueryEntity>,
                e: &mut Entities<C>,
                s: &mut Resources<R>,
            |
                #![trigger self.functions()[index as int].unwrap().ensures((q, e, s), r)]
                lists_holders(old(entities), self.components()[index as int], q@.map_values(|x: QueryEntity| x.id))
                    && *e == *old(entities) && *final(e) == *final(entities) && *s == *old(resources) && *final(s)
                    == *final(resources) && self.functions()[index as int].unwrap().ensures((q, e, s), r),
    {
        match &self.functions[index] {
            Some(function) => {
                proof {
                    assert(self.active(index as int));
                    assert(*function == self.functions()[index as int].unwrap());
                }
                let list = self.entities_for(index, entities)?;
                function(&list, entities, resources)
            },
            None => Ok(()),
        }
    }

    /// Whether every component type that system `index` requires is registered in `entities`.
    pub open spec fn requirements_registered_at<C>(&self, index: int, entities: &Entities<C>) -> bool {
        forall|j: int| 0 <= j < self.components()[index].len() ==> entities.registered(#[trigger] self.components()[index][j])
    }

    /// Runs every active system once, in ascending slot order, as `run_system`
    /// does: each on the entities that hold all the component types it
    /// requires, seeing what the systems before it changed. The first error
    /// ends the run and is returned.
    ///
    /// The `ensures` gives the run as a trace: `es[k]` and `ss[k]` are the
    /// stores before slot `k`. After success every slot ran with success;
    /// after an error `n` slots ran, the last one produced the error and all
    /// before it succeeded.
    #[verifier::rlimit(100)]
    #[verifier::spinoff_prover]
    pub fn run_all<C, R>(&self, entities: &mut Entities<C>, resources: &mut Resources<R>) -> (r: Result<(), CustomErrors>)
        where
            F: Fn(&Vec<QueryEntity>, &mut Entities<C>, &mut Resources<R>) -> Result<(), CustomErrors>,
        requires
            self.wf(),
            old(entities).wf(),
            old(resources).wf(),
            forall|i: int| #[trigger] self.active(i) ==> accepts_any::<C, R, F>(self.functions()[i].unwrap()),
            forall|i: int, q: &Vec<QueryEntity>, e: &mut Entities<C>, s: &mut Resources<R>, o: Result<(), CustomErrors>|
                self.active(i) && (*e).wf() && (*s).wf() && #[trigger] self.functions()[i].unwrap().ensures((q, e, s), o)
                    ==> (*final(e)).wf() && (*final(s)).wf() && (*final(e)).kinds() == (*e).kinds()
                    && (*final(e)).memberships() == (*e).memberships(),
        ensures
            final(entities).wf(),
            final(resources).wf(),
            final(entities).kinds() == old(entities).kinds(),
            final(entities).memberships() == old(entities).memberships(),
            r is Ok ==> exists|es: Seq<Entities<C>>, ss: Seq<Resources<R>>|
                #![trigger es.len(), ss.len()]
                {
                    &&& es.len() == self.functions().len() + 1
                    &&& ss.len() == self.functions().len() + 1
                    &&& es[0] == *old(entities)
                    &&& ss[0] == *old(resources)
                    &&& es[self.functions().len() as int] == *final(entities)
                    &&& ss[self.functions().len() as int] == *final(resources)
                    &&& forall|k: int| #![trigger es[k]] 0 <= k < self.functions().len() ==> {
                        &&& (!self.active(k) ==> es[k + 1] == es[k] && ss[k + 1] == ss[k])
                        &&& (self.active(k) ==> self.requirements_registered_at(k, &es[k]) && exists|
                            q: &Vec<QueryEntity>,
                            e: &mut Entities<C>,
                            s: &mut Resources<R>,
                            o: Result<(), CustomErrors>,
                        |
                            #![trigger self.functions()[k].unwrap().ensures((q, e, s), o)]
                            o is Ok && lists_holders(&es[k], self.components()[k], q@.map_values(|x: QueryEntity| x.id))
                                && *e == es[k] && *final(e) == es[k + 1] && *s == ss[k] && *final(s) == ss[k + 1]
                                && self.functions()[k].unwrap().ensures((q, e, s), o))
                    }
                },
            r is Err ==> exists|es: Seq<Entities<C>>, ss: Seq<Resources<R>>, n: int|
                #![trigger es[n], ss[n]]
                {
                    &&& 1 <= n <= self.functions().len()
                    &&& es.len() == n + 1
                    &&& ss.len() == n + 1
                    &&& es[0] == *old(entities)
                    &&& ss[0] == *old(resources)
                    &&& es[n] == *final(entities)
                    &&& ss[n] == *final(resources)
                    &&& forall|k: int| #![trigger es[k]] 0 <= k < n - 1 ==> {
                        &&& (!self.active(k) ==> es[k + 1] == es[k] && ss[k + 1] == ss[k])
                        &&& (self.active(k) ==> self.requirements_registered_at(k, &es[k]) && exists|
                            q: &Vec<QueryEntity>,
                            e: &mut Entities<C>,
                            s: &mut Resources<R>,
                            o: Result<(), CustomErrors>,
                        |
                            #![trigger self.functions()[k].unwrap().ensures((q, e, s), o)]
                            o is Ok && lists_holders(&es[k], self.components()[k], q@.map_values(|x: QueryEntity| x.id))
                                && *e == es[k] && *final(e) == es[k + 1] && *s == ss[k] && *final(s) == ss[k + 1]
                                && self.functions()[k].unwrap().ensures((q, e, s), o))
                    }
                    &&& self.active(n - 1)
                    &&& (self.active(n - 1) && !self.requirements_registered_at(n - 1, &es[n - 1]) ==> r == Err::<(), CustomErrors>(
                        CustomErrors::ComponentNotRegistered,
                    ) && es[n] == es[n - 1] && ss[n] == ss[n - 1])
                    &&& (self.active(n - 1) && self.requirements_registered_at(n - 1, &es[n - 1]) ==> exists|
                        q: &Vec<QueryEntity>,
                        e: &mut Entities<C>,
                        s: &mut Resources<R>,
                    |
                        #![trigger self.functions()[n - 1].unwrap().ensures((q, e, s), r)]
                        lists_holders(&es[n - 1], self.components()[n - 1], q@.map_values(|x: QueryEntity| x.id)) && *e == es[n - 1]
                            && *final(e) == es[n] && *s == ss[n - 1] && *final(s) == ss[n]
                            && self.functions()[n - 1].unwrap().ensures((q, e, s), r))
                },
    {
        let ghost mut es: Seq<Entities<C>> = seq![*entities];
        let ghost mut ss: Seq<Resources<R>> = seq![*resources];
        let mut index: usize = 0;
        while index < self.functions.len()
            invariant
                self.wf(),
                entities.wf(),
                resources.wf(),
                entities.kinds() == old(entities).kinds(),
                entities.memberships() == old(entities).memberships(),
                index <= self.functions@.len(),
                forall|i: int| #[trigger] self.active(i) ==> accepts_any::<C, R, F>(self.functions()[i].unwrap()),
                forall|i: int, q: &Vec<QueryEntity>, e: &mut Entities<C>, s: &mut Resources<R>, o: Result<(), CustomErrors>|
                    self.active(i) && (*e).wf() && (*s).wf() && #[trigger] self.functions()[i].unwrap().ensures((q, e, s), o)
                        ==> (*final(e)).wf() && (*final(s)).wf() && (*final(e)).kinds() == (*e).kinds()
                        && (*final(e)).memberships() == (*e).memberships(),
                es.len() == index + 1,
                ss.len() == index + 1,
                es[0] == *old(entities),
                ss[0] == *old(resources),
                es[index as int] == *entities,
                ss[index as int] == *resources,
                forall|k: int| #![trigger es[k]] 0 <= k < es.len() - 1 ==> {
                    &&& (!self.active(k) ==> es[k + 1] == es[k] && ss[k + 1] == ss[k])
                    &&& (self.active(k) ==> self.requirements_registered_at(k, &es[k]) && exists|
                        q: &Vec<QueryEntity>,
                        e: &mut Entities<C>,
                        s: &mut Resources<R>,
                        o: Result<(), CustomErrors>,
                    |
                        #![trigger self.functions()[k].unwrap().ensures((q, e, s), o)]
                        o is Ok && lists_holders(&es[k], self.components()[k], q@.map_values(|x: QueryEntity| x.id))
                            && *e == es[k] && *final(e) == es[k + 1] && *s == ss[k] && *final(s) == ss[k + 1]
                            && self.functions()[k].unwrap().ensures((q, e, s), o))
                },
            decreases self.functions@.len() - index,
        {
            let ghost es0 = es;
            let ghost ss0 = ss;
            let res = self.run_system(index, entities, resources);
            proof {
                es = es.push(*entities);
                ss = ss.push(*resources);
                assert forall|k: int| 0 <= k < index implies #[trigger] es[k] == es0[k] && es[k + 1] == es0[k + 1]
                    && ss[k] == ss0[k] && ss[k + 1] == ss0[k + 1] by {}
                let last = index as int;
                assert(es[last] == es0[last] && ss[last] == ss0[last]);
                assert(es[last + 1] == *entities && ss[last + 1] == *resources);
            }
            if res.is_err() {
                proof {
                    let n = index + 1;
                    assert({
                        &&& 1 <= n <= self.functions().len()
                        &&& es.len() == n + 1
                        &&& ss.len() == n + 1
                        &&& es[0] == *old(entities)
                        &&& ss[0] == *old(resources)
                        &&& es[n] == *entities
                        &&& ss[n] == *resources
                        &&& forall|k: int| #![trigger es[k]] 0 <= k < n - 1 ==> {
                            &&& (!self.active(k) ==> es[k + 1] == es[k] && ss[k + 1] == ss[k])
                            &&& (self.active(k) ==> self.requirements_registered_at(k, &es[k]) && exists|
                                q: &Vec<QueryEntity>,
                                e: &mut Entities<C>,
                                s: &mut Resources<R>,
                                o: Result<(), CustomErrors>,
                            |
                                #![trigger self.functions()[k].unwrap().ensures((q, e, s), o)]
                                o is Ok && lists_holders(&es[k], self.components()[k], q@.map_values(|x: QueryEntity| x.id))
                                    && *e == es[k] && *final(e) == es[k + 1] && *s == ss[k] && *final(s) == ss[k + 1]
                                    && self.functions()[k].unwrap().ensures((q, e, s), o))
                        }
                        &&& self.active(n - 1)
                        &&& (self.active(n - 1) && !self.requirements_registered_at(n - 1, &es[n - 1]) ==> res == Err::<(), CustomErrors>(
                            CustomErrors::ComponentNotRegistered,
                        ) && es[n] == es[n - 1] && ss[n] == ss[n - 1])
                        &&& (self.active(n - 1) && self.requirements_registered_at(n - 1, &es[n - 1]) ==> exists|
                            q: &Vec<QueryEntity>,
                            e: &mut Entities<C>,
                            s: &mut Resources<R>,
                        |
                            #![trigger self.functions()[n - 1].unwrap().ensures((q, e, s), res)]
                            lists_holders(&es[n - 1], self.components()[n - 1], q@.map_values(|x: QueryEntity| x.id)) && *e == es[n - 1]
                                && *final(e) == es[n] && *s == ss[n - 1] && *final(s) == ss[n]
                                && self.functions()[n - 1].unwrap().ensures((q, e, s), res))
                    });
                }
                return res;
            }
            proof {
                let last = index as int;
                assert forall|k: int| #![trigger es[k]] 0 <= k < es.len() - 1 implies {
                    &&& (!self.active(k) ==> es[k + 1] == es[k] && ss[k + 1] == ss[k])
                    &&& (self.active(k) ==> self.requirements_registered_at(k, &es[k]) && exists|
                        q: &Vec<QueryEntity>,
                        e: &mut Entities<C>,
                        s: &mut Resources<R>,
                        o: Result<(), CustomErrors>,
                    |
                        #![trigger self.functions()[k].unwrap().ensures((q, e, s), o)]
                        o is Ok && lists_holders(&es[k], self.components()[k], q@.map_values(|x: QueryEntity| x.id))
                            && *e == es[k] && *final(e) == es[k + 1] && *s == ss[k] && *final(s) == ss[k + 1]
                            && self.functions()[k].unwrap().ensures((q, e, s), o))
                } by {
                    if k < last {
                        assert(es[k] == es0[k] && es[k + 1] == es0[k + 1]);
                        assert(ss[k] == ss0[k] && ss[k + 1] == ss0[k + 1]);
                    }
                }
            }
            index += 1;
        }
        let done: Result<(), CustomErrors> = Ok(());
        proof {
            assert(es.len() - 1 == self.functions().len());
            assert(es[self.functions().len() as int] == *entities);
            assert(ss[self.functions().len() as int] == *resources);
            assert({
                &&& es.len() == self.functions().len() + 1
                &&& ss.len() == self.functions().len() + 1
                &&& es[0] == *old(entities)
                &&& ss[0] == *old(resources)
                &&& es[self.functions().len() as int] == *entities
                &&& ss[self.functions().len() as int] == *resources
                &&& forall|k: int| #![trigger es[k]] 0 <= k < self.functions().len() ==> {
                    &&& (!self.active(k) ==> es[k + 1] == es[k] && ss[k + 1] == ss[k])
                    &&& (self.active(k) ==> self.requirements_registered_at(k, &es[k]) && exists|
                        q: &Vec<QueryEntity>,
                        e: &mut Entities<C>,
                        s: &mut Resources<R>,
                        o: Result<(), CustomErrors>,
                    |
                        #![trigger self.functions()[k].unwrap().ensures((q, e, s), o)]
                        o is Ok && lists_holders(&es[k], self.components()[k], q@.map_values(|x: QueryEntity| x.id))
                            && *e == es[k] && *final(e) == es[k + 1] && *s == ss[k] && *final(s) == ss[k + 1]
                            && self.functions()[k].unwrap().ensures((q, e, s), o))
                }
            });
        }
        done
    }

    /// The number of system slots, deleted ones included.
    pub fn system_count(&self) -> (r: usize)
        ensures
            r == self.functions().len(),
    {
        self.functions.len()
    }

    /// Whether slot `system_id` holds a system that was not deleted.
    pub fn is_active(&self, system_id: usize) -> (r: bool)
        ensures
            r == self.active(system_id as int),
    {
        system_id < self.functions.len() && self.functions[system_id].is_some()
    }

    /// The component types that system `system_id` requires, if the slot exists.
    pub fn components_of(&self, system_id: usize) -> (r: Option<&Vec<TypeId>>)
        requires
            self.wf(),
        ensures
            r is Some <==> system_id < self.functions().len(),
            r is Some ==> r->Some_0@ == self.components()[system_id as int],
    {
        if system_id < self.components.len() {
            Some(&self.components[system_id])
        } else {
            None
        }
    }

    /// The resource types that system `system_id` requires, if the slot exists.
    pub fn resources_of(&self, system_id: usize) -> (r: Option<&Vec<TypeId>>)
        requires
            self.wf(),
        ensures
            r is Some <==> system_id < self.functions().len(),
            r is Some ==> r->Some_0@ == self.resources()[system_id as int],
    {
        if system_id < self.resources.len() {
            Some(&self.resources[system_id])
        } else {
            None
        }
    }

    /// An empty registry.
    pub fn new() -> (r: Self)
        ensures
            r.wf(),
            r.lengths_agree(),
            r.functions() == Seq::<Option<F>>::empty(),
            r.components() == Seq::<Seq<TypeId>>::empty(),
            r.resources() == Seq::<Seq<TypeId>>::empty(),
            r.building() is None,
    {
        let r = Systems {
            functions: Vec::new(),
            components: Vec::new(),
            resources: Vec::new(),
            inserting_into_index: None,
        };
        proof {
            assert(r.components() =~= Seq::<Seq<TypeId>>::empty());
            assert(r.resources() =~= Seq::<Seq<TypeId>>::empty());
        }
        r
    }

    /// Adds the system `system` and makes it the system under construction.
    /// The lowest deleted slot is reused, with the requirements that were added
    /// to it after its deletion; otherwise a slot with no requirements is appended.
    pub fn create_system(&mut self, system: F) -> (r: &mut Self)
        requires
            old(self).wf(),
            old(self).functions().len() < usize::MAX,
        ensures
            r.wf(),
            r.lengths_agree(),
            r.created_from(old(self), system),
            *final(self) == *final(r),
    {
        let ghost prev = *self;
        let mut index: usize = 0;
        while index < self.functions.len()
            invariant
                *self == prev,
                index <= self.functions@.len(),
                forall|j: int| 0 <= j < index ==> self.functions@[j] is Some,
            ensures
                index <= self.functions@.len(),
                forall|j: int| 0 <= j < index ==> self.functions@[j] is Some,
                index < self.functions@.len() ==> self.functions@[index as int] is None,
            decreases self.functions@.len() - index,
        {
            if self.functions[index].is_none() {
                break;
            }
            index += 1;
        }
        if index < self.functions.len() {
            self.functions.set(index, Some(system));
            self.inserting_into_index = Some(index);
        } else {
            self.functions.push(Some(system));
            self.components.push(Vec::new());
            self.resources.push(Vec::new());
            self.inserting_into_index = Some(index);
            proof {
                assert(self.components() =~= prev.components().push(Seq::empty()));
                assert(self.resources() =~= prev.resources().push(Seq::empty()));
            }
        }
        self
    }

    /// Adds the component type `key` to the requirements of the system under construction.
    ///
    /// Fails with `CreateSystemNeverCalled` if `create_system` was never called. The
    /// system under construction stays so when it is deleted.
    pub fn with_component(&mut self, key: TypeId) -> (r: Result<&mut Self, CustomErrors>)
        requires
            old(self).wf(),
        ensures
            r is Ok <==> old(self).building() is Some,
            r is Err ==> r->Err_0 == CustomErrors::CreateSystemNeverCalled && *final(self) == *old(self),
            r is Ok ==> {
                let s = r->Ok_0;
                let c = old(self).building().unwrap() as int;
                &&& (*s).wf()
                &&& (*s).lengths_agree()
                &&& (*s).functions() == old(self).functions()
                &&& (*s).components() == old(self).components().update(c, old(self).components()[c].push(key))
                &&& (*s).resources() == old(self).resources()
                &&& (*s).building() == old(self).building()
                &&& *final(self) == *final(s)
            },
    {
        let c = match self.inserting_into_index {
            Some(c) => c,
            None => return Err(CustomErrors::CreateSystemNeverCalled),
        };
        let ghost prev = *self;
        self.components[c].push(key);
        proof {
            self.lemma_views_push(&prev, c as int, key, true);
        }
        Ok(self)
    }

    /// Adds the resource type `key` to the requirements of the system under construction.
    ///
    /// Fails with `CreateSystemNeverCalled` if `create_system` was never called. The
    /// system under construction stays so when it is deleted.
    pub fn with_resource(&mut self, key: TypeId) -> (r: Result<&mut Self, CustomErrors>)
        requires
            old(self).wf(),
        ensures
            r is Ok <==> old(self).building() is Some,
            r is Err ==> r->Err_0 == CustomErrors::CreateSystemNeverCalled && *final(self) == *old(self),
            r is Ok ==> {
                let s = r->Ok_0;
                let c = old(self).building().unwrap() as int;
                &&& (*s).wf()
                &&& (*s).lengths_agree()
                &&& (*s).functions() == old(self).functions()
                &&& (*s).resources() == old(self).resources().update(c, old(self).resources()[c].push(key))
                &&& (*s).components() == old(self).components()
                &&& (*s).building() == old(self).building()
                &&& *final(self) == *final(s)
            },
    {
        let c = match self.inserting_into_index {
            Some(c) => c,
            None => return Err(CustomErrors::CreateSystemNeverCalled),
        };
        let ghost prev = *self;
        self.resources[c].push(key);
        proof {
            self.lemma_views_push(&prev, c as int, key, false);
        }
        Ok(self)
    }
}

impl<F> Default for Systems<F> {
    fn default() -> (r: Self)
        ensures
            r.wf(),
            r.lengths_agree(),
            r.functions() == Seq::<Option<F>>::empty(),
            r.components() == Seq::<Seq<TypeId>>::empty(),
            r.resources() == Seq::<Seq<TypeId>>::empty(),
            r.building() is None,
    {
        Self::new()
    }
}

} // verus!
