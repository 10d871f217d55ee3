//! The entity store: one column per registered component type and one
//! membership word per entity.
use std::any::TypeId;
use vstd::prelude::*;

use crate::bits::{
    bit, has_bit, lemma_bits_distinct, lemma_clear_bit, lemma_set_bit, lemma_zero_has_no_bits,
    MAX_COMPONENT_TYPES,
};
use crate::custom_errors::CustomErrors;
use crate::type_key::{find_key, lemma_index_of_unique};

verus! {

/// Component columns, membership words and entity-slot recycling.
pub struct Entities<C> {
    /// The registered component types; a type's position is its bit index.
    kinds: Vec<TypeId>,
    /// One column per registered type: `components[t][i]` is the slot of entity `i`.
    /// A slot counts only while the entity's membership word holds bit `t`.
    components: Vec<Vec<Option<C>>>,
    /// The membership word of every entity.
    map: Vec<u32>,
    /// The entity that `with_component` adds to.
    inserting_into_index: Option<usize>,
}

impl<C> Entities<C> {
    /// The registered component types, in order of registration.
    pub closed spec fn kinds(&self) -> Seq<TypeId> {
        self.kinds@
    }

    /// The membership word of every entity, by entity index.
    pub closed spec fn memberships(&self) -> Seq<u32> {
        self.map@
    }

    /// The entity under construction, if any.
    pub closed spec fn building(&self) -> Option<usize> {
        self.inserting_into_index
    }

    /// The component of the type in position `t` that entity `i` holds, if any.
    pub closed spec fn component(&self, t: int, i: int) -> Option<C> {
        if 0 <= t < self.kinds@.len() && 0 <= i < self.map@.len() && has_bit(self.map@[i], t) {
            self.components@[t]@[i]
        } else {
            None
        }
    }

    /// The store's invariant.
    pub closed spec fn wf(&self) -> bool {
        &&& self.kinds@.len() <= MAX_COMPONENT_TYPES
        &&& self.kinds@.no_duplicates()
        &&& self.components@.len() == self.kinds@.len()
        &&& forall|t: int|
            0 <= t < self.components@.len() ==> #[trigger] self.components@[t]@.len()
                == self.map@.len()
        &&& forall|t: int, i: int|
            0 <= t < self.kinds@.len() && 0 <= i < self.map@.len() && #[trigger] has_bit(
                self.map@[i],
                t,
            ) ==> self.components@[t]@[i] is Some
        &&& forall|t: int, i: int|
            self.kinds@.len() <= t < 32 && 0 <= i < self.map@.len() ==> !#[trigger] has_bit(
                self.map@[i],
                t,
            )
        &&& self.inserting_into_index matches Some(c) ==> c < self.map@.len()
    }

    /// Whether `key` names a registered component type.
    pub open spec fn registered(&self, key: TypeId) -> bool {
        self.kinds().contains(key)
    }

    /// The position, and so the bit index, of a registered component type.
    pub open spec fn kind_index(&self, key: TypeId) -> int {
        self.kinds().index_of(key)
    }

    /// An entity holds a component of a registered type exactly when its
    /// membership word holds that type's bit, and holds no bit of an
    /// unregistered position; there are no components outside the store's range,
    /// and the entity under construction is one of the store's entities.
    pub open spec fn membership_consistent(&self) -> bool {
        &&& self.kinds().len() <= MAX_COMPONENT_TYPES
        &&& self.building() matches Some(c) ==> c < self.memberships().len()
        &&& forall|t: int, i: int|
            !(0 <= t < self.kinds().len() && 0 <= i < self.memberships().len()) ==> #[trigger] self.component(
                t,
                i,
            ) is None
        &&& forall|t: int, i: int|
            0 <= t < self.kinds().len() && 0 <= i < self.memberships().len() ==> (
            #[trigger] self.component(t, i) is Some <==> has_bit(self.memberships()[i], t))
        &&& forall|t: int, i: int|
            self.kinds().len() <= t < 32 && 0 <= i < self.memberships().len() ==> !#[trigger] has_bit(
                self.memberships()[i],
                t,
            )
    }

    /// Both stores hold the same types, membership words and components.
    pub open spec fn same_contents(&self, other: &Self) -> bool {
        &&& self.kinds() == other.kinds()
        &&& self.memberships() == other.memberships()
        &&& forall|t: int, i: int| #[trigger] self.component(t, i) == other.component(t, i)
    }

    /// `self` is `prev` with `data` stored as entity `i`'s component of the type in position `t`.
    pub open spec fn inserted(&self, prev: &Self, t: int, i: int, data: C) -> bool {
        &&& self.kinds() == prev.kinds()
        &&& self.memberships() == prev.memberships().update(i, prev.memberships()[i] | bit(t))
        &&& self.component(t, i) == Some(data)
        &&& forall|u: int, j: int|
            !(u == t && j == i) ==> #[trigger] self.component(u, j) == prev.component(u, j)
    }

    /// `self` is `prev` with entity `i`'s component of the type in position `t`
    /// replaced by `data`; membership words are unchanged.
    pub open spec fn replaced(&self, prev: &Self, t: int, i: int, data: C) -> bool {
        &&& self.kinds() == prev.kinds()
        &&& self.memberships() == prev.memberships()
        &&& self.component(t, i) == Some(data)
        &&& forall|u: int, j: int|
            !(u == t && j == i) ==> #[trigger] self.component(u, j) == prev.component(u, j)
    }

    /// `self` is `prev` with entity `i`'s component of the type in position `t` removed.
    pub open spec fn removed(&self, prev: &Self, t: int, i: int) -> bool {
        &&& self.kinds() == prev.kinds()
        &&& self.memberships() == prev.memberships().update(i, prev.memberships()[i] & !bit(t))
        &&& self.component(t, i) is None
        &&& forall|u: int, j: int|
            !(u == t && j == i) ==> #[trigger] self.component(u, j) == prev.component(u, j)
    }

    /// `self` is `prev` with entity `i` deleted: its membership word is zero and it holds nothing.
    pub open spec fn cleared(&self, prev: &Self, i: int) -> bool {
        &&& self.kinds() == prev.kinds()
        &&& self.memberships() == prev.memberships().update(i, 0)
        &&& forall|u: int, j: int|
            #[trigger] self.component(u, j) == if j == i {
                None
            } else {
                prev.component(u, j)
            }
    }

    /// `self` is `prev` after `create_entity`: the lowest entity whose membership
    /// word is zero is reused, or else a new entity is appended; it is the entity
    /// under construction and holds nothing.
    pub open spec fn created_from(&self, prev: &Self) -> bool {
        &&& self.kinds() == prev.kinds()
        &&& self.building() is Some
        &&& {
            let c = self.building().unwrap() as int;
            &&& 0 <= c <= prev.memberships().len()
            &&& forall|j: int| 0 <= j < c ==> prev.memberships()[j] != 0
            &&& c < prev.memberships().len() ==> prev.memberships()[c] == 0 && self.memberships()
                == prev.memberships()
            &&& c == prev.memberships().len() ==> self.memberships() == prev.memberships().push(0)
        }
        &&& forall|t: int, i: int| #[trigger] self.component(t, i) == prev.component(t, i)
    }

    /// In a well-formed store, every entity holds a component of a registered
    /// type exactly when its membership word holds that type's bit.
    pub proof fn lemma_membership_consistent(&self)
        requires
            self.wf(),
        ensures
            self.membership_consistent(),
    {
    }

    /// Position of `key` among the registered types, if it is registered.
    pub(crate) fn kind_position(&self, key: &TypeId) -> (r: Option<usize>)
        requires
            self.wf(),
        ensures
            match r {
                Some(t) => self.registered(*key) && t as int == self.kind_index(*key) && t
                    < self.kinds().len(),
                None => !self.registered(*key),
            },
    {
        let r = find_key(&self.kinds, key);
        proof {
            if let Some(t) = r {
                lemma_index_of_unique(self.kinds@, t as int);
            }
        }
        r
    }

    /// The lowest entity whose membership word is zero, or the entity count if there is none.
    fn first_free(&self) -> (r: usize)
        ensures
            r <= self.map@.len(),
            forall|j: int| 0 <= j < r ==> self.map@[j] != 0,
            r < self.map@.len() ==> self.map@[r as int] == 0,
    {
        let mut i: usize = 0;
        while i < self.map.len()
            invariant
                i <= self.map@.len(),
                forall|j: int| 0 <= j < i ==> self.map@[j] != 0,
            decreases self.map@.len() - i,
        {
            if self.map[i] == 0 {
                return i;
            }
            i += 1;
        }
        i
    }

    /// Starts a new entity and makes it the entity under construction. The
    /// lowest entity whose membership word is zero is reused; otherwise a new
    /// entity is appended, with an empty slot in every column.
    pub fn create_entity(&mut self) -> (r: &mut Self)
        requires
            old(self).wf(),
            old(self).memberships().len() < usize::MAX,
        ensures
            r.wf(),
            r.membership_consistent(),
            r.created_from(old(self)),
            r.memberships()[r.building().unwrap() as int] == 0,
            *final(self) == *final(r),
    {
        let free = self.first_free();
        if free < self.map.len() {
            self.inserting_into_index = Some(free);
        } else {
            let ghost prev = *self;
            let mut t: usize = 0;
            while t < self.components.len()
                invariant
                    prev.wf(),
                    t <= self.components@.len(),
                    self.components@.len() == prev.components@.len(),
                    self.kinds == prev.kinds,
                    self.map == prev.map,
                    forall|u: int| 0 <= u < t ==> #[trigger] self.components@[u]@ == prev.components@[u]@.push(None),
                    forall|u: int| t <= u < self.components@.len() ==> #[trigger] self.components@[u] == prev.components@[u],
                decreases self.components@.len() - t,
            {
                self.components[t].push(None);
                t += 1;
            }
            self.map.push(0);
            self.inserting_into_index = Some(free);
            proof {
                let n = prev.map@.len();
                assert forall|u: int| 0 <= u < self.components@.len() implies #[trigger] self.components@[u]@.len()
                    == self.map@.len() by {
                    assert(self.components@[u]@ == prev.components@[u]@.push(None));
                }
                assert forall|u: int, i: int|
                    0 <= u < self.kinds@.len() && 0 <= i < self.map@.len() && #[trigger] has_bit(
                        self.map@[i],
                        u,
                    ) implies self.components@[u]@[i] is Some by {
                    assert(self.components@[u]@ == prev.components@[u]@.push(None));
                    if i == n {
                        lemma_zero_has_no_bits(u);
                    }
                }
                assert forall|u: int, i: int|
                    self.kinds@.len() <= u < 32 && 0 <= i < self.map@.len() implies !#[trigger] has_bit(
                        self.map@[i],
                        u,
                    ) by {
                    if i == n {
                        lemma_zero_has_no_bits(u);
                    }
                }
                assert forall|u: int, i: int| #[trigger] self.component(u, i) == prev.component(u, i) by {
                    if 0 <= u < self.kinds@.len() && 0 <= i < self.map@.len() {
                        assert(self.components@[u]@ == prev.components@[u]@.push(None));
                        if i == n {
                            lemma_zero_has_no_bits(u);
                        }
                    }
                }
                assert(self.map@ == prev.map@.push(0));
            }
        }
        proof {
            self.lemma_membership_consistent();
        }
        self
    }

    /// Stores `data` as entity `i`'s component of the type in position `t` and
    /// sets that type's bit in the entity's membership word.
    fn store(&mut self, t: usize, i: usize, data: C)
        requires
            old(self).wf(),
            t < old(self).kinds().len(),
            i < old(self).memberships().len(),
        ensures
            final(self).wf(),
            final(self).inserted(old(self), t as int, i as int, data),
            final(self).building() == old(self).building(),
    {
        let ghost prev = *self;
        self.components[t].set(i, Some(data));
        let m = self.map[i];
        self.map.set(i, m | (1u32 << (t as u32)));
        proof {
            assert(self.components@[t as int]@ == prev.components@[t as int]@.update(i as int, Some(data)));
            assert forall|u: int| 0 <= u < self.components@.len() implies #[trigger] self.components@[u]@.len()
                == self.map@.len() by {
                if u != t {
                    assert(self.components@[u] == prev.components@[u]);
                }
            }
            assert forall|u: int, j: int|
                0 <= u < self.kinds@.len() && 0 <= j < self.map@.len() && #[trigger] has_bit(
                    self.map@[j],
                    u,
                ) implies self.components@[u]@[j] is Some by {
                if u != t {
                    assert(self.components@[u] == prev.components@[u]);
                }
                if j == i {
                    lemma_set_bit(m, t as int, u);
                }
            }
            assert forall|u: int, j: int|
                self.kinds@.len() <= u < 32 && 0 <= j < self.map@.len() implies !#[trigger] has_bit(
                    self.map@[j],
                    u,
                ) by {
                if j == i {
                    lemma_set_bit(m, t as int, u);
                }
            }
            lemma_set_bit(m, t as int, t as int);
            assert forall|u: int, j: int| !(u == t && j == i) implies #[trigger] self.component(u, j)
                == prev.component(u, j) by {
                if 0 <= u < self.kinds@.len() && 0 <= j < self.map@.len() {
                    if u != t {
                        assert(self.components@[u] == prev.components@[u]);
                    }
                    if j == i {
                        lemma_set_bit(m, t as int, u);
                    }
                }
            }
        }
    }

    /// Adds `data`, of the registered type `key`, to the entity under construction.
    ///
    /// Fails with `ComponentNotRegistered` if `key` is not registered, and
    /// otherwise with `CreateEntityNeverCalled` if no entity was ever created.
    pub fn with_component(&mut self, key: TypeId, data: C) -> (r: Result<&mut Self, CustomErrors>)
        requires
            old(self).wf(),
        ensures
            r is Ok <==> old(self).registered(key) && old(self).building() is Some,
            !old(self).registered(key) ==> r is Err && r->Err_0 == CustomErrors::ComponentNotRegistered,
            old(self).registered(key) && old(self).building() is None ==> r is Err && r->Err_0
                == CustomErrors::CreateEntityNeverCalled,
            r is Err ==> *final(self) == *old(self),
            r is Ok ==> {
                let s = r->Ok_0;
                &&& (*s).wf()
                &&& (*s).membership_consistent()
                &&& (*s).inserted(
                    old(self),
                    old(self).kind_index(key),
                    old(self).building().unwrap() as int,
                    data,
                )
                &&& (*s).building() == old(self).building()
                &&& *final(self) == *final(s)
            },
    {
        let t = match self.kind_position(&key) {
            Some(t) => t,
            None => return Err(CustomErrors::ComponentNotRegistered),
        };
        let i = match self.inserting_into_index {
            Some(i) => i,
            None => return Err(CustomErrors::CreateEntityNeverCalled),
        };
        self.store(t, i, data);
        proof {
            self.lemma_membership_consistent();
        }
        Ok(self)
    }

    /// The bitmask of a registered component type: `1 << position`.
    pub fn get_bitmask(&self, type_id: &TypeId) -> (r: Option<u32>)
        requires
            self.wf(),
        ensures
            r == if self.registered(*type_id) {
                Some(bit(self.kind_index(*type_id)))
            } else {
                None::<u32>
            },
    {
        match self.kind_position(type_id) {
            Some(t) => Some(1u32 << (t as u32)),
            None => None,
        }
    }

    /// The membership word of an entity, if the index is in range.
    pub fn get_map(&self, entity_id: usize) -> (r: Option<u32>)
        ensures
            r == if entity_id < self.memberships().len() {
                Some(self.memberships()[entity_id as int])
            } else {
                None::<u32>
            },
    {
        if entity_id < self.map.len() {
            Some(self.map[entity_id])
        } else {
            None
        }
    }

    /// The number of entity slots, deleted ones included.
    pub fn entity_count(&self) -> (r: usize)
        ensures
            r == self.memberships().len(),
    {
        self.map.len()
    }

    /// Whether entity `index` holds every bit of `mask`.
    pub(crate) fn has_component(&self, index: usize, mask: u32) -> (r: bool)
        requires
            index < self.memberships().len(),
        ensures
            r == (self.memberships()[index as int] & mask == mask),
    {
        self.map[index] & mask == mask
    }

    /// Removes entity `index`'s component of type `key`: clears the type's bit
    /// in its membership word. Removing an absent component changes nothing.
    ///
    /// Fails with `ComponentNotRegistered` if `key` is not registered, and
    /// otherwise with `EntityDoesNotExist` if `index` is out of range.
    pub fn delete_component_by_entity_id(&mut self, key: TypeId, index: usize) -> (r: Result<(), CustomErrors>)
        requires
            old(self).wf(),
        ensures
            final(self).wf(),
            final(self).membership_consistent(),
            r == if !old(self).registered(key) {
                Err(CustomErrors::ComponentNotRegistered)
            } else if index >= old(self).memberships().len() {
                Err(CustomErrors::EntityDoesNotExist)
            } else {
                Ok::<(), CustomErrors>(())
            },
            r is Err ==> *final(self) == *old(self),
            r is Ok ==> final(self).removed(old(self), old(self).kind_index(key), index as int),
            final(self).building() == old(self).building(),
    {
        let t = match self.kind_position(&key) {
            Some(t) => t,
            None => return Err(CustomErrors::ComponentNotRegistered),
        };
        if index >= self.map.len() {
            return Err(CustomErrors::EntityDoesNotExist);
        }
        let mask = 1u32 << (t as u32);
        let ghost prev = *self;
        let m = self.map[index];
        if self.has_component(index, mask) {
            self.map.set(index, m ^ mask);
        }
        proof {
            assert((m & mask) == mask ==> m ^ mask == m & !mask) by (bit_vector);
            let b = t as u32;
            assert(b < 32 ==> ((m & (1u32 << b)) != (1u32 << b) ==> (m & !(1u32 << b)) == m)) by (bit_vector);
            assert(self.map@ == prev.map@.update(index as int, m & !bit(t as int)));
            assert forall|u: int, j: int|
                0 <= u < self.kinds@.len() && 0 <= j < self.map@.len() && #[trigger] has_bit(
                    self.map@[j],
                    u,
                ) implies self.components@[u]@[j] is Some by {
                if j == index {
                    lemma_clear_bit(m, t as int, u);
                }
            }
            assert forall|u: int, j: int|
                self.kinds@.len() <= u < 32 && 0 <= j < self.map@.len() implies !#[trigger] has_bit(
                    self.map@[j],
                    u,
                ) by {
                if j == index {
                    lemma_clear_bit(m, t as int, u);
                }
            }
            lemma_clear_bit(m, t as int, t as int);
            assert forall|u: int, j: int| !(u == t && j == index) implies #[trigger] self.component(u, j)
                == prev.component(u, j) by {
                if 0 <= u < self.kinds@.len() && j == index {
                    lemma_clear_bit(m, t as int, u);
                }
            }
            self.lemma_membership_consistent();
        }
        Ok(())
    }

    /// Stores `data`, of the registered type `key`, as a component of entity
    /// `index`, and sets the type's bit in the entity's membership word. A
    /// deleted entity is brought back in this way.
    ///
    /// Fails with `ComponentNotRegistered` if `key` is not registered, and
    /// otherwise with `EntityDoesNotExist` if `index` is out of range.
    pub fn add_component_by_entity_id(&mut self, key: TypeId, data: C, index: usize) -> (r: Result<(), CustomErrors>)
        requires
            old(self).wf(),
        ensures
            final(self).wf(),
            final(self).membership_consistent(),
            r == if !old(self).registered(key) {
                Err(CustomErrors::ComponentNotRegistered)
            } else if index >= old(self).memberships().len() {
                Err(CustomErrors::EntityDoesNotExist)
            } else {
                Ok::<(), CustomErrors>(())
            },
            r is Err ==> *final(self) == *old(self),
            r is Ok ==> final(self).inserted(old(self), old(self).kind_index(key), index as int, data),
            final(self).building() == old(self).building(),
    {
        let t = match self.kind_position(&key) {
            Some(t) => t,
            None => return Err(CustomErrors::ComponentNotRegistered),
        };
        if index >= self.map.len() {
            return Err(CustomErrors::EntityDoesNotExist);
        }
        self.store(t, index, data);
        proof {
            self.lemma_membership_consistent();
        }
        Ok(())
    }

    /// Deletes entity `index` by zeroing its membership word; its slot becomes
    /// free for the next `create_entity`.
    ///
    /// Fails with `EntityDoesNotExist` if `index` is out of range.
    pub fn delete_entity_by_id(&mut self, index: usize) -> (r: Result<(), CustomErrors>)
        requires
            old(self).wf(),
        ensures
            final(self).wf(),
            final(self).membership_consistent(),
            r == if index >= old(self).memberships().len() {
                Err(CustomErrors::EntityDoesNotExist)
            } else {
                Ok::<(), CustomErrors>(())
            },
            r is Err ==> *final(self) == *old(self),
            r is Ok ==> final(self).cleared(old(self), index as int),
            final(self).building() == old(self).building(),
    {
        if index >= self.map.len() {
            return Err(CustomErrors::EntityDoesNotExist);
        }
        let ghost prev = *self;
        self.map.set(index, 0);
        proof {
            assert forall|u: int, j: int|
                0 <= u < self.kinds@.len() && 0 <= j < self.map@.len() && #[trigger] has_bit(
                    self.map@[j],
                    u,
                ) implies self.components@[u]@[j] is Some by {
                if j == index {
                    lemma_zero_has_no_bits(u);
                }
            }
            assert forall|u: int, j: int|
                self.kinds@.len() <= u < 32 && 0 <= j < self.map@.len() implies !#[trigger] has_bit(
                    self.map@[j],
                    u,
                ) by {
                if j == index {
                    lemma_zero_has_no_bits(u);
                }
            }
            assert forall|u: int, j: int| #[trigger] self.component(u, j) == if j == index {
                None
            } else {
                prev.component(u, j)
            } by {
                if 0 <= u < self.kinds@.len() && j == index {
                    lemma_zero_has_no_bits(u);
                }
            }
            self.lemma_membership_consistent();
        }
        Ok(())
    }

    /// The component that entity `i` holds of the type in position `t`.
    pub(crate) fn component_ref(&self, t: usize, i: usize) -> (r: &C)
        requires
            self.wf(),
            t < self.kinds().len(),
            i < self.memberships().len(),
            has_bit(self.memberships()[i as int], t as int),
        ensures
            self.component(t as int, i as int) == Some(*r),
    {
        self.components[t][i].as_ref().unwrap()
    }

    /// Exclusive access to the component that entity `i` holds of the type in
    /// position `t`; whatever is written through it stays that entity's component.
    pub(crate) fn component_mut(&mut self, t: usize, i: usize) -> (r: &mut C)
        requires
            old(self).wf(),
            t < old(self).kinds().len(),
            i < old(self).memberships().len(),
            has_bit(old(self).memberships()[i as int], t as int),
        ensures
            old(self).component(t as int, i as int) == Some(*r),
            final(self).wf(),
            final(self).replaced(old(self), t as int, i as int, *final(r)),
            final(self).building() == old(self).building(),
    {
        let r = self.components[t][i].as_mut().unwrap();
        r
    }

    /// An empty store: no component types and no entities.
    pub fn new() -> (r: Self)
        ensures
            r.wf(),
            r.kinds() == Seq::<TypeId>::empty(),
            r.memberships() == Seq::<u32>::empty(),
            r.building() is None,
    {
        Entities {
            kinds: Vec::new(),
            components: Vec::new(),
            map: Vec::new(),
            inserting_into_index: None,
        }
    }

    /// Registers a component type: it gets the next bit index and a column in
    /// which no entity holds a component. Registering a type again changes nothing.
    pub fn register_component(&mut self, key: TypeId)
        requires
            old(self).wf(),
            old(self).registered(key) || old(self).kinds().len() < MAX_COMPONENT_TYPES,
        ensures
            final(self).wf(),
            final(self).membership_consistent(),
            final(self).building() == old(self).building(),
            final(self).memberships() == old(self).memberships(),
            forall|t: int, i: int| #[trigger] final(self).component(t, i) == old(self).component(t, i),
            old(self).registered(key) ==> final(self).kinds() == old(self).kinds(),
            !old(self).registered(key) ==> final(self).kinds() == old(self).kinds().push(key),
            final(self).registered(key),
            final(self).kind_index(key) == if old(self).registered(key) {
                old(self).kind_index(key)
            } else {
                old(self).kinds().len() as int
            },
    {
        match find_key(&self.kinds, &key) {
            Some(p) => {
                proof {
                    lemma_index_of_unique(self.kinds@, p as int);
                }
            },
            None => {
                let n = self.map.len();
                let mut column: Vec<Option<C>> = Vec::new();
                let mut i: usize = 0;
                while i < n
                    invariant
                        i <= n,
                        column@.len() == i,
                        forall|j: int| 0 <= j < i ==> column@[j] is None,
                    decreases n - i,
                {
                    column.push(None);
                    i += 1;
                }
                let ghost prev = *self;
                self.components.push(column);
                self.kinds.push(key);
                proof {
                    let len = prev.kinds@.len();
                    assert(self.components@[len as int]@.len() == self.map@.len());
                    assert forall|t: int| 0 <= t < self.components@.len() implies #[trigger] self.components@[t]@.len()
                        == self.map@.len() by {
                        if t < len {
                            assert(self.components@[t] == prev.components@[t]);
                        }
                    }
                    assert forall|t: int, i: int|
                        0 <= t < self.kinds@.len() && 0 <= i < self.map@.len() && #[trigger] has_bit(
                            self.map@[i],
                            t,
                        ) implies self.components@[t]@[i] is Some by {
                        if t < len {
                            assert(self.components@[t] == prev.components@[t]);
                        }
                    }
                    assert forall|t: int, i: int| #[trigger] self.component(t, i) == prev.component(t, i) by {
                        if 0 <= t < len {
                            assert(self.components@[t] == prev.components@[t]);
                        }
                    }
                    assert(self.kinds@[len as int] == key);
                    lemma_index_of_unique(self.kinds@, len as int);
                }
            },
        }
        proof {
            self.lemma_membership_consistent();
        }
    }
}

impl<C> Default for Entities<C> {
    fn default() -> (r: Self)
        ensures
            r.wf(),
            r.kinds() == Seq::<TypeId>::empty(),
            r.memberships() == Seq::<u32>::empty(),
            r.building() is None,
    {
        Self::new()
    }
}

/// A registered type's bit index is its position in the order of registration,
/// so the k-th registered type has the bit `1 << (k - 1)`; two distinct
/// registered types never share a bit.
pub proof fn lemma_registration_bits<C>(e: &Entities<C>, a: TypeId, b: TypeId)
    requires
        e.wf(),
        e.registered(a),
        e.registered(b),
    ensures
        0 <= e.kind_index(a) < MAX_COMPONENT_TYPES,
        e.kinds()[e.kind_index(a)] == a,
        forall|k: int| 0 <= k < e.kinds().len() ==> e.kind_index(#[trigger] e.kinds()[k]) == k,
        bit(e.kind_index(a)) == 1u32 << (e.kind_index(a) as u32),
        a != b ==> bit(e.kind_index(a)) != bit(e.kind_index(b)),
{
    assert forall|k: int| 0 <= k < e.kinds().len() implies e.kind_index(#[trigger] e.kinds()[k]) == k by {
        lemma_index_of_unique(e.kinds(), k);
    }
    let ia = e.kind_index(a);
    let ib = e.kind_index(b);
    lemma_bits_distinct(ia, ib);
}

/// After entity 0 is deleted, the next `create_entity` reuses index 0, and the
/// reused entity starts with an empty membership word.
pub proof fn lemma_recycles_deleted_slot<C>(before: &Entities<C>, deleted: &Entities<C>, created: &Entities<C>)
    requires
        before.memberships().len() > 0,
        deleted.cleared(before, 0),
        created.created_from(deleted),
    ensures
        created.building() == Some(0usize),
        created.memberships()[0] == 0,
        created.memberships().len() == before.memberships().len(),
        forall|t: int| #[trigger] created.component(t, 0) is None,
{
    assert(deleted.memberships()[0] == 0);
    let c = created.building().unwrap() as int;
    assert(c == 0);
    assert forall|t: int| #[trigger] created.component(t, 0) is None by {
        assert(created.component(t, 0) == deleted.component(t, 0));
    }
}

/// Deleting the same component from the same entity a second time changes nothing.
pub proof fn lemma_delete_component_idempotent<C>(
    s0: &Entities<C>,
    s1: &Entities<C>,
    s2: &Entities<C>,
    t: int,
    i: int,
)
    requires
        0 <= i < s0.memberships().len(),
        s1.removed(s0, t, i),
        s2.removed(s1, t, i),
    ensures
        s2.same_contents(s1),
{
    crate::bits::lemma_clear_bit_twice(s0.memberships()[i], t);
    assert(s2.memberships() =~= s1.memberships());
    assert forall|u: int, j: int| #[trigger] s2.component(u, j) == s1.component(u, j) by {}
}

} // verus!
