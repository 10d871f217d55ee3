//! Queries: select the entities that hold every one of a set of component types.
use std::any::TypeId;
use vstd::prelude::*;

use crate::bits::{bit, contains_mask, has_bit, lemma_bits_distinct, lemma_contains_mask_bits, lemma_set_bit};
use crate::custom_errors::CustomErrors;
use crate::entities::Entities;

verus! {

/// The matching entity indexes of a query, ascending.
pub type QueryIndexes = Vec<usize>;

/// For each requested type, in order of request, the matching entities' components.
pub type QueryComponents<'a, C> = Vec<Vec<&'a C>>;

/// Whether entity `i` of `e` holds a component of every type in `keys`.
pub open spec fn holds_all<C>(e: &Entities<C>, keys: Seq<TypeId>, i: int) -> bool {
    &&& 0 <= i < e.memberships().len()
    &&& forall|j: int| 0 <= j < keys.len() ==> (#[trigger] e.component(e.kind_index(keys[j]), i)) is Some
}

/// `ids` lists, in strictly ascending order, exactly the entities of `e` that
/// hold a component of every type in `keys`.
pub open spec fn lists_holders<C>(e: &Entities<C>, keys: Seq<TypeId>, ids: Seq<usize>) -> bool {
    &&& forall|k: int| 0 <= k < ids.len() ==> holds_all(e, keys, #[trigger] ids[k] as int)
    &&& forall|k1: int, k2: int| 0 <= k1 < k2 < ids.len() ==> ids[k1] < ids[k2]
    &&& forall|i: int| #[trigger] holds_all(e, keys, i) ==> ids.contains(i as usize)
}

/// A query under construction against an entity store.
pub struct Query<'a, C> {
    /// The bits that a matching entity's membership word must hold.
    map: u32,
    /// The requested types, in order of request.
    type_ids: Vec<TypeId>,
    /// The position of each requested type in the store.
    positions: Vec<usize>,
    /// The store that is queried.
    entities: &'a Entities<C>,
}

impl<'a, C> Query<'a, C> {
    /// The store that is queried.
    pub closed spec fn store(&self) -> Entities<C> {
        *self.entities
    }

    /// The requested types, in order of request.
    pub closed spec fn requested(&self) -> Seq<TypeId> {
        self.type_ids@
    }

    /// The bits that a matching entity's membership word must hold: the OR of
    /// the requested types' bits.
    pub closed spec fn mask(&self) -> u32 {
        self.map
    }

    /// The query's invariant.
    pub closed spec fn wf(&self) -> bool {
        &&& self.entities.wf()
        &&& self.positions@.len() == self.type_ids@.len()
        &&& forall|j: int|
            0 <= j < self.type_ids@.len() ==> {
                &&& self.entities.registered(#[trigger] self.type_ids@[j])
                &&& self.positions@[j] as int == self.entities.kind_index(self.type_ids@[j])
                &&& self.positions@[j] < self.entities.kinds().len()
            }
        &&& forall|u: int|
            0 <= u < 32 ==> (#[trigger] has_bit(self.map, u) <==> exists|j: int|
                0 <= j < self.positions@.len() && self.positions@[j] as int == u)
    }

    /// Whether entity `i` holds a component of every requested type.
    pub open spec fn selects(&self, i: int) -> bool {
        holds_all(&self.store(), self.requested(), i)
    }

    /// `ids` lists, in strictly ascending order, exactly the entities that the query selects.
    pub open spec fn lists_matches(&self, ids: Seq<usize>) -> bool {
        lists_holders(&self.store(), self.requested(), ids)
    }

    /// A query that requires nothing yet.
    pub fn new(entities: &'a Entities<C>) -> (r: Self)
        requires
            entities.wf(),
        ensures
            r.wf(),
            r.store() == *entities,
            r.requested() == Seq::<TypeId>::empty(),
            r.mask() == 0,
    {
        let r = Query { map: 0, type_ids: Vec::new(), positions: Vec::new(), entities };
        proof {
            assert forall|u: int| 0 <= u < 32 implies !has_bit(r.map, u) by {
                crate::bits::lemma_zero_has_no_bits(u);
            }
        }
        r
    }

    /// Requires the component type `key` as well.
    ///
    /// Fails with `ComponentNotRegistered` if `key` is not registered in the store.
    pub fn with_component(&mut self, key: TypeId) -> (r: Result<&mut Self, CustomErrors>)
        requires
            old(self).wf(),
        ensures
            r is Ok <==> old(self).store().registered(key),
            r is Err ==> r->Err_0 == CustomErrors::ComponentNotRegistered && *final(self) == *old(self),
            r is Ok ==> {
                let s = r->Ok_0;
                &&& (*s).wf()
                &&& (*s).store() == old(self).store()
                &&& (*s).requested() == old(self).requested().push(key)
                &&& (*s).mask() == old(self).mask() | bit(old(self).store().kind_index(key))
                &&& *final(self) == *final(s)
            },
    {
        let t = match self.entities.kind_position(&key) {
            Some(t) => t,
            None => return Err(CustomErrors::ComponentNotRegistered),
        };
        let ghost prev = *self;
        proof {
            self.entities.lemma_membership_consistent();
        }
        self.map = self.map | (1u32 << (t as u32));
        self.type_ids.push(key);
        self.positions.push(t);
        proof {
            assert forall|j: int| 0 <= j < self.type_ids@.len() implies {
                &&& self.entities.registered(#[trigger] self.type_ids@[j])
                &&& self.positions@[j] as int == self.entities.kind_index(self.type_ids@[j])
                &&& self.positions@[j] < self.entities.kinds().len()
            } by {
                if j < prev.type_ids@.len() {
                    assert(self.type_ids@[j] == prev.type_ids@[j]);
                }
            }
            assert forall|u: int| 0 <= u < 32 implies (#[trigger] has_bit(self.map, u) <==> exists|j: int|
                0 <= j < self.positions@.len() && self.positions@[j] as int == u) by {
                lemma_set_bit(prev.map, t as int, u);
                if has_bit(prev.map, u) {
                    let j = choose|j: int| 0 <= j < prev.positions@.len() && prev.positions@[j] as int == u;
                    assert(self.positions@[j] == prev.positions@[j]);
                }
                if u == t {
                    assert(self.positions@[prev.positions@.len() as int] == t);
                }
                if exists|j: int| 0 <= j < self.positions@.len() && self.positions@[j] as int == u {
                    let j = choose|j: int| 0 <= j < self.positions@.len() && self.positions@[j] as int == u;
                    if j < prev.positions@.len() {
                        assert(prev.positions@[j] == self.positions@[j]);
                    }
                }
            }
        }
        Ok(self)
    }

    /// Runs the query: the matching entities in ascending order and, for each
    /// requested type in order of request, their components of that type, so
    /// that the k-th component of every type belongs to the k-th entity.
    pub fn run(&self) -> (r: (QueryIndexes, QueryComponents<'a, C>))
        requires
            self.wf(),
        ensures
            self.lists_matches(r.0@),
            r.1@.len() == self.requested().len(),
            forall|j: int| 0 <= j < r.1@.len() ==> (#[trigger] r.1@[j])@.len() == r.0@.len(),
            forall|j: int, k: int|
                0 <= j < r.1@.len() && 0 <= k < r.0@.len() ==> Some(*(#[trigger] r.1@[j]@[k]))
                    == self.store().component(self.store().kind_index(self.requested()[j]), r.0@[k] as int),
    {
        let ids = self.matching_indexes();
        let mut columns: Vec<Vec<&'a C>> = Vec::new();
        let mut j: usize = 0;
        while j < self.positions.len()
            invariant
                self.wf(),
                self.lists_matches(ids@),
                forall|k: int| 0 <= k < ids@.len() ==> #[trigger] ids@[k] < self.store().memberships().len(),
                j <= self.positions@.len(),
                columns@.len() == j,
                forall|jj: int| 0 <= jj < j ==> (#[trigger] columns@[jj])@.len() == ids@.len(),
                forall|jj: int, k: int|
                    0 <= jj < j && 0 <= k < ids@.len() ==> Some(*(#[trigger] columns@[jj]@[k]))
                        == self.store().component(self.store().kind_index(self.requested()[jj]), ids@[k] as int),
            decreases self.positions@.len() - j,
        {
            let t = self.positions[j];
            let mut column: Vec<&'a C> = Vec::new();
            let mut k: usize = 0;
            while k < ids.len()
                invariant
                    self.wf(),
                    self.lists_matches(ids@),
                    forall|k: int| 0 <= k < ids@.len() ==> #[trigger] ids@[k] < self.store().memberships().len(),
                    j < self.positions@.len(),
                    t == self.positions@[j as int],
                    k <= ids@.len(),
                    column@.len() == k,
                    forall|kk: int| 0 <= kk < k ==> Some(*(#[trigger] column@[kk]))
                        == self.store().component(t as int, ids@[kk] as int),
                decreases ids@.len() - k,
            {
                let i = ids[k];
                proof {
                    assert(self.selects(ids@[k as int] as int));
                    assert(self.type_ids@[j as int] == self.requested()[j as int]);
                    assert(self.store().component(t as int, i as int) is Some);
                    self.entities.lemma_membership_consistent();
                }
                column.push(self.entities.component_ref(t, i));
                k += 1;
            }
            proof {
                assert(self.type_ids@[j as int] == self.requested()[j as int]);
            }
            columns.push(column);
            j += 1;
        }
        (ids, columns)
    }

    /// Runs the query and hands back one `QueryEntity` per matching entity, in
    /// ascending order.
    pub fn run_entity(&self) -> (r: Vec<QueryEntity>)
        requires
            self.wf(),
        ensures
            self.lists_matches(r@.map_values(|q: QueryEntity| q.id)),
    {
        let ids = self.matching_indexes();
        let mut r: Vec<QueryEntity> = Vec::new();
        let mut k: usize = 0;
        while k < ids.len()
            invariant
                k <= ids@.len(),
                r@.len() == k,
                forall|kk: int| 0 <= kk < k ==> (#[trigger] r@[kk]).id == ids@[kk],
            decreases ids@.len() - k,
        {
            r.push(QueryEntity::new(ids[k]));
            k += 1;
        }
        proof {
            assert(r@.map_values(|q: QueryEntity| q.id) =~= ids@);
        }
        r
    }

    /// Entity `i` matches exactly when it holds every requested type.
    proof fn lemma_mask_selects(&self, i: int)
        requires
            self.wf(),
            0 <= i < self.store().memberships().len(),
        ensures
            contains_mask(self.store().memberships()[i], self.mask()) <==> self.selects(i),
    {
        let e = self.store();
        let m = e.memberships()[i];
        e.lemma_membership_consistent();
        lemma_contains_mask_bits(m, self.map);
        if contains_mask(m, self.map) {
            assert forall|j: int| 0 <= j < self.requested().len() implies (#[trigger] e.component(
                e.kind_index(self.requested()[j]),
                i,
            )) is Some by {
                let u = self.positions@[j] as int;
                assert(self.type_ids@[j] == self.requested()[j]);
                assert(0 <= j < self.positions@.len() && self.positions@[j] as int == u);
                assert(has_bit(self.map, u));
                assert(has_bit(m, u));
            }
        }
        if self.selects(i) {
            assert forall|u: int| 0 <= u < 32 && #[trigger] has_bit(self.map, u) implies has_bit(m, u) by {
                let j = choose|j: int| 0 <= j < self.positions@.len() && self.positions@[j] as int == u;
                assert(self.type_ids@[j] == self.requested()[j]);
                assert(e.component(e.kind_index(self.requested()[j]), i) is Some);
            }
        }
    }

    /// The selected entities, ascending.
    fn matching_indexes(&self) -> (r: Vec<usize>)
        requires
            self.wf(),
        ensures
            self.lists_matches(r@),
            forall|k: int| 0 <= k < r@.len() ==> #[trigger] r@[k] < self.store().memberships().len(),
    {
        let n = self.entities.entity_count();
        let mut ids: Vec<usize> = Vec::new();
        let mut i: usize = 0;
        while i < n
            invariant
                self.wf(),
                n == self.store().memberships().len(),
                i <= n,
                forall|k: int| 0 <= k < ids@.len() ==> #[trigger] ids@[k] < i,
                forall|k: int| 0 <= k < ids@.len() ==> self.selects(#[trigger] ids@[k] as int),
                forall|k1: int, k2: int| 0 <= k1 < k2 < ids@.len() ==> ids@[k1] < ids@[k2],
                forall|j: int| 0 <= j < i && #[trigger] self.selects(j) ==> ids@.contains(j as usize),
            decreases n - i,
        {
            proof {
                self.lemma_mask_selects(i as int);
            }
            if self.entities.has_component(i, self.map) {
                let ghost before = ids@;
                ids.push(i);
                proof {
                    assert forall|j: int| 0 <= j < i + 1 && #[trigger] self.selects(j) implies ids@.contains(j as usize) by {
                        if j < i {
                            let k = choose|k: int| 0 <= k < before.len() && before[k] == j as usize;
                            assert(ids@[k] == before[k]);
                        } else {
                            assert(ids@[before.len() as int] == i);
                        }
                    }
                }
            }
            i += 1;
        }
        proof {
            assert forall|j: int| #[trigger] holds_all(&self.store(), self.requested(), j) implies ids@.contains(
                j as usize,
            ) by {
                assert(self.selects(j));
            }
        }
        ids
    }
}

/// An entity selected by a query: its index, through which a system reads and
/// writes the entity's components in the store.
#[derive(Debug, Clone, Copy, PartialEq, Eq, Structural)]
pub struct QueryEntity {
    /// The index of the entity.
    pub id: usize,
}

impl QueryEntity {
    /// A handle on entity `id`.
    pub fn new(id: usize) -> (r: Self)
        ensures
            r.id == id,
    {
        QueryEntity { id }
    }

    /// Where this entity's component of type `key` stands, or why it is not there.
    fn locate<C>(&self, entities: &Entities<C>, key: &TypeId) -> (r: Result<usize, CustomErrors>)
        requires
            entities.wf(),
        ensures
            r == self.lookup_outcome(entities, *key),
            r is Ok ==> r->Ok_0 as int == entities.kind_index(*key),
            r is Ok ==> r->Ok_0 < entities.kinds().len() && self.id < entities.memberships().len()
                && has_bit(entities.memberships()[self.id as int], r->Ok_0 as int),
    {
        proof {
            entities.lemma_membership_consistent();
        }
        let t = match entities.kind_position(key) {
            Some(t) => t,
            None => return Err(CustomErrors::ComponentNotRegistered),
        };
        if self.id >= entities.entity_count() {
            return Err(CustomErrors::EntityDoesNotExist);
        }
        if !entities.has_component(self.id, 1u32 << (t as u32)) {
            proof {
                lemma_bits_distinct(t as int, t as int);
                let m = entities.memberships()[self.id as int];
                let b = t as u32;
                assert(b < 32 ==> (((m & (1u32 << b)) == (1u32 << b)) <==> ((m & (1u32 << b)) != 0u32))) by (bit_vector);
            }
            return Err(CustomErrors::ComponentDataDoesNotExist);
        }
        proof {
            let m = entities.memberships()[self.id as int];
            let b = t as u32;
            assert(b < 32 ==> (((m & (1u32 << b)) == (1u32 << b)) <==> ((m & (1u32 << b)) != 0u32))) by (bit_vector);
        }
        Ok(t)
    }

    /// The outcome of looking up this entity's component of type `key`: the
    /// type's position, or the error that reports why there is no such component.
    pub open spec fn lookup_outcome<C>(&self, entities: &Entities<C>, key: TypeId) -> Result<usize, CustomErrors> {
        if !entities.registered(key) {
            Err(CustomErrors::ComponentNotRegistered)
        } else if self.id >= entities.memberships().len() {
            Err(CustomErrors::EntityDoesNotExist)
        } else if entities.component(entities.kind_index(key), self.id as int) is None {
            Err(CustomErrors::ComponentDataDoesNotExist)
        } else {
            Ok(entities.kind_index(key) as usize)
        }
    }

    /// Shared access to this entity's component of type `key`.
    ///
    /// Fails with `ComponentNotRegistered` if `key` is not registered, with
    /// `EntityDoesNotExist` if the entity is out of range, and with
    /// `ComponentDataDoesNotExist` if the entity holds no such component.
    pub fn get_component<'b, C>(&self, entities: &'b Entities<C>, key: TypeId) -> (r: Result<&'b C, CustomErrors>)
        requires
            entities.wf(),
        ensures
            r is Ok <==> self.lookup_outcome(entities, key) is Ok,
            r is Err ==> self.lookup_outcome(entities, key) == Err::<usize, CustomErrors>(r->Err_0),
            r is Ok ==> entities.component(entities.kind_index(key), self.id as int) == Some(*r->Ok_0),
    {
        let t = self.locate(entities, &key)?;
        Ok(entities.component_ref(t, self.id))
    }

    /// Exclusive access to this entity's component of type `key`; whatever is
    /// written through it becomes the entity's component of that type.
    ///
    /// Fails as `get_component` does.
    pub fn get_component_mut<'b, C>(&self, entities: &'b mut Entities<C>, key: TypeId) -> (r: Result<&'b mut C, CustomErrors>)
        requires
            old(entities).wf(),
        ensures
            r is Ok <==> self.lookup_outcome(old(entities), key) is Ok,
            r is Err ==> self.lookup_outcome(old(entities), key) == Err::<usize, CustomErrors>(r->Err_0)
                && *final(entities) == *old(entities),
            r is Ok ==> {
                &&& old(entities).component(old(entities).kind_index(key), self.id as int) == Some(*r->Ok_0)
                &&& final(entities).wf()
                &&& final(entities).replaced(
                    old(entities),
                    old(entities).kind_index(key),
                    self.id as int,
                    *final(r->Ok_0),
                )
                &&& final(entities).building() == old(entities).building()
            },
    {
        let t = match self.locate(entities, &key) {
            Ok(t) => t,
            Err(e) => return Err(e),
        };
        Ok(entities.component_mut(t, self.id))
    }
}

/// A query that requires the types `a` and `b` selects exactly the entities
/// whose membership word holds the bits of both, `bit_a | bit_b`: an entity
/// with only one of them, or neither, is left out.
pub proof fn lemma_query_exactness<C>(q: &Query<C>, a: TypeId, b: TypeId, i: int)
    requires
        q.wf(),
        q.requested() == seq![a, b],
        0 <= i < q.store().memberships().len(),
    ensures
        q.selects(i) <==> contains_mask(
            q.store().memberships()[i],
            bit(q.store().kind_index(a)) | bit(q.store().kind_index(b)),
        ),
        q.selects(i) <==> (has_bit(q.store().memberships()[i], q.store().kind_index(a)) && has_bit(
            q.store().memberships()[i],
            q.store().kind_index(b),
        )),
{
    let e = q.store();
    e.lemma_membership_consistent();
    assert(q.requested()[0] == a && q.requested()[1] == b);
    assert(e.registered(a) && e.registered(b)) by {
        assert(q.type_ids@[0] == a && q.type_ids@[1] == b);
    }
    crate::entities::lemma_registration_bits(&e, a, b);
    crate::entities::lemma_registration_bits(&e, b, a);
    crate::bits::lemma_query_exact(e.memberships()[i], e.kind_index(a), e.kind_index(b));
    if q.selects(i) {
        assert(e.component(e.kind_index(q.requested()[0]), i) is Some);
        assert(e.component(e.kind_index(q.requested()[1]), i) is Some);
    }
}

/// The OR of the bits of the types in `keys`: the bits that an entity holding
/// all of them has in its membership word.
pub open spec fn required_mask<C>(e: &Entities<C>, keys: Seq<TypeId>) -> u32
    decreases keys.len(),
{
    if keys.len() == 0 {
        0
    } else {
        required_mask(e, keys.drop_last()) | bit(e.kind_index(keys.last()))
    }
}

/// Bit `u` of `required_mask(e, keys)` is set exactly when some type in `keys`
/// has position `u`.
pub proof fn lemma_required_mask_bits<C>(e: &Entities<C>, keys: Seq<TypeId>, u: int)
    requires
        e.membership_consistent(),
        forall|j: int| 0 <= j < keys.len() ==> e.registered(#[trigger] keys[j]),
        0 <= u < 32,
    ensures
        has_bit(required_mask(e, keys), u) <==> exists|j: int| 0 <= j < keys.len() && e.kind_index(keys[j]) == u,
    decreases keys.len(),
{
    if keys.len() == 0 {
        crate::bits::lemma_zero_has_no_bits(u);
    } else {
        let pre = keys.drop_last();
        assert forall|j: int| 0 <= j < pre.len() implies e.registered(#[trigger] pre[j]) by {
            assert(pre[j] == keys[j]);
        }
        lemma_required_mask_bits(e, pre, u);
        let last = keys.len() - 1;
        assert(keys.last() == keys[last]);
        assert(e.registered(keys[last]));
        let t = e.kind_index(keys.last());
        assert(0 <= t < e.kinds().len());
        lemma_set_bit(required_mask(e, pre), t, u);
        if exists|j: int| 0 <= j < pre.len() && e.kind_index(pre[j]) == u {
            let j = choose|j: int| 0 <= j < pre.len() && e.kind_index(pre[j]) == u;
            assert(pre[j] == keys[j]);
        }
        if exists|j: int| 0 <= j < keys.len() && e.kind_index(keys[j]) == u {
            let j = choose|j: int| 0 <= j < keys.len() && e.kind_index(keys[j]) == u;
            if j < last {
                assert(pre[j] == keys[j]);
            }
        }
    }
}

/// For registered types, an entity holds a component of each of `keys` exactly
/// when its membership word holds every bit of their OR: the entity lists that
/// queries and systems get are the entities `i` with
/// `membership[i] & mask == mask`, in ascending order.
pub proof fn lemma_holders_mask<C>(e: &Entities<C>, keys: Seq<TypeId>, i: int)
    requires
        e.membership_consistent(),
        forall|j: int| 0 <= j < keys.len() ==> e.registered(#[trigger] keys[j]),
        0 <= i < e.memberships().len(),
    ensures
        holds_all(e, keys, i) <==> contains_mask(e.memberships()[i], required_mask(e, keys)),
{
    let m = e.memberships()[i];
    let mask = required_mask(e, keys);
    lemma_contains_mask_bits(m, mask);
    if holds_all(e, keys, i) {
        assert forall|u: int| 0 <= u < 32 && #[trigger] has_bit(mask, u) implies has_bit(m, u) by {
            lemma_required_mask_bits(e, keys, u);
            let j = choose|j: int| 0 <= j < keys.len() && e.kind_index(keys[j]) == u;
            assert(e.component(e.kind_index(keys[j]), i) is Some);
            assert(0 <= u < e.kinds().len());
        }
    }
    if contains_mask(m, mask) {
        assert forall|j: int| 0 <= j < keys.len() implies (#[trigger] e.component(e.kind_index(keys[j]), i)) is Some by {
            let u = e.kind_index(keys[j]);
            assert(e.registered(keys[j]));
            assert(0 <= u < e.kinds().len());
            lemma_required_mask_bits(e, keys, u);
            assert(has_bit(mask, u));
        }
    }
}

} // verus!
