//! Type-keyed singletons: at most one value per resource type.
use std::any::TypeId;
use vstd::prelude::*;

use crate::type_key::{find_key, lemma_index_of_unique};

verus! {

/// Singleton values keyed by their type.
pub struct Resources<R> {
    /// The types that hold a value; distinct.
    keys: Vec<TypeId>,
    /// The value of each type in `keys`, at the same position.
    data: Vec<R>,
}

impl<R> View for Resources<R> {
    type V = Map<TypeId, R>;

    closed spec fn view(&self) -> Map<TypeId, R> {
        Map::new(|k: TypeId| self.keys@.contains(k), |k: TypeId| self.data@[self.keys@.index_of(k)])
    }
}

impl<R> Resources<R> {
    /// The store's invariant.
    pub closed spec fn wf(&self) -> bool {
        &&& self.keys@.len() == self.data@.len()
        &&& self.keys@.no_duplicates()
    }

    proof fn lemma_view_at(&self, p: int)
        requires
            self.wf(),
            0 <= p < self.keys@.len(),
        ensures
            self@.contains_key(self.keys@[p]),
            self@[self.keys@[p]] == self.data@[p],
    {
        lemma_index_of_unique(self.keys@, p);
    }

    /// A store without resources.
    pub fn new() -> (r: Self)
        ensures
            r.wf(),
            r@ == Map::<TypeId, R>::empty(),
    {
        let r = Resources { keys: Vec::new(), data: Vec::new() };
        proof {
            assert(r@ =~= Map::<TypeId, R>::empty());
        }
        r
    }

    /// Stores `data` as the resource of type `key`, replacing any earlier one.
    pub fn add(&mut self, key: TypeId, data: R)
        requires
            old(self).wf(),
        ensures
            final(self).wf(),
            final(self)@ == old(self)@.insert(key, data),
    {
        let ghost prev = *self;
        match find_key(&self.keys, &key) {
            Some(i) => {
                self.data.set(i, data);
                proof {
                    assert forall|k: TypeId| #[trigger] self@.contains_key(k) implies self@[k] == prev@.insert(key, data)[k] by {
                        let p = self.keys@.index_of(k);
                        self.lemma_view_at(p);
                        prev.lemma_view_at(p);
                    }
                    lemma_index_of_unique(self.keys@, i as int);
                    assert(self@ =~= prev@.insert(key, data));
                }
            },
            None => {
                self.keys.push(key);
                self.data.push(data);
                proof {
                    let n = prev.keys@.len() as int;
                    assert(self.keys@[n] == key);
                    assert forall|k: TypeId| #[trigger] self@.contains_key(k) implies self@[k] == prev@.insert(key, data)[k] by {
                        let p = self.keys@.index_of(k);
                        self.lemma_view_at(p);
                        if p < n {
                            assert(prev.keys@[p] == k);
                            prev.lemma_view_at(p);
                        }
                    }
                    assert forall|k: TypeId| prev@.insert(key, data).contains_key(k) implies #[trigger] self@.contains_key(k) by {
                        if k != key {
                            assert(prev@.contains_key(k));
                            let p = prev.keys@.index_of(k);
                            assert(0 <= p < n && prev.keys@[p] == k);
                            assert(self.keys@[p] == k);
                        }
                    }
                    assert(self@ =~= prev@.insert(key, data));
                }
            },
        }
    }

    /// The resource of type `key`, if there is one.
    pub fn get_ref(&self, key: TypeId) -> (r: Option<&R>)
        requires
            self.wf(),
        ensures
            r is Some <==> self@.contains_key(key),
            r is Some ==> *r->Some_0 == self@[key],
    {
        match find_key(&self.keys, &key) {
            Some(i) => {
                proof {
                    self.lemma_view_at(i as int);
                }
                Some(&self.data[i])
            },
            None => None,
        }
    }

    /// Exclusive access to the resource of type `key`, if there is one; what is
    /// written through it becomes that resource.
    pub fn get_mut(&mut self, key: TypeId) -> (r: Option<&mut R>)
        requires
            old(self).wf(),
        ensures
            r is Some <==> old(self)@.contains_key(key),
            r is None ==> *final(self) == *old(self),
            r is Some ==> {
                &&& *r->Some_0 == old(self)@[key]
                &&& final(self).wf()
                &&& final(self)@ == old(self)@.insert(key, *final(r->Some_0))
            },
    {
        match find_key(&self.keys, &key) {
            Some(i) => {
                proof {
                    self.lemma_view_at(i as int);
                    lemma_index_of_unique(self.keys@, i as int);
                }
                Some(&mut self.data[i])
            },
            None => None,
        }
    }

    /// Removes the resource of type `key`; removing an absent one changes nothing.
    pub fn remove(&mut self, key: TypeId)
        requires
            old(self).wf(),
        ensures
            final(self).wf(),
            final(self)@ == old(self)@.remove(key),
    {
        let ghost prev = *self;
        match find_key(&self.keys, &key) {
            Some(i) => {
                self.keys.remove(i);
                self.data.remove(i);
                proof {
                    let ii = i as int;
                    assert forall|a: int, b: int| 0 <= a < self.keys@.len() && 0 <= b < self.keys@.len() && a != b
                        implies self.keys@[a] != self.keys@[b] by {
                        let pa = if a < ii { a } else { a + 1 };
                        let pb = if b < ii { b } else { b + 1 };
                        assert(self.keys@[a] == prev.keys@[pa]);
                        assert(self.keys@[b] == prev.keys@[pb]);
                    }
                    assert forall|k: TypeId| #[trigger] self@.contains_key(k) <==> prev@.remove(key).contains_key(k) by {
                        if self@.contains_key(k) {
                            let p = self.keys@.index_of(k);
                            let q = if p < ii { p } else { p + 1 };
                            assert(prev.keys@[q] == k);
                            assert(prev.keys@[ii] == key);
                        }
                        if prev@.remove(key).contains_key(k) {
                            let q = prev.keys@.index_of(k);
                            assert(q != ii);
                            let p = if q < ii { q } else { q - 1 };
                            assert(self.keys@[p] == k);
                        }
                    }
                    assert forall|k: TypeId| #[trigger] self@.contains_key(k) implies self@[k] == prev@[k] by {
                        let p = self.keys@.index_of(k);
                        self.lemma_view_at(p);
                        let q = if p < ii { p } else { p + 1 };
                        assert(prev.keys@[q] == k);
                        prev.lemma_view_at(q);
                    }
                    assert(self@ =~= prev@.remove(key));
                }
            },
            None => {
                proof {
                    assert(self@ =~= prev@.remove(key));
                }
            },
        }
    }
}

impl<R> Default for Resources<R> {
    fn default() -> (r: Self)
        ensures
            r.wf(),
            r@ == Map::<TypeId, R>::empty(),
    {
        Self::new()
    }
}

} // verus!
