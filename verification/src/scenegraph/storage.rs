use vstd::prelude::*;

use crate::scenegraph::Entity;

verus! {

/// A kind of component: any sized type, kept in a sparse-set storage.
pub trait Component: Sized {
    type Storage: ComponentStorage<Self>;
}

impl<T> Component for T {
    type Storage = VecStorage<T>;
}

/// Storage of the components of one kind, keyed by entity.
pub trait ComponentStorage<T> {
    /// The components held, by entity.
    spec fn contents(&self) -> Map<Entity, T>;

    /// Internal consistency.
    spec fn consistent(&self) -> bool;

    /// Adds a component for an entity that has none yet.
    fn insert_unchecked(&mut self, entity: Entity, data: T)
        requires
            old(self).consistent(),
            !old(self).contents().contains_key(entity),
        ensures
            final(self).consistent(),
            final(self).contents() == old(self).contents().insert(entity, data);

    /// The component of an entity that has one.
    fn get_unchecked(&self, entity: Entity) -> (r: &T)
        requires
            self.consistent(),
            self.contents().contains_key(entity),
        ensures
            *r == self.contents()[entity];

    /// Mutable access to the component of an entity that has one.
    fn get_unchecked_mut(&mut self, entity: Entity) -> (r: &mut T)
        requires
            old(self).consistent(),
            old(self).contents().contains_key(entity),
        ensures
            *r == old(self).contents()[entity],
            final(self).consistent(),
            final(self).contents() == old(self).contents().insert(entity, *final(r));

    /// Removes the component of an entity that has one.
    fn remove_unchecked(&mut self, entity: Entity)
        requires
            old(self).consistent(),
            old(self).contents().contains_key(entity),
        ensures
            final(self).consistent(),
            final(self).contents() == old(self).contents().remove(entity);

    /// Whether `entity` has a component here.
    fn contains(&self, entity: Entity) -> (r: bool)
        requires
            self.consistent(),
        ensures
            r == self.contents().contains_key(entity);
}

impl<T> ComponentStorage<T> for VecStorage<T> {
    open spec fn contents(&self) -> Map<Entity, T> {
        self@
    }

    open spec fn consistent(&self) -> bool {
        self.wf()
    }

    fn insert_unchecked(&mut self, entity: Entity, data: T) {
        VecStorage::insert_unchecked(self, entity, data);
    }

    fn get_unchecked(&self, entity: Entity) -> (r: &T) {
        VecStorage::get_unchecked(self, entity)
    }

    fn get_unchecked_mut(&mut self, entity: Entity) -> (r: &mut T) {
        VecStorage::get_unchecked_mut(self, entity)
    }

    fn remove_unchecked(&mut self, entity: Entity) {
        VecStorage::remove_unchecked(self, entity);
    }

    fn contains(&self, entity: Entity) -> (r: bool) {
        VecStorage::contains(self, entity)
    }
}

/// Sparse-set storage of the components of one kind, keyed by entity.
///
/// `dense[i]` is the component of `entities[i]`, and `sparse[e]` is the
/// position of entity `e` in `dense` (when `e` has a component at all).
pub struct VecStorage<T> {
    dense: Vec<T>,
    entities: Vec<Entity>,
    sparse: Vec<usize>,
}

impl<T> View for VecStorage<T> {
    type V = Map<Entity, T>;

    /// The components held, by entity.
    closed spec fn view(&self) -> Map<Entity, T> {
        Map::new(|e: Entity| self.has(e), |e: Entity| self.dense@[self.sparse@[e as int] as int])
    }
}

impl<T> VecStorage<T> {
    /// Internal consistency of the three vectors.
    pub closed spec fn wf(&self) -> bool {
        &&& self.dense@.len() == self.entities@.len()
        &&& forall|i: int|
            #![trigger self.entities@[i]]
            0 <= i < self.entities@.len() ==> {
                &&& (self.entities@[i] as int) < self.sparse@.len()
                &&& self.sparse@[self.entities@[i] as int] == i
            }
    }

    /// Whether entity `e` is found through its sparse slot.
    closed spec fn has(&self, e: Entity) -> bool {
        &&& (e as int) < self.sparse@.len()
        &&& self.sparse@[e as int] < self.entities@.len()
        &&& self.entities@[self.sparse@[e as int] as int] == e
    }

    /// The entities that have a component, in storage order.
    pub closed spec fn entity_seq(&self) -> Seq<Entity> {
        self.entities@
    }

    /// The components, in storage order (the same order as `entity_seq`).
    pub closed spec fn value_seq(&self) -> Seq<T> {
        self.dense@
    }

    /// Storage order pairs each entity with its component, and names each
    /// entity with a component exactly once.
    pub proof fn lemma_order(&self)
        requires
            self.wf(),
        ensures
            self.entity_seq().len() == self.value_seq().len(),
            self.entity_seq().no_duplicates(),
            forall|i: int|
                #![trigger self.entity_seq()[i]]
                0 <= i < self.entity_seq().len() ==> self@.contains_key(self.entity_seq()[i])
                    && self@[self.entity_seq()[i]] == self.value_seq()[i],
            forall|e: Entity| #[trigger]
                self@.contains_key(e) ==> self.entity_seq().contains(e),
    {
        assert forall|i: int, j: int|
            0 <= i < self.entity_seq().len() && 0 <= j < self.entity_seq().len() && i != j implies
            self.entity_seq()[i] != self.entity_seq()[j] by {
            let _ = self.entities@[i];
            let _ = self.entities@[j];
        }
        assert forall|e: Entity| #[trigger] self@.contains_key(e) implies self.entity_seq().contains(e) by {
            let k = self.sparse@[e as int] as int;
            assert(self.entity_seq()[k] == e);
        }
    }

    /// An empty storage.
    pub fn new() -> (s: Self)
        ensures
            s.wf(),
            s@ == Map::<Entity, T>::empty(),
            s.entity_seq() == Seq::<Entity>::empty(),
    {
        let s = VecStorage { dense: Vec::new(), entities: Vec::new(), sparse: Vec::new() };
        assert(s@ =~= Map::<Entity, T>::empty());
        s
    }

    /// Number of components held.
    pub fn len(&self) -> (n: usize)
        requires
            self.wf(),
        ensures
            n == self.entity_seq().len(),
            n == self.value_seq().len(),
    {
        self.entities.len()
    }

    /// Whether `entity` has a component here.
    pub fn contains(&self, entity: Entity) -> (r: bool)
        requires
            self.wf(),
        ensures
            r == self@.contains_key(entity),
    {
        let eidx = entity as usize;
        if eidx < self.sparse.len() {
            let cidx = self.sparse[eidx];
            if cidx < self.entities.len() {
                self.entities[cidx] == entity
            } else {
                false
            }
        } else {
            false
        }
    }

    /// Adds a component for an entity that has none yet.
    pub fn insert_unchecked(&mut self, entity: Entity, data: T)
        requires
            old(self).wf(),
            !old(self)@.contains_key(entity),
        ensures
            final(self).wf(),
            final(self)@ == old(self)@.insert(entity, data),
            final(self).entity_seq() == old(self).entity_seq().push(entity),
            final(self).value_seq() == old(self).value_seq().push(data),
    {
        let eidx = entity as usize;
        while self.sparse.len() <= eidx
            invariant
                self.wf(),
                self.dense@ == old(self).dense@,
                self.entities@ == old(self).entities@,
                self.sparse@.len() >= old(self).sparse@.len(),
                forall|k: int|
                    0 <= k < old(self).sparse@.len() ==> #[trigger] self.sparse@[k]
                        == old(self).sparse@[k],
                forall|k: int|
                    old(self).sparse@.len() <= k < self.sparse@.len() ==> #[trigger] self.sparse@[k]
                        == 0,
            decreases eidx + 1 - self.sparse@.len(),
        {
            self.sparse.push(0);
            proof {
                assert forall|i: int|
                    #![trigger self.entities@[i]]
                    0 <= i < self.entities@.len() implies {
                        &&& (self.entities@[i] as int) < self.sparse@.len()
                        &&& self.sparse@[self.entities@[i] as int] == i
                    } by {
                    let _ = old(self).entities@[i];
                }
            }
        }
        let ghost mid = *self;
        let comp_idx = self.dense.len();
        self.sparse.set(eidx, comp_idx);
        self.entities.push(entity);
        self.dense.push(data);
        proof {
            assert forall|i: int|
                #![trigger self.entities@[i]]
                0 <= i < self.entities@.len() implies {
                    &&& (self.entities@[i] as int) < self.sparse@.len()
                    &&& self.sparse@[self.entities@[i] as int] == i
                } by {
                if i < mid.entities@.len() {
                    let _ = mid.entities@[i];
                    if mid.entities@[i] == entity {
                        let _ = old(self).entities@[i];
                        assert(old(self).has(entity));
                    }
                }
            }
            assert forall|e: Entity| #[trigger] self.has(e) == (old(self).has(e) || e == entity) by {
                if e != entity && (e as int) < mid.sparse@.len() {
                    assert(self.sparse@[e as int] == mid.sparse@[e as int]);
                    if (e as int) >= old(self).sparse@.len() {
                        assert(mid.sparse@[e as int] == 0);
                        if self.has(e) {
                            let k = self.sparse@[e as int] as int;
                            assert(k < mid.entities@.len());
                            let _ = mid.entities@[k];
                        }
                    }
                }
            }
            assert(self@ =~= old(self)@.insert(entity, data));
        }
    }

    /// The component of an entity that has one.
    pub fn get_unchecked(&self, entity: Entity) -> (r: &T)
        requires
            self.wf(),
            self@.contains_key(entity),
        ensures
            *r == self@[entity],
    {
        let comp_idx = self.sparse[entity as usize];
        &self.dense[comp_idx]
    }

    /// Mutable access to the component of an entity that has one; the other
    /// components stay as they are.
    pub fn get_unchecked_mut(&mut self, entity: Entity) -> (r: &mut T)
        requires
            old(self).wf(),
            old(self)@.contains_key(entity),
        ensures
            *r == old(self)@[entity],
            final(self).wf(),
            final(self)@ == old(self)@.insert(entity, *final(r)),
            final(self).entity_seq() == old(self).entity_seq(),
    {
        let comp_idx = self.sparse[entity as usize];
        proof {
            assert forall|e: Entity| #[trigger] old(self).has(e) && e != entity implies
                old(self).sparse@[e as int] != comp_idx by {
            }
        }
        &mut self.dense[comp_idx]
    }

    /// Removes the component of an entity that has one; the last component
    /// in storage order takes its place.
    pub fn remove_unchecked(&mut self, entity: Entity)
        requires
            old(self).wf(),
            old(self)@.contains_key(entity),
        ensures
            final(self).wf(),
            final(self)@ == old(self)@.remove(entity),
    {
        let comp_idx = self.sparse[entity as usize];
        let last_pos = self.entities.len() - 1;
        let last = self.entities[last_pos];
        self.sparse.set(last as usize, comp_idx);
        self.entities.swap_remove(comp_idx);
        self.dense.swap_remove(comp_idx);
        proof {
            let o = old(self);
            assert forall|i: int|
                #![trigger self.entities@[i]]
                0 <= i < self.entities@.len() implies {
                    &&& (self.entities@[i] as int) < self.sparse@.len()
                    &&& self.sparse@[self.entities@[i] as int] == i
                } by {
                let _ = o.entities@[i];
                let _ = o.entities@[last_pos as int];
                if i == comp_idx {
                } else {
                    assert(self.entities@[i] == o.entities@[i]);
                    assert(o.entities@[i] != last);
                }
            }
            let _ = o.entities@[last_pos as int];
            assert forall|e: Entity| #[trigger] self.has(e) == (o.has(e) && e != entity) by {
                if o.has(e) && e != entity {
                    let k = o.sparse@[e as int] as int;
                    let _ = o.entities@[k];
                    if e == last {
                        assert(self.sparse@[e as int] == comp_idx);
                    } else {
                        assert(k != last_pos);
                        assert(self.sparse@[e as int] == k);
                        assert(self.entities@[k] == e);
                    }
                }
                if self.has(e) {
                    let k = self.sparse@[e as int] as int;
                    let _ = self.entities@[k];
                    if k == comp_idx {
                        assert(self.entities@[k] == last);
                    } else {
                        assert(self.entities@[k] == o.entities@[k]);
                        let _ = o.entities@[k];
                    }
                }
            }
            assert forall|e: Entity| #[trigger] self.has(e) implies self.dense@[self.sparse@[e as int] as int]
                == o.dense@[o.sparse@[e as int] as int] by {
                let k = self.sparse@[e as int] as int;
                let _ = self.entities@[k];
                let ko = o.sparse@[e as int] as int;
                let _ = o.entities@[ko];
                if e == last {
                } else {
                    let _ = o.entities@[k];
                }
            }
            assert(self@ =~= o@.remove(entity));
        }
    }

    /// The component of `entity`, if it has one.
    pub fn get(&self, entity: Entity) -> (r: Option<&T>)
        requires
            self.wf(),
        ensures
            r matches Some(v) ==> self@.contains_key(entity) && *v == self@[entity],
            r is None ==> !self@.contains_key(entity),
    {
        if self.contains(entity) {
            Some(self.get_unchecked(entity))
        } else {
            None
        }
    }

    /// Sets the component of `entity`, replacing the one it had, if any.
    pub fn insert(&mut self, entity: Entity, component: T)
        requires
            old(self).wf(),
        ensures
            final(self).wf(),
            final(self)@ == old(self)@.insert(entity, component),
    {
        if self.contains(entity) {
            let r = self.get_unchecked_mut(entity);
            *r = component;
        } else {
            self.insert_unchecked(entity, component);
        }
    }

    /// Removes the component of `entity`, if it has one.
    pub fn remove(&mut self, entity: Entity)
        requires
            old(self).wf(),
        ensures
            final(self).wf(),
            final(self)@ == old(self)@.remove(entity),
    {
        if self.contains(entity) {
            self.remove_unchecked(entity);
        } else {
            proof {
                assert(old(self)@.remove(entity) =~= old(self)@);
            }
        }
    }

    /// The components, in storage order.
    pub fn iter(&self) -> (s: &[T])
        requires
            self.wf(),
        ensures
            s@ == self.value_seq(),
    {
        self.dense.as_slice()
    }

    /// The entities and their components, in storage order: the component
    /// at each position belongs to the entity at the same position.
    pub fn iter_with_entity(&self) -> (r: (&[Entity], &[T]))
        requires
            self.wf(),
        ensures
            r.0@ == self.entity_seq(),
            r.1@ == self.value_seq(),
    {
        (self.entities.as_slice(), self.dense.as_slice())
    }

    /// The entities and their components, in storage order, with the
    /// components open to change: what is written through the slice becomes
    /// the components of the entities at the same positions. (A slice keeps
    /// its length, so the storage stays consistent.)
    pub fn iter_with_entity_mut(&mut self) -> (r: (&[Entity], &mut [T]))
        requires
            old(self).wf(),
        ensures
            r.0@ == old(self).entity_seq(),
            r.1@ == old(self).value_seq(),
            final(self).entity_seq() == old(self).entity_seq(),
            final(self).value_seq() == final(r.1)@,
            final(r.1)@.len() == r.1@.len() ==> final(self).wf(),
    {
        (self.entities.as_slice(), self.dense.as_mut_slice())
    }
}

} // verus!
