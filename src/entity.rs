//! Dense store of simulation entities with stable integer handles.
use vstd::prelude::*;

verus! {

/// Handle of an entity: its index in the `EntityStore` that issued it.
#[derive(Clone, Copy, Debug, PartialEq, Eq, Structural)]
pub struct EntityId(pub usize);

/// Owns every entity of a world. Entities are never removed, so an id stays
/// valid for the store's whole life.
pub struct EntityStore<T> {
    entities: Vec<T>,
}

impl<T> View for EntityStore<T> {
    type V = Seq<T>;

    closed spec fn view(&self) -> Seq<T> {
        self.entities@
    }
}

impl<T> EntityStore<T> {
    pub fn new() -> (r: Self)
        ensures
            r@ == Seq::<T>::empty(),
    {
        EntityStore { entities: Vec::new() }
    }

    pub fn len(&self) -> (r: usize)
        ensures
            r == self@.len(),
    {
        self.entities.len()
    }

    pub fn get(&self, id: EntityId) -> (r: &T)
        requires
            id.0 < self@.len(),
        ensures
            *r == self@[id.0 as int],
    {
        &self.entities[id.0]
    }

    pub fn get_mut(&mut self, id: EntityId) -> (r: &mut T)
        requires
            id.0 < old(self)@.len(),
        ensures
            *r == old(self)@[id.0 as int],
            final(self)@ == old(self)@.update(id.0 as int, *final(r)),
    {
        &mut self.entities[id.0]
    }

    /// Two distinct entities, borrowed mutably at once.
    pub fn get_mut_pair(&mut self, id1: EntityId, id2: EntityId) -> (r: (&mut T, &mut T))
        requires
            id1.0 < old(self)@.len(),
            id2.0 < old(self)@.len(),
            id1.0 != id2.0,
        ensures
            *r.0 == old(self)@[id1.0 as int],
            *r.1 == old(self)@[id2.0 as int],
            final(self)@ == old(self)@.update(id1.0 as int, *final(r.0)).update(
                id2.0 as int,
                *final(r.1),
            ),
    {
        if id1.0 < id2.0 {
            let (split1, split2) = self.entities.as_mut_slice().split_at_mut(id2.0);
            (&mut split1[id1.0], &mut split2[0])
        } else {
            let (split1, split2) = self.entities.as_mut_slice().split_at_mut(id1.0);
            (&mut split2[0], &mut split1[id2.0])
        }
    }

    pub fn insert(&mut self, object: T) -> (id: EntityId)
        ensures
            id.0 == old(self)@.len(),
            final(self)@ == old(self)@.push(object),
    {
        let id = EntityId(self.entities.len());
        self.entities.push(object);
        id
    }
}

} // verus!
