//! Fixed-capacity inventories: ordered slot arrays mapping an index to an
//! optional item entity.

use vstd::prelude::*;

use crate::{EntityId, ModelError};

verus! {

/// Constant-size container of item slots. The length is fixed at creation;
/// every operation preserves it.
pub struct Inventory(pub Vec<Option<EntityId>>);

impl View for Inventory {
    type V = Seq<Option<EntityId>>;

    open spec fn view(&self) -> Seq<Option<EntityId>> {
        self.0@
    }
}

impl Inventory {
    /// A fresh inventory with `N` empty slots.
    pub fn new<const N: usize>() -> (r: Inventory)
        ensures
            r@.len() == N,
            forall|i: int| 0 <= i < N ==> r@[i] is None,
    {
        let mut slots: Vec<Option<EntityId>> = Vec::new();
        let mut i: usize = 0;
        while i < N
            invariant
                i <= N,
                slots@.len() == i,
                forall|j: int| 0 <= j < i ==> slots@[j] is None,
            decreases N - i,
        {
            slots.push(None);
            i = i + 1;
        }
        Inventory(slots)
    }

    pub fn len(&self) -> (r: usize)
        ensures
            r == self@.len(),
    {
        self.0.len()
    }

    /// The slot's content; an index at or past the fixed length fails.
    pub fn get(&self, index: usize) -> (r: Result<Option<EntityId>, ModelError>)
        ensures
            index < self@.len() ==> r == Ok::<Option<EntityId>, ModelError>(self@[index as int]),
            index >= self@.len() ==> r == Err::<Option<EntityId>, ModelError>(
                ModelError::IndexOutOfBounds,
            ),
    {
        if index < self.0.len() {
            Ok(self.0[index])
        } else {
            Err(ModelError::IndexOutOfBounds)
        }
    }

    /// Removes and returns the slot's content, leaving the slot empty.
    pub fn take(&mut self, index: usize) -> (r: Result<Option<EntityId>, ModelError>)
        ensures
            match r {
                Ok(content) => index < old(self)@.len() && content == old(self)@[index as int]
                    && final(self)@ == old(self)@.update(index as int, None::<EntityId>),
                Err(err) => err == ModelError::IndexOutOfBounds && index >= old(self)@.len()
                    && final(self)@ == old(self)@,
            },
    {
        if index < self.0.len() {
            let content = self.0[index];
            self.0[index] = None;
            Ok(content)
        } else {
            Err(ModelError::IndexOutOfBounds)
        }
    }

    /// Fills an empty slot with `item`; a non-empty slot is refused, which
    /// forces callers to `take` first and keeps item ownership unique.
    pub fn put(&mut self, index: usize, item: EntityId) -> (r: Result<(), ModelError>)
        ensures
            match r {
                Ok(()) => index < old(self)@.len() && old(self)@[index as int] is None
                    && final(self)@ == old(self)@.update(index as int, Some(item)),
                Err(err) => final(self)@ == old(self)@ && if index >= old(self)@.len() {
                    err == ModelError::IndexOutOfBounds
                } else {
                    err == ModelError::SlotOccupied && old(self)@[index as int] is Some
                },
            },
    {
        if index >= self.0.len() {
            return Err(ModelError::IndexOutOfBounds);
        }
        if self.0[index].is_some() {
            return Err(ModelError::SlotOccupied);
        }
        self.0[index] = Some(item);
        Ok(())
    }

    /// Exchanges the contents of two slots of this inventory.
    pub fn swap(&mut self, i: usize, j: usize) -> (r: Result<(), ModelError>)
        ensures
            match r {
                Ok(()) => i < old(self)@.len() && j < old(self)@.len()
                    && final(self)@ == old(self)@.update(i as int, old(self)@[j as int]).update(
                    j as int,
                    old(self)@[i as int],
                ),
                Err(err) => err == ModelError::IndexOutOfBounds
                    && (i >= old(self)@.len() || j >= old(self)@.len())
                    && final(self)@ == old(self)@,
            },
    {
        if i >= self.0.len() || j >= self.0.len() {
            return Err(ModelError::IndexOutOfBounds);
        }
        let a = self.0[i];
        let b = self.0[j];
        self.0[i] = b;
        self.0[j] = a;
        Ok(())
    }
}

} // verus!
