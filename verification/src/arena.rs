//! Append-only stores that hand out stable, type-tagged identifiers.

use core::marker::PhantomData;
use vstd::prelude::*;

verus! {

/// Identifier for an object stored in an arena.
///
/// An id is a stable handle equal to the allocation position of the value it
/// names; the phantom tag keeps ids of different entity kinds apart at
/// compile time. Ids compare equal exactly when their positions are equal,
/// and are never reused within one arena.
#[derive(Debug)]
pub struct Id<T> {
    index: usize,
    _marker: PhantomData<T>,
}

impl<T> Id<T> {
    /// The allocation position this id stands for.
    pub closed spec fn pos(&self) -> int {
        self.index as int
    }

    /// Builds the id naming a given allocation position.
    pub(crate) fn from_index(index: usize) -> (r: Self)
        ensures
            r.pos() == index,
    {
        Id { index, _marker: PhantomData }
    }

    /// The allocation position as a plain index.
    pub fn index(&self) -> (r: usize)
        ensures
            r == self.pos(),
    {
        self.index
    }
}

impl<T> Clone for Id<T> {
    fn clone(&self) -> (r: Self)
        ensures
            r == *self,
    {
        Id { index: self.index, _marker: PhantomData }
    }
}

impl<T> Copy for Id<T> {

}

impl<T> PartialEq for Id<T> {
    fn eq(&self, other: &Self) -> (r: bool)
        ensures
            r == (self.pos() == other.pos()),
    {
        self.index == other.index
    }
}

impl<T> vstd::std_specs::cmp::PartialEqSpecImpl for Id<T> {
    open spec fn obeys_eq_spec() -> bool {
        true
    }

    open spec fn eq_spec(&self, other: &Self) -> bool {
        self.pos() == other.pos()
    }
}

impl<T> Eq for Id<T> {

}

/// An append-only store assigning stable ids to allocated values.
pub trait Arena<T> {
    /// The values held, in allocation order.
    spec fn contents(&self) -> Seq<T>;

    /// Allocates a new object in the arena and returns its id, which names a
    /// position strictly greater than every id handed out before.
    fn allocate(&mut self, object: T) -> (id: Id<T>)
        ensures
            final(self).contents() == old(self).contents().push(object),
            id.pos() == old(self).contents().len(),
    ;

    /// Returns a reference to the object with the given id, or `None` for an
    /// unknown or foreign id.
    fn get(&self, id: Id<T>) -> (r: Option<&T>)
        ensures
            match r {
                Some(object) => {
                    &&& 0 <= id.pos() < self.contents().len()
                    &&& *object == self.contents()[id.pos()]
                },
                None => !(0 <= id.pos() < self.contents().len()),
            },
    ;

    /// The number of values allocated so far.
    fn len(&self) -> (n: usize)
        ensures
            n == self.contents().len(),
    ;
}

/// An arena backed by a plain vector, in allocation order, so that its whole
/// contents can be written out and read back without invalidating ids.
pub struct PersistedArena<T> {
    objects: Vec<T>,
}

impl<T> PersistedArena<T> {
    /// Creates a new empty arena.
    pub fn new() -> (r: Self)
        ensures
            r.contents() == Seq::<T>::empty(),
    {
        PersistedArena { objects: Vec::new() }
    }
}

impl<T> Arena<T> for PersistedArena<T> {
    closed spec fn contents(&self) -> Seq<T> {
        self.objects@
    }

    fn allocate(&mut self, object: T) -> (id: Id<T>)
    {
        let index = self.objects.len();
        self.objects.push(object);
        Id::from_index(index)
    }

    fn get(&self, id: Id<T>) -> (r: Option<&T>)
    {
        let index = id.index();
        if index < self.objects.len() {
            Some(&self.objects[index])
        } else {
            None
        }
    }

    fn len(&self) -> (n: usize)
    {
        self.objects.len()
    }
}

impl<T> Default for PersistedArena<T> {
    fn default() -> (r: Self)
        ensures
            r.contents() == Seq::<T>::empty(),
    {
        PersistedArena::new()
    }
}

} // verus!
