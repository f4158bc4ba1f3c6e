//! Names for widgets: the handle the arena gives out, and the name and number
//! an application gives.

use vstd::prelude::*;

verus! {

/// A reference to a widget in the arena: the slot it lives in and the
/// generation it was stored with. A handle is equal to another when both
/// parts are equal.
#[derive(Clone, Copy, Debug, PartialEq, Eq, Structural, Hash)]
pub struct Handle {
    pub key: usize,
    pub generation: u64,
}

impl Handle {
    /// The handle that stands for "no widget".
    pub open spec fn dangling() -> Handle {
        Handle { key: usize::MAX, generation: 0 }
    }

    /// The slot of the arena that the handle points to.
    pub fn get_key(&self) -> (key: usize)
        ensures
            key == self.key,
    {
        self.key
    }

    /// The generation the widget was stored with; 0 only for the handle that
    /// stands for "no widget".
    pub fn get_generation(&self) -> (generation: u64)
        ensures
            generation == self.generation,
    {
        self.generation
    }

    /// Whether this is the handle that stands for "no widget".
    pub fn is_dangling(&self) -> (dangling: bool)
        ensures
            dangling == (*self == Handle::dangling()),
    {
        self.key == usize::MAX && self.generation == 0
    }
}

impl Default for Handle {
    fn default() -> (handle: Handle)
        ensures
            handle == Handle::dangling(),
    {
        Handle { key: usize::MAX, generation: 0 }
    }
}

/// The name and number by which an application finds a widget.
#[derive(Clone, Debug, PartialEq, Eq, Hash)]
pub struct Identity {
    pub name: String,
    pub id: u64,
}

impl View for Identity {
    type V = (Seq<char>, u64);

    open spec fn view(&self) -> (Seq<char>, u64) {
        (self.name@, self.id)
    }
}

impl Identity {
    pub fn new(name: &str, id: u64) -> (identity: Identity)
        ensures
            identity@ == (name@, id),
    {
        Identity { name: name.to_owned(), id }
    }

    /// Whether both the name and the number are those of `other`.
    pub fn same_as(&self, other: &Identity) -> (same: bool)
        ensures
            same == (self@ == other@),
    {
        self.id == other.id && self.name == other.name
    }
}

/// The handle of a widget's parent.
#[derive(Clone, Copy, Debug, PartialEq, Eq, Structural, Hash)]
pub struct Parent(pub Handle);

impl Parent {
    /// The slot of the arena that the parent lives in.
    pub fn get_key(&self) -> (key: usize)
        ensures
            key == self.0.key,
    {
        self.0.get_key()
    }

    /// The parent's handle.
    pub fn get_id(&self) -> (handle: Handle)
        ensures
            handle == self.0,
    {
        self.0
    }
}

impl Default for Parent {
    fn default() -> (parent: Parent)
        ensures
            parent.0 == Handle::dangling(),
    {
        Parent(Handle { key: usize::MAX, generation: 0 })
    }
}

} // verus!
