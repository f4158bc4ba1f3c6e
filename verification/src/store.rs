//! The arena that owns every widget.
//!
//! The widgets sit in the slots of a [`slab::Slab`]. A slot is used again
//! after its widget has left, so a handle also carries the generation its
//! widget was stored with, and no two widgets ever get the same generation:
//! a handle kept past its widget's removal finds nothing.

use crate::handle::Handle;
use crate::widget::{NodeView, Widget, WidgetNode};
use slab::Slab;
use std::collections::VecDeque;
use vstd::prelude::*;

verus! {

/// `slab::Slab`, taken as it is: nothing is known of a slab but what the
/// functions below say of it.
#[verifier::external_type_specification]
#[verifier::external_body]
#[verifier::reject_recursive_types(T)]
pub struct ExSlab<T>(Slab<T>);

/// What a slab holds: the value in each occupied slot, by the slot's key.
pub uninterp spec fn slab_nodes(slab: Slab<WidgetNode>) -> Map<usize, WidgetNode>;

/// `Slab::with_capacity`: an empty slab. Nothing is claimed of the space it
/// has set aside.
#[verifier::external_body]
fn slab_with_capacity(capacity: usize) -> (slab: Slab<WidgetNode>)
    ensures
        slab_nodes(slab).dom() == Set::<usize>::empty(),
{
    Slab::with_capacity(capacity)
}

/// `Slab::insert`: puts `node` into a slot that was vacant and returns the
/// slot's key; the other slots keep what they hold. (It aborts when memory
/// runs out, as `Vec::push` does.)
#[verifier::external_body]
fn slab_insert(slab: &mut Slab<WidgetNode>, node: WidgetNode) -> (key: usize)
    ensures
        !slab_nodes(*old(slab)).contains_key(key),
        slab_nodes(*final(slab)) == slab_nodes(*old(slab)).insert(key, node),
{
    slab.insert(node)
}

/// `Slab::get`: the value in the slot `key`, or `None` if the slot is vacant
/// or beyond the slab's end.
#[verifier::external_body]
fn slab_get(slab: &Slab<WidgetNode>, key: usize) -> (node: Option<&WidgetNode>)
    ensures
        node.is_some() == slab_nodes(*slab).contains_key(key),
        node.is_some() ==> *node.unwrap() == slab_nodes(*slab)[key],
{
    slab.get(key)
}

/// `IndexMut::index_mut` of `Slab`: the value in the occupied slot `key`, to
/// change it in place; the other slots keep what they hold. It panics on a
/// slot that is not occupied, which `requires` leaves out.
#[verifier::external_body]
fn slab_index_mut(slab: &mut Slab<WidgetNode>, key: usize) -> (node: &mut WidgetNode)
    requires
        slab_nodes(*old(slab)).contains_key(key),
    ensures
        *node == slab_nodes(*old(slab))[key],
        slab_nodes(*final(slab)) == slab_nodes(*old(slab)).insert(key, *final(node)),
{
    &mut slab[key]
}

/// `Slab::try_remove`: takes the value out of the slot `key` and returns it,
/// or returns `None` and changes nothing if the slot holds none.
#[verifier::external_body]
fn slab_try_remove(slab: &mut Slab<WidgetNode>, key: usize) -> (node: Option<WidgetNode>)
    ensures
        node.is_some() == slab_nodes(*old(slab)).contains_key(key),
        node.is_some() ==> node.unwrap() == slab_nodes(*old(slab))[key],
        slab_nodes(*final(slab)) == slab_nodes(*old(slab)).remove(key),
{
    slab.try_remove(key)
}

/// `Slab::clear`: empties every slot.
#[verifier::external_body]
fn slab_clear(slab: &mut Slab<WidgetNode>)
    ensures
        slab_nodes(*final(slab)).dom() == Set::<usize>::empty(),
{
    slab.clear()
}

/// The arena. Its view maps the handle of each widget it holds to the
/// widget's node.
pub struct WidgetStore {
    pub(crate) slab: Slab<WidgetNode>,
    /// The generation the next widget gets.
    pub(crate) next_generation: u64,
}

impl View for WidgetStore {
    type V = Map<Handle, NodeView>;

    closed spec fn view(&self) -> Map<Handle, NodeView> {
        Map::new(|h: Handle| self.holds(h), |h: Handle| slab_nodes(self.slab)[h.key]@)
    }
}

impl WidgetStore {
    /// Whether the slot that `h` names holds a node under that very handle.
    pub(crate) open(crate) spec fn holds(&self, h: Handle) -> bool {
        slab_nodes(self.slab).contains_key(h.key) && slab_nodes(self.slab)[h.key].id == h
    }

    /// The node that `h` names.
    pub(crate) open(crate) spec fn at(&self, h: Handle) -> WidgetNode {
        slab_nodes(self.slab)[h.key]
    }

    /// Every node sits in the slot its handle names, under its own handle,
    /// and with a generation that was given out already.
    pub closed spec fn wf(&self) -> bool {
        &&& self.next_generation >= 1
        &&& forall|k: usize| #[trigger]
            slab_nodes(self.slab).contains_key(k) ==> {
                &&& slab_nodes(self.slab)[k].id.key == k
                &&& 1 <= slab_nodes(self.slab)[k].id.generation < self.next_generation
            }
    }

    /// Whether another widget can be stored: the generations have not run
    /// out.
    pub open spec fn has_room(&self) -> bool {
        self.next_generation() < u64::MAX
    }

    /// The handle that stands for "no widget" names none, and every node is
    /// held under its own handle.
    pub proof fn law_handles(&self)
        requires
            self.wf(),
        ensures
            !self@.contains_key(Handle::dangling()),
            forall|h: Handle| #[trigger] self@.contains_key(h) ==> self@[h].id == h,
            forall|h: Handle| #[trigger] self@.contains_key(h) ==> h.generation >= 1,
    {
    }

    /// The view holds what the slots hold.
    pub(crate) proof fn lemma_view(&self)
        requires
            self.wf(),
        ensures
            !self@.contains_key(Handle::dangling()),
            forall|h: Handle| #[trigger] self@.contains_key(h) ==> self@[h].id == h,
            forall|h: Handle| #[trigger] self@.contains_key(h) ==> h.generation >= 1,
            forall|h: Handle| self@.contains_key(h) <==> self.holds(h),
            forall|h: Handle| self.holds(h) ==> self@[h] == self.at(h)@,
    {
    }

    /// An empty arena with room set aside for `capacity` widgets.
    pub fn with_capacity(capacity: usize) -> (store: WidgetStore)
        ensures
            store.wf(),
            store.next_generation() == 1,
            store@ == Map::<Handle, NodeView>::empty(),
    {
        let store = WidgetStore { slab: slab_with_capacity(capacity), next_generation: 1 };
        assert(store@ =~= Map::<Handle, NodeView>::empty());
        store
    }

    /// Whether `handle` names a widget of the arena.
    pub fn contains(&self, handle: Handle) -> (held: bool)
        ensures
            held == self@.contains_key(handle),
    {
        match slab_get(&self.slab, handle.key) {
            Some(node) => node.id == handle,
            None => false,
        }
    }

    /// The node that `handle` names, or `None` if it names none.
    pub fn get(&self, handle: Handle) -> (node: Option<&WidgetNode>)
        ensures
            node.is_some() == self@.contains_key(handle),
            node.is_some() ==> node.unwrap()@ == self@[handle],
    {
        match slab_get(&self.slab, handle.key) {
            Some(node) => if node.id == handle {
                Some(node)
            } else {
                None
            },
            None => None,
        }
    }

    /// The node that `handle` names.
    pub(crate) fn node(&self, handle: Handle) -> (node: &WidgetNode)
        requires
            self@.contains_key(handle),
        ensures
            node@ == self@[handle],
            *node == self.at(handle),
    {
        slab_get(&self.slab, handle.key).unwrap()
    }

    /// The node that `handle` names, to change it in place. Whoever changes
    /// it keeps its `id`.
    pub(crate) fn node_mut(&mut self, handle: Handle) -> (node: &mut WidgetNode)
        requires
            old(self)@.contains_key(handle),
        ensures
            *node == old(self).at(handle),
            node.id == handle,
            node@ == old(self)@[handle],
            final(self).next_generation == old(self).next_generation,
            slab_nodes(final(self).slab) == slab_nodes(old(self).slab).insert(
                handle.key,
                *final(node),
            ),
    {
        slab_index_mut(&mut self.slab, handle.key)
    }

    /// Changing a node in place, with its `id` kept, changes the view at its
    /// handle and nowhere else.
    pub(crate) proof fn lemma_node_mut(
        before: &WidgetStore,
        after: &WidgetStore,
        h: Handle,
        node: WidgetNode,
    )
        requires
            before.wf(),
            before@.contains_key(h),
            after.next_generation == before.next_generation,
            slab_nodes(after.slab) == slab_nodes(before.slab).insert(h.key, node),
            node.id == h,
        ensures
            after.wf(),
            after@ == before@.insert(h, node@),
            after.next_generation() == before.next_generation(),
    {
        assert forall|k: usize| #[trigger]
            slab_nodes(after.slab).contains_key(k) implies {
            &&& slab_nodes(after.slab)[k].id.key == k
            &&& 1 <= slab_nodes(after.slab)[k].id.generation < after.next_generation
        } by {
            if k != h.key {
                assert(slab_nodes(before.slab).contains_key(k));
            } else {
                assert(slab_nodes(before.slab).contains_key(h.key));
            }
        }
        assert(after@ =~= before@.insert(h, node@));
    }

    /// The generation that the next widget gets. Every widget in the arena has
    /// a smaller one.
    pub closed spec fn next_generation(&self) -> u64 {
        self.next_generation
    }

    /// A widget in the arena has a generation that was given out already.
    pub proof fn law_generations(&self, h: Handle)
        requires
            self.wf(),
            self@.contains_key(h),
        ensures
            1 <= h.generation < self.next_generation(),
    {
    }

    /// Stores `widget` as a node without parent or children, shown, and
    /// returns its new handle. When the generations have run out, stores
    /// nothing and returns the handle that stands for "no widget".
    pub fn insert(&mut self, widget: Widget) -> (handle: Handle)
        requires
            old(self).wf(),
        ensures
            final(self).wf(),
            old(self).has_room() ==> {
                &&& !old(self)@.contains_key(handle)
                &&& handle.generation == old(self).next_generation()
                &&& final(self).next_generation() == old(self).next_generation() + 1
                &&& final(self)@ == old(self)@.insert(
                    handle,
                    NodeView {
                        id: handle,
                        parent: None,
                        children: Seq::empty(),
                        hidden: false,
                        widget: widget@,
                    },
                )
            },
            !old(self).has_room() ==> {
                &&& handle == Handle::dangling()
                &&& final(self)@ == old(self)@
                &&& final(self).next_generation() == old(self).next_generation()
            },
    {
        if self.next_generation == u64::MAX {
            return Handle { key: usize::MAX, generation: 0 };
        }
        let generation = self.next_generation;
        let node = WidgetNode {
            id: Handle { key: 0, generation },
            parent: None,
            children: VecDeque::new(),
            hidden: None,
            widget,
        };
        let key = slab_insert(&mut self.slab, node);
        let ghost mid = slab_nodes(self.slab);
        let handle = Handle { key, generation };
        let slot = slab_index_mut(&mut self.slab, key);
        slot.id = handle;
        self.next_generation = generation + 1;
        proof {
            assert forall|k: usize| #[trigger]
                slab_nodes(self.slab).contains_key(k) implies {
                &&& slab_nodes(self.slab)[k].id.key == k
                &&& 1 <= slab_nodes(self.slab)[k].id.generation < self.next_generation
            } by {
                if k != key {
                    assert(slab_nodes(old(self).slab).contains_key(k));
                }
            }
            assert forall|h: Handle| old(self).holds(h) implies h.key != key by {}
            assert(self@ =~= old(self)@.insert(
                handle,
                NodeView {
                    id: handle,
                    parent: None,
                    children: Seq::empty(),
                    hidden: false,
                    widget: widget@,
                },
            ));
        }
        handle
    }

    /// Takes the node that `handle` names out of the arena and returns it, or
    /// returns `None` and changes nothing if `handle` names none.
    pub fn remove(&mut self, handle: Handle) -> (node: Option<WidgetNode>)
        requires
            old(self).wf(),
        ensures
            final(self).wf(),
            node.is_some() == old(self)@.contains_key(handle),
            node.is_some() ==> node.unwrap()@ == old(self)@[handle],
            final(self)@ == old(self)@.remove(handle),
            final(self).next_generation() == old(self).next_generation(),
    {
        if !self.contains(handle) {
            assert(self@ =~= old(self)@.remove(handle));
            return None;
        }
        let node = slab_try_remove(&mut self.slab, handle.key);
        proof {
            assert forall|k: usize| #[trigger]
                slab_nodes(self.slab).contains_key(k) implies {
                &&& slab_nodes(self.slab)[k].id.key == k
                &&& 1 <= slab_nodes(self.slab)[k].id.generation < self.next_generation
            } by {
                assert(slab_nodes(old(self).slab).contains_key(k));
            }
            assert(self@ =~= old(self)@.remove(handle));
        }
        node
    }

    /// Empties the arena. Handles given out before find nothing afterwards,
    /// nor after later insertions.
    pub fn clear(&mut self)
        requires
            old(self).wf(),
        ensures
            final(self).wf(),
            final(self)@ == Map::<Handle, NodeView>::empty(),
            final(self).next_generation() == old(self).next_generation(),
    {
        slab_clear(&mut self.slab);
        assert(self@ =~= Map::<Handle, NodeView>::empty());
    }

    /// The widget that `handle` names, to change it in place, or `None` if it
    /// names none. The widget's place in the tree cannot be changed this way.
    pub fn get_mut(&mut self, handle: Handle) -> (widget: Option<&mut Widget>)
        requires
            old(self).wf(),
        ensures
            widget.is_some() == old(self)@.contains_key(handle),
            match widget {
                Some(w) => {
                    &&& w@ == old(self)@[handle].widget
                    &&& final(self)@ == old(self)@.insert(
                        handle,
                        NodeView { widget: final(w)@, ..old(self)@[handle] },
                    )
                },
                None => *final(self) == *old(self),
            },
            final(self).wf(),
            final(self).next_generation() == old(self).next_generation(),
    {
        if self.contains(handle) {
            let node = slab_index_mut(&mut self.slab, handle.key);
            Some(&mut node.widget)
        } else {
            None
        }
    }
}

} // verus!
