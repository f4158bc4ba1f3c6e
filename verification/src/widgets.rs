//! The router: the tree of widgets, their stacking order and the state of
//! the pointer.

use crate::bounds::WorldBounds;
use crate::events::{
    CallBackEvent, Command, Commands, Dispatch, ModifiersState, MouseButton, SystemEvent,
    WindowMove,
};
use crate::flags::UiFlags;
use crate::graph::{
    lemma_ancestor_step, lemma_hidden_wf, lemma_hit_is_shown, lemma_raised_wf, lemma_removed_wf,
    lemma_reparented_wf, lemma_widget_change, GraphError,
};
use crate::handle::{Handle, Identity, Parent};
use crate::laws::{
    focus_marked, law_set_focus_exclusive, law_subtree_exactly_once, lemma_button_focus,
    lemma_position_focus,
};
use crate::model::{
    lemma_position_changes_add, lemma_take_grows, position_changes, to_back, without, Permission,
    RouterView,
};
use crate::store::WidgetStore;
use crate::widget::{Hidden, NodeView, Widget, WidgetNode, WidgetView};
use std::collections::VecDeque;
use vstd::prelude::*;

verus! {

/// The tree of widgets, the stacking order, and what the router remembers of
/// the pointer. Its view is a [`RouterView`].
pub struct Widgets {
    pub(crate) widgets: WidgetStore,
    /// The widgets that are shown, in the order in which they are drawn.
    pub(crate) zlist: VecDeque<Handle>,
    /// The widgets that are loaded but not shown.
    pub(crate) hidden: Vec<Handle>,
    pub(crate) focused: Option<Handle>,
    pub(crate) over: Option<Handle>,
    pub(crate) clicked: Option<Handle>,
    pub(crate) mouse_clicked: [i32; 2],
    pub(crate) mouse_pos: [i32; 2],
    pub(crate) new_mouse_pos: [i32; 2],
    pub(crate) moving: bool,
    pub(crate) button: MouseButton,
    pub(crate) modifier: ModifiersState,
    /// A number for each widget that is greater than its parent's.
    pub(crate) levels: Ghost<Map<Handle, nat>>,
    /// A number above every level.
    pub(crate) level_bound: Ghost<nat>,
}

impl View for Widgets {
    type V = RouterView;

    closed spec fn view(&self) -> RouterView {
        RouterView {
            nodes: self.widgets@,
            zlist: self.zlist@,
            hidden: self.hidden@,
            focused: self.focused,
            over: self.over,
            clicked: self.clicked,
            mouse_clicked: (self.mouse_clicked[0], self.mouse_clicked[1]),
            mouse_pos: (self.mouse_pos[0], self.mouse_pos[1]),
            new_mouse_pos: (self.new_mouse_pos[0], self.new_mouse_pos[1]),
            moving: self.moving,
            button: self.button,
            modifier: self.modifier,
            levels: self.levels@,
            level_bound: self.level_bound@,
        }
    }
}

/// The place of `h` in `list`, if it is there.
fn position_of(list: &VecDeque<Handle>, h: Handle) -> (pos: Option<usize>)
    ensures
        pos is Some == list@.contains(h),
        pos is Some ==> pos.unwrap() < list@.len() && list@[pos.unwrap() as int] == h,
{
    let mut i: usize = 0;
    while i < list.len()
        invariant
            i <= list@.len(),
            forall|j: int| 0 <= j < i ==> list@[j] != h,
        decreases list@.len() - i,
    {
        if list[i] == h {
            return Some(i);
        }
        i += 1;
    }
    None
}

/// Takes `h` out of `list`, if it is there.
fn take_out(list: &mut VecDeque<Handle>, h: Handle)
    requires
        old(list)@.no_duplicates(),
    ensures
        final(list)@ == without(old(list)@, h),
{
    match position_of(list, h) {
        Some(pos) => {
            assert(old(list)@.index_of(h) == pos as int);
            list.remove(pos);
        },
        None => {},
    }
}

/// Moves `h` to the end of `list`, if it is there.
fn move_to_back(list: &mut VecDeque<Handle>, h: Handle)
    requires
        old(list)@.no_duplicates(),
    ensures
        final(list)@ == to_back(old(list)@, h),
{
    match position_of(list, h) {
        Some(pos) => {
            assert(old(list)@.index_of(h) == pos as int);
            list.remove(pos);
            list.push_back(h);
        },
        None => {},
    }
}

/// The nodes with `Moving` cleared on the first `n` widgets of the stacking
/// order and on the first `m` of the hidden ones.
spec fn settled_upto(v: RouterView, n: int, m: int) -> Map<Handle, NodeView> {
    Map::new(
        |h: Handle| v.nodes.contains_key(h),
        |h: Handle|
            if v.zlist.take(n).contains(h) || v.hidden.take(m).contains(h) {
                v.nodes[h].without_flag(UiFlags::Moving)
            } else {
                v.nodes[h]
            },
    )
}

/// Takes `h` out of `list`, if it is there.
fn take_out_of(list: &mut Vec<Handle>, h: Handle)
    requires
        old(list)@.no_duplicates(),
    ensures
        final(list)@ == without(old(list)@, h),
{
    let mut i: usize = 0;
    while i < list.len()
        invariant
            i <= list@.len(),
            list@ == old(list)@,
            old(list)@.no_duplicates(),
            forall|j: int| 0 <= j < i ==> list@[j] != h,
        decreases list@.len() - i,
    {
        if list[i] == h {
            assert(old(list)@.index_of(h) == i as int);
            list.remove(i);
            return ;
        }
        i += 1;
    }
}

impl Widgets {
    /// The arena's own rules hold and the state is well formed.
    pub closed spec fn wf(&self) -> bool {
        &&& self.widgets.wf()
        &&& self@.wf()
    }

    /// The generation that the next widget gets: every widget has a smaller
    /// one, and it grows by one with every widget that is stored.
    pub closed spec fn next_generation(&self) -> u64 {
        self.widgets.next_generation()
    }

    /// Whether another widget can be stored: the generations have not run
    /// out.
    pub open spec fn has_room(&self) -> bool {
        self.next_generation() < u64::MAX
    }

    /// A router that is well formed has a view that is: every law that holds
    /// of the well-formed states holds of it.
    pub proof fn law_wf(&self)
        requires
            self.wf(),
        ensures
            self@.wf(),
    {
    }

    /// Every widget has a generation that was given out already: a handle
    /// that has lost its widget is never the handle of a later one.
    pub proof fn law_generations(&self, h: Handle)
        requires
            self.wf(),
            self@.nodes.contains_key(h),
        ensures
            1 <= h.generation < self.next_generation(),
    {
        self.widgets.law_generations(h);
    }

    /// A router without widgets: nothing is focused, hovered or clicked, the
    /// pointer is at the origin and no drag is under way.
    pub fn new() -> (ui: Widgets)
        ensures
            ui.wf(),
            ui.next_generation() == 1,
            ui@.nodes == Map::<Handle, NodeView>::empty(),
            ui@.zlist == Seq::<Handle>::empty(),
            ui@.hidden == Seq::<Handle>::empty(),
            ui@.focused is None,
            ui@.over is None,
            ui@.clicked is None,
            ui@.mouse_clicked == (0i32, 0i32),
            ui@.mouse_pos == (0i32, 0i32),
            ui@.new_mouse_pos == (0i32, 0i32),
            !ui@.moving,
            ui@.button == MouseButton::Left,
            ui@.modifier.bits == 0,
    {
        Widgets {
            widgets: WidgetStore::with_capacity(100),
            zlist: VecDeque::with_capacity(100),
            hidden: Vec::with_capacity(100),
            focused: None,
            over: None,
            clicked: None,
            mouse_clicked: [0, 0],
            mouse_pos: [0, 0],
            new_mouse_pos: [0, 0],
            moving: false,
            button: MouseButton::Left,
            modifier: ModifiersState { bits: 0 },
            levels: Ghost(Map::empty()),
            level_bound: Ghost(0),
        }
    }

    // ----- looking at the state -----

    /// Whether `handle` names a widget.
    pub fn contains(&self, handle: Handle) -> (held: bool)
        ensures
            held == self@.nodes.contains_key(handle),
    {
        self.widgets.contains(handle)
    }

    /// The node that `handle` names, or `None` if it names none.
    pub fn get(&self, handle: Handle) -> (node: Option<&WidgetNode>)
        ensures
            node.is_some() == self@.nodes.contains_key(handle),
            node.is_some() ==> node.unwrap()@ == self@.nodes[handle],
    {
        self.widgets.get(handle)
    }

    fn get_widget(&self, handle: Handle) -> (node: &WidgetNode)
        requires
            self@.nodes.contains_key(handle),
        ensures
            node@ == self@.nodes[handle],
    {
        self.widgets.node(handle)
    }

    /// The widget that has the focus.
    pub fn focused(&self) -> (handle: Option<Handle>)
        ensures
            handle == self@.focused,
    {
        self.focused
    }

    /// The widget the pointer is over.
    pub fn over(&self) -> (handle: Option<Handle>)
        ensures
            handle == self@.over,
    {
        self.over
    }

    /// The widget that took the last press.
    pub fn clicked(&self) -> (handle: Option<Handle>)
        ensures
            handle == self@.clicked,
    {
        self.clicked
    }

    /// Whether the window is being dragged.
    pub fn moving(&self) -> (moving: bool)
        ensures
            moving == self@.moving,
    {
        self.moving
    }

    /// How many widgets are shown.
    pub fn shown(&self) -> (count: usize)
        ensures
            count == self@.zlist.len(),
    {
        self.zlist.len()
    }

    /// The shown widget at place `index` of the order in which they are
    /// drawn, or `None` beyond the topmost.
    pub fn shown_at(&self, index: usize) -> (handle: Option<Handle>)
        ensures
            handle == if index < self@.zlist.len() {
                Some(self@.zlist[index as int])
            } else {
                None
            },
    {
        if index < self.zlist.len() {
            Some(self.zlist[index])
        } else {
            None
        }
    }

    /// The widget that goes by the name and number of `identity`: the
    /// topmost shown one that does, or, if no shown one does, the one hidden
    /// last that does; `None` if no widget does.
    pub fn find_widget(&self, identity: &Identity) -> (found: Option<Handle>)
        requires
            self.wf(),
        ensures
            found == self@.named(identity@),
    {
        let mut i: usize = self.zlist.len();
        while i > 0
            invariant
                self.wf(),
                i <= self.zlist@.len(),
                self@.named_below(identity@, self@.zlist.len()) == self@.named_below(
                    identity@,
                    i as nat,
                ),
            decreases i,
        {
            let handle = self.zlist[i - 1];
            if self.get_widget(handle).widget.identity.same_as(identity) {
                return Some(handle);
            }
            i -= 1;
        }
        let mut j: usize = self.hidden.len();
        while j > 0
            invariant
                self.wf(),
                j <= self.hidden@.len(),
                self@.named_below(identity@, self@.zlist.len()) is None,
                self@.hidden_named_below(identity@, self@.hidden.len())
                    == self@.hidden_named_below(identity@, j as nat),
            decreases j,
        {
            let handle = self.hidden[j - 1];
            assert(self@.nodes.contains_key(self@.hidden[j - 1]));
            if self.get_widget(handle).widget.identity.same_as(identity) {
                return Some(handle);
            }
            j -= 1;
        }
        None
    }

    // ----- changing one widget -----

    fn set_flag(&mut self, handle: Handle, flag: UiFlags)
        requires
            old(self).wf(),
            old(self)@.nodes.contains_key(handle),
        ensures
            final(self).wf(),
            final(self)@ == old(self)@.with_flag(handle, flag),
            final(self).next_generation() == old(self).next_generation(),
    {
        let node = self.widgets.node_mut(handle);
        node.widget.actions.set(flag);
        proof {
            old(self).widgets.lemma_view();
            WidgetStore::lemma_node_mut(
                &old(self).widgets,
                &self.widgets,
                handle,
                self.widgets.at(handle),
            );
            assert(self.widgets.at(handle)@ == old(self)@.nodes[handle].with_flag(flag));
            lemma_widget_change(old(self)@, handle, old(self)@.nodes[handle].with_flag(flag));
        }
    }

    fn clear_flag(&mut self, handle: Handle, flag: UiFlags)
        requires
            old(self).wf(),
            old(self)@.nodes.contains_key(handle),
        ensures
            final(self).wf(),
            final(self)@ == old(self)@.without_flag(handle, flag),
            final(self).next_generation() == old(self).next_generation(),
    {
        let node = self.widgets.node_mut(handle);
        node.widget.actions.clear(flag);
        proof {
            old(self).widgets.lemma_view();
            WidgetStore::lemma_node_mut(
                &old(self).widgets,
                &self.widgets,
                handle,
                self.widgets.at(handle),
            );
            assert(self.widgets.at(handle)@ == old(self)@.nodes[handle].without_flag(flag));
            lemma_widget_change(old(self)@, handle, old(self)@.nodes[handle].without_flag(flag));
        }
    }

    /// The widget that `handle` names, to change it in place, or `None` if it
    /// names none. Its place in the tree and in the stacking order stays.
    pub fn get_mut(&mut self, handle: Handle) -> (widget: Option<&mut Widget>)
        requires
            old(self).wf(),
        ensures
            widget.is_some() == old(self)@.nodes.contains_key(handle),
            match widget {
                Some(w) => {
                    &&& w@ == old(self)@.nodes[handle].widget
                    &&& final(self)@ == old(self)@.with_widget(handle, final(w)@)
                },
                None => final(self)@ == old(self)@,
            },
            final(self).wf(),
            final(self).next_generation() == old(self).next_generation(),
    {
        proof {
            assert forall|w: WidgetView| old(self)@.nodes.contains_key(handle) implies (
            #[trigger] old(self)@.with_widget(handle, w)).wf() by {
                lemma_widget_change(
                    old(self)@,
                    handle,
                    NodeView { widget: w, ..old(self)@.nodes[handle] },
                );
            }
        }
        self.widgets.get_mut(handle)
    }

    // ----- the tree -----

    /// Stores `widget` as a new widget without parent or children, shown and
    /// topmost, and returns its handle. When no widget can be stored any
    /// more, changes nothing and returns the handle that stands for "no
    /// widget".
    pub fn insert_widget(&mut self, widget: Widget) -> (handle: Handle)
        requires
            old(self).wf(),
        ensures
            final(self).wf(),
            old(self).has_room() ==> {
                &&& !old(self)@.nodes.contains_key(handle)
                &&& handle != Handle::dangling()
                &&& handle.generation == old(self).next_generation()
                &&& final(self).next_generation() == old(self).next_generation() + 1
                &&& final(self)@ == old(self)@.inserted(handle, widget@)
            },
            !old(self).has_room() ==> {
                &&& handle == Handle::dangling()
                &&& final(self).next_generation() == old(self).next_generation()
                &&& final(self)@ == old(self)@
            },
    {
        let handle = self.widgets.insert(widget);
        if handle.is_dangling() {
            proof {
                old(self).widgets.lemma_view();
                self.widgets.lemma_view();
            }
            return handle;
        }
        self.zlist.push_back(handle);
        proof {
            old(self).widgets.lemma_view();
            self.widgets.lemma_view();
            self.levels@ = self.levels@.insert(handle, 0);
            if self.level_bound@ == 0 {
                self.level_bound@ = 1;
            }
            crate::graph::lemma_inserted_wf(old(self)@, handle, widget@);
        }
        handle
    }

    /// Raises the widget that `handle` names: it becomes the last of the
    /// stacking order, if it is shown, and the last of its parent's children,
    /// if it has a parent. A handle that names no widget changes nothing.
    pub fn raise_to_top(&mut self, handle: Handle)
        requires
            old(self).wf(),
        ensures
            final(self).wf(),
            final(self).next_generation() == old(self).next_generation(),
            final(self)@ == if old(self)@.nodes.contains_key(handle) {
                old(self)@.raised(handle)
            } else {
                old(self)@
            },
    {
        if !self.widgets.contains(handle) {
            return ;
        }
        proof {
            old(self).widgets.lemma_view();
            lemma_raised_wf(old(self)@, handle);
            assert(old(self)@.node_wf(handle));
        }
        move_to_back(&mut self.zlist, handle);
        let parent = self.get_widget(handle).get_parent();
        match parent {
            Some(p) => {
                assert(old(self)@.node_wf(p));
                let node = self.widgets.node_mut(p);
                move_to_back(&mut node.children, handle);
                proof {
                    WidgetStore::lemma_node_mut(
                        &old(self).widgets,
                        &self.widgets,
                        p,
                        self.widgets.at(p),
                    );
                    assert(self@.nodes =~= old(self)@.raised_nodes(handle));
                }
            },
            None => {},
        }
    }

    /// Gives the widget `child` the parent `parent`, or none: it leaves the
    /// children of the parent it had and becomes the last child of the new
    /// one. Refused, with nothing changed, when a handle names no widget
    /// (`NotFound`) and when `parent` is `child` or lies below it (`Cycle`).
    pub fn set_parent(&mut self, child: Handle, parent: Option<Handle>) -> (result: Result<
        (),
        GraphError,
    >)
        requires
            old(self).wf(),
        ensures
            final(self).wf(),
            final(self).next_generation() == old(self).next_generation(),
            result is Ok <==> old(self)@.can_reparent(child, parent),
            result is Ok ==> final(self)@ == old(self)@.reparented(child, parent),
            result is Err ==> final(self)@ == old(self)@,
            result == Err::<(), GraphError>(GraphError::NotFound) <==> !old(
                self,
            )@.nodes.contains_key(child) || (parent is Some && !old(self)@.nodes.contains_key(
                parent.unwrap(),
            )),
    {
        let ghost v = self@;
        if !self.widgets.contains(child) {
            return Err(GraphError::NotFound);
        }
        match parent {
            Some(p) => {
                if !self.widgets.contains(p) {
                    return Err(GraphError::NotFound);
                }
                // `p` must not be `child` nor lie below it
                let mut cur = p;
                loop
                    invariant
                        self.wf(),
                        *self == *old(self),
                        v == self@,
                        parent == Some(p),
                        v.nodes.contains_key(child),
                        v.nodes.contains_key(cur),
                        v.nodes.contains_key(p),
                        v.is_ancestor_or_self(child, p) == v.is_ancestor_or_self(child, cur),
                    ensures
                        !v.is_ancestor_or_self(child, p),
                    decreases v.levels[cur],
                {
                    proof {
                        lemma_ancestor_step(v, child, cur);
                        assert(v.node_wf(cur));
                    }
                    if cur == child {
                        return Err(GraphError::Cycle);
                    }
                    match self.get_widget(cur).get_parent() {
                        Some(q) => {
                            cur = q;
                        },
                        None => {
                            break ;
                        },
                    }
                }
            },
            None => {},
        }
        proof {
            old(self).widgets.lemma_view();
            lemma_reparented_wf(v, child, parent);
            assert(v.node_wf(child));
        }
        let old_parent = self.get_widget(child).get_parent();
        match old_parent {
            Some(op) => {
                proof {
                    assert(v.node_wf(op));
                }
                let node = self.widgets.node_mut(op);
                take_out(&mut node.children, child);
                proof {
                    WidgetStore::lemma_node_mut(
                        &old(self).widgets,
                        &self.widgets,
                        op,
                        self.widgets.at(op),
                    );
                }
            },
            None => {},
        }
        let ghost mid = self.widgets;
        let node = self.widgets.node_mut(child);
        node.parent = match parent {
            Some(p) => Some(Parent(p)),
            None => None,
        };
        proof {
            WidgetStore::lemma_node_mut(&mid, &self.widgets, child, self.widgets.at(child));
        }
        let ghost mid2 = self.widgets;
        match parent {
            Some(p) => {
                let node = self.widgets.node_mut(p);
                node.children.push_back(child);
                proof {
                    WidgetStore::lemma_node_mut(&mid2, &self.widgets, p, self.widgets.at(p));
                }
            },
            None => {},
        }
        proof {
            self.levels@ = v.reparented_levels(child, parent);
            self.level_bound@ = v.reparented(child, parent).level_bound;
            assert(self@.nodes =~= v.reparented_nodes(child, parent));
        }
        Ok(())
    }

    /// Removes the widget that `handle` names and returns it: it leaves its
    /// parent's children and the stacking order, the children it had have no
    /// parent any more, and it is neither focused, hovered nor clicked. A
    /// handle that names no widget changes nothing and gives `None`.
    pub fn remove_widget(&mut self, handle: Handle) -> (removed: Option<Widget>)
        requires
            old(self).wf(),
        ensures
            final(self).wf(),
            final(self).next_generation() == old(self).next_generation(),
            removed is Some <==> old(self)@.nodes.contains_key(handle),
            removed is Some ==> removed.unwrap()@ == old(self)@.nodes[handle].widget,
            removed is Some ==> final(self)@ == old(self)@.removed(handle),
            removed is None ==> final(self)@ == old(self)@,
    {
        let ghost v = self@;
        if !self.widgets.contains(handle) {
            return None;
        }
        proof {
            old(self).widgets.lemma_view();
            lemma_removed_wf(v, handle);
            assert(v.node_wf(handle));
        }
        // out of the parent's children
        match self.get_widget(handle).get_parent() {
            Some(op) => {
                proof {
                    assert(v.node_wf(op));
                }
                let node = self.widgets.node_mut(op);
                take_out(&mut node.children, handle);
                proof {
                    WidgetStore::lemma_node_mut(
                        &old(self).widgets,
                        &self.widgets,
                        op,
                        self.widgets.at(op),
                    );
                }
            },
            None => {},
        }
        let ghost detached = self.widgets@;
        // the children lose their parent
        let count = self.get_widget(handle).children.len();
        let mut i: usize = 0;
        while i < count
            invariant
                v.wf(),
                v.nodes.contains_key(handle),
                self.widgets.wf(),
                self.widgets.next_generation() == old(self).widgets.next_generation(),
                count == v.nodes[handle].children.len(),
                i <= count,
                self.zlist@ == v.zlist,
                self.hidden@ == v.hidden,
                self.focused == v.focused,
                self.over == v.over,
                self.clicked == v.clicked,
                self@ == (RouterView { nodes: self.widgets@, ..v }),
                detached.dom() == v.nodes.dom(),
                self.widgets@.dom() == v.nodes.dom(),
                self.widgets@[handle] == v.nodes[handle],
                forall|x: Handle| #[trigger]
                    v.nodes.contains_key(x) ==> self.widgets@[x] == (if v.nodes[handle].children.take(
                        i as int,
                    ).contains(x) {
                        NodeView { parent: None, ..detached[x] }
                    } else {
                        detached[x]
                    }),
            decreases count - i,
        {
            let child = self.get_widget(handle).children[i];
            let ghost mid = self.widgets;
            proof {
                assert(v.node_wf(handle));
                assert(v.nodes.contains_key(v.nodes[handle].children[i as int]));
                assert(child != handle) by {
                    assert(v.node_wf(child));
                }
            }
            let node = self.widgets.node_mut(child);
            node.parent = None;
            proof {
                WidgetStore::lemma_node_mut(&mid, &self.widgets, child, self.widgets.at(child));
                let t0 = v.nodes[handle].children.take(i as int);
                let t1 = v.nodes[handle].children.take(i + 1);
                assert forall|x: Handle| t1.contains(x) <==> (t0.contains(x) || x == child) by {
                    if t1.contains(x) {
                        let k = choose|k: int| 0 <= k < t1.len() && t1[k] == x;
                        if k < i {
                            assert(t0[k] == x);
                        }
                    }
                    if t0.contains(x) {
                        let k = choose|k: int| 0 <= k < t0.len() && t0[k] == x;
                        assert(t1[k] == x);
                    }
                    if x == child {
                        assert(t1[i as int] == x);
                    }
                }
                assert(self.widgets@.dom() =~= v.nodes.dom());
            }
            i += 1;
        }
        take_out(&mut self.zlist, handle);
        take_out_of(&mut self.hidden, handle);
        self.focused =
        match self.focused {
            Some(f) => if f == handle {
                None
            } else {
                Some(f)
            },
            None => None,
        };
        self.over =
        match self.over {
            Some(f) => if f == handle {
                None
            } else {
                Some(f)
            },
            None => None,
        };
        self.clicked =
        match self.clicked {
            Some(f) => if f == handle {
                None
            } else {
                Some(f)
            },
            None => None,
        };
        let node = self.widgets.remove(handle);
        proof {
            let full = v.nodes[handle].children;
            assert(full.take(full.len() as int) =~= full);
            assert forall|x: Handle| v.nodes.contains_key(x) && x != handle implies (
            #[trigger] self@.nodes[x]) == v.removed_nodes(handle)[x] by {
                assert(v.node_wf(x));
                if v.nodes[x].parent == Some(handle) {
                    assert(full.contains(x));
                } else {
                    if full.contains(x) {
                        let k = choose|k: int| 0 <= k < full.len() && full[k] == x;
                        assert(v.nodes[full[k]].parent == Some(handle));
                    }
                }
            }
            assert(self@.nodes =~= v.removed_nodes(handle));
        }
        match node {
            Some(n) => Some(n.widget),
            None => None,
        }
    }

    /// Hides the widget that `handle` names, or shows it again: a hidden
    /// widget is not in the stacking order, and one that is shown again is the
    /// topmost. A handle that names no widget changes nothing. Says whether
    /// the handle names a widget.
    pub fn set_hidden(&mut self, handle: Handle, hidden: bool) -> (found: bool)
        requires
            old(self).wf(),
        ensures
            final(self).wf(),
            final(self).next_generation() == old(self).next_generation(),
            found == old(self)@.nodes.contains_key(handle),
            found ==> final(self)@ == old(self)@.with_hidden(handle, hidden),
            !found ==> final(self)@ == old(self)@,
    {
        let ghost v = self@;
        if !self.widgets.contains(handle) {
            return false;
        }
        if self.get_widget(handle).is_hidden() == hidden {
            return true;
        }
        proof {
            old(self).widgets.lemma_view();
            lemma_hidden_wf(v, handle, hidden);
        }
        let node = self.widgets.node_mut(handle);
        node.hidden = if hidden {
            Some(Hidden)
        } else {
            None
        };
        proof {
            WidgetStore::lemma_node_mut(
                &old(self).widgets,
                &self.widgets,
                handle,
                self.widgets.at(handle),
            );
        }
        if hidden {
            take_out(&mut self.zlist, handle);
            self.hidden.push(handle);
        } else {
            take_out_of(&mut self.hidden, handle);
            self.zlist.push_back(handle);
        }
        true
    }

    /// Removes every widget. Nothing is focused, hovered or clicked
    /// afterwards; what the router remembers of the pointer stays.
    pub fn clear_widgets(&mut self)
        requires
            old(self).wf(),
        ensures
            final(self).wf(),
            final(self).next_generation() == old(self).next_generation(),
            final(self)@ == old(self)@.cleared(),
    {
        self.zlist.clear();
        self.hidden.clear();
        self.widgets.clear();
        self.focused = None;
        self.over = None;
        self.clicked = None;
        proof {
            self.widgets.lemma_view();
        }
    }

    // ----- which widget an event is meant for -----

    /// The widget a press at `point` is meant for: the topmost shown widget
    /// that can be clicked and has the point in its bounds.
    pub fn hit_test(&self, point: [i32; 2]) -> (hit: Option<Handle>)
        requires
            self.wf(),
        ensures
            hit == self@.hit_test((point[0], point[1])),
    {
        let ghost p = (point[0], point[1]);
        let mut i: usize = self.zlist.len();
        while i > 0
            invariant
                self.wf(),
                p == (point[0], point[1]),
                i <= self.zlist@.len(),
                self@.hit_test(p) == self@.hit_below(p, i as nat),
            decreases i,
        {
            let handle = self.zlist[i - 1];
            let node = self.get_widget(handle);
            if node.has(UiFlags::ClickAble) && node.widget.check_mouse_bounds(point) {
                return Some(handle);
            }
            i -= 1;
        }
        None
    }

    /// Who takes a press that fell on `target`, a widget that cannot take the
    /// focus: see [`RouterView::permission`].
    pub fn is_parent_focused(&self, target: Handle) -> (permission: Permission)
        requires
            self.wf(),
            self@.nodes.contains_key(target),
        ensures
            permission == self@.permission(target),
            permission matches Permission::Ancestor(a) ==> self@.nodes.contains_key(a),
            permission != Permission::Denied ==> self@.nodes[target].parent is Some,
    {
        let ghost v = self@;
        let mut first: Option<Handle> = None;
        let mut parent_opt = self.get_widget(target).get_parent();
        let ghost mut cur = target;
        while parent_opt.is_some()
            invariant
                self.wf(),
                v == self@,
                v.nodes.contains_key(cur),
                v.nodes.contains_key(target),
                parent_opt == v.nodes[cur].parent,
                v.any_ancestor_has(target, UiFlags::AlwaysUseable) == v.any_ancestor_has(
                    cur,
                    UiFlags::AlwaysUseable,
                ),
                v.first_ancestor_with(target, UiFlags::CanFocus) == match first {
                    Some(a) => Some(a),
                    None => v.first_ancestor_with(cur, UiFlags::CanFocus),
                },
                first is Some ==> v.nodes.contains_key(first.unwrap()),
                first is Some ==> v.nodes[target].parent is Some,
                cur != target ==> v.nodes[target].parent is Some,
            decreases v.levels[cur],
        {
            let p = parent_opt.unwrap();
            assert(v.node_wf(cur));
            let node = self.get_widget(p);
            if node.has(UiFlags::AlwaysUseable) {
                return Permission::Target;
            }
            if first.is_none() && node.has(UiFlags::CanFocus) {
                first = Some(p);
            }
            parent_opt = node.get_parent();
            proof {
                cur = p;
            }
        }
        match first {
            Some(a) => if self.get_widget(a).has(UiFlags::FocusClick) {
                Permission::Ancestor(a)
            } else {
                Permission::Target
            },
            None => Permission::Denied,
        }
    }

    // ----- presses -----

    /// The widget `handle` takes the press: see [`RouterView::set_clicked`].
    fn widget_set_clicked(&mut self, handle: Handle, out: &mut Vec<Dispatch>)
        requires
            old(self).wf(),
            old(self)@.nodes.contains_key(handle),
        ensures
            final(self).wf(),
            final(self).next_generation() == old(self).next_generation(),
            final(self)@ == old(self)@.set_clicked(handle).state,
            final(out)@ == old(out)@ + old(self)@.set_clicked(handle).due,
    {
        let node = self.get_widget(handle);
        let inside = node.widget.check_mouse_bounds(self.mouse_clicked);
        let moves_window = node.has(UiFlags::CanMoveWindow);
        let move_able = node.has(UiFlags::MoveAble);
        let due = Dispatch {
            target: handle,
            event: CallBackEvent::MousePress {
                button: self.button,
                pressed: true,
                modifiers: self.modifier,
            },
        };
        if moves_window && inside {
            self.moving = true;
        }
        self.clicked = Some(handle);
        if move_able && inside {
            self.set_flag(handle, UiFlags::Moving);
        }
        out.push(due);
    }

    /// The press that fell on `handle` goes to its parent: see
    /// [`RouterView::delegate_click`].
    fn widget_click_behind(&mut self, handle: Handle, out: &mut Vec<Dispatch>)
        requires
            old(self).wf(),
            old(self)@.nodes.contains_key(handle),
            old(self)@.nodes[handle].parent is Some,
        ensures
            final(self).wf(),
            final(self).next_generation() == old(self).next_generation(),
            final(self)@ == old(self)@.delegate_click(handle).state,
            final(out)@ == old(out)@ + old(self)@.delegate_click(handle).due,
    {
        assert(old(self)@.node_wf(handle));
        let parent_handle = self.get_widget(handle).get_parent().unwrap();
        let parent = self.get_widget(parent_handle);
        if parent.has(UiFlags::CanMoveWindow) && parent.widget.check_mouse_bounds(
            self.mouse_clicked,
        ) {
            self.moving = true;
        }
        self.clicked = Some(parent_handle);
        out.push(
            Dispatch {
                target: parent_handle,
                event: CallBackEvent::MousePress {
                    button: self.button,
                    pressed: true,
                    modifiers: self.modifier,
                },
            },
        );
    }

    /// The widget `handle` takes the focus from whoever has it: see
    /// [`RouterView::set_focus`]. It is raised and has the focus afterwards.
    /// The widget that had the focus is told that it lost it before `handle`
    /// is told that it has it, each once, and nobody else is told anything.
    /// If the widget that had the focus, and no other, carried `IsFocused`,
    /// then afterwards `handle`, and no other, does.
    pub fn widget_set_focus(&mut self, handle: Handle, out: &mut Vec<Dispatch>)
        requires
            old(self).wf(),
            old(self)@.nodes.contains_key(handle),
        ensures
            final(self).wf(),
            final(self).next_generation() == old(self).next_generation(),
            final(self)@ == old(self)@.set_focus(handle).state,
            final(out)@ == old(out)@ + old(self)@.set_focus(handle).due,
            final(self)@.focused == Some(handle),
            final(out)@ == old(out)@ + (match old(self)@.focused {
                Some(previous) => seq![
                    RouterView::focus_of(previous, false),
                    RouterView::focus_of(handle, true),
                ],
                None => seq![RouterView::focus_of(handle, true)],
            }),
            focus_marked(old(self)@) ==> focus_marked(final(self)@) && forall|h: Handle|
                final(self)@.nodes.contains_key(h) ==> (#[trigger] final(self)@.has(
                    h,
                    UiFlags::IsFocused,
                ) <==> h == handle),
    {
        proof {
            if focus_marked(old(self)@) {
                law_set_focus_exclusive(old(self)@, handle);
            }
        }
        let previous = self.focused;
        self.raise_to_top(handle);
        match previous {
            Some(prev) => {
                self.clear_flag(prev, UiFlags::IsFocused);
                out.push(
                    Dispatch { target: prev, event: CallBackEvent::FocusChange { focused: false } },
                );
            },
            None => {},
        }
        self.set_flag(handle, UiFlags::IsFocused);
        out.push(Dispatch { target: handle, event: CallBackEvent::FocusChange { focused: true } });
        self.focused = Some(handle);
        assert(out@ =~= old(out)@ + old(self)@.set_focus(handle).due);
    }

    /// Gives the focus to the widget that `handle` names, without a press. A
    /// widget that cannot take the focus, or has it, or a handle that names
    /// no widget, changes nothing. Returns the callbacks that are due.
    pub fn widget_manual_focus(&mut self, handle: Handle) -> (due: Vec<Dispatch>)
        requires
            old(self).wf(),
        ensures
            final(self).wf(),
            final(self).next_generation() == old(self).next_generation(),
            old(self)@.nodes.contains_key(handle) ==> final(self)@ == old(self)@.manual_focus(
                handle,
            ).state && due@ == old(self)@.manual_focus(handle).due,
            !old(self)@.nodes.contains_key(handle) ==> final(self)@ == old(self)@ && due@
                == Seq::<Dispatch>::empty(),
            focus_marked(old(self)@) ==> focus_marked(final(self)@),
    {
        let mut due: Vec<Dispatch> = Vec::new();
        if !self.widgets.contains(handle) {
            return due;
        }
        let can_focus = self.get_widget(handle).has(UiFlags::CanFocus);
        let has_focus = match self.focused {
            Some(f) => f == handle,
            None => false,
        };
        if can_focus && !has_focus {
            self.widget_set_focus(handle, &mut due);
            assert(due@ =~= old(self)@.manual_focus(handle).due);
        }
        due
    }

    /// What a press on `target` leads to: see [`RouterView::press_on`].
    fn mouse_press_event(&mut self, target: Handle, out: &mut Vec<Dispatch>)
        requires
            old(self).wf(),
            old(self)@.nodes.contains_key(target),
        ensures
            final(self).wf(),
            final(self).next_generation() == old(self).next_generation(),
            final(self)@ == old(self)@.press_on(target).state,
            final(out)@ == old(out)@ + old(self)@.press_on(target).due,
    {
        let node = self.get_widget(target);
        if node.has(UiFlags::CanFocus) {
            let has_focus = match self.focused {
                Some(f) => f == target,
                None => false,
            };
            if !has_focus {
                self.widget_set_focus(target, out);
                self.widget_set_clicked(target, out);
                assert(out@ =~= old(out)@ + old(self)@.press_on(target).due);
            } else {
                self.widget_set_clicked(target, out);
            }
        } else {
            let can_click_behind = node.has(UiFlags::CanClickBehind);
            match self.is_parent_focused(target) {
                Permission::Denied => {
                    assert(out@ =~= old(out)@ + old(self)@.press_on(target).due);
                },
                Permission::Ancestor(a) => {
                    self.widget_set_clicked(a, out);
                },
                Permission::Target => {
                    if can_click_behind {
                        self.widget_click_behind(target, out);
                    } else {
                        self.widget_set_clicked(target, out);
                    }
                },
            }
        }
    }

    /// What a press at the place of the last click leads to: see
    /// [`RouterView::mouse_press`].
    fn mouse_press(&mut self, out: &mut Vec<Dispatch>)
        requires
            old(self).wf(),
        ensures
            final(self).wf(),
            final(self).next_generation() == old(self).next_generation(),
            final(self)@ == old(self)@.mouse_press().state,
            final(out)@ == old(out)@ + old(self)@.mouse_press().due,
    {
        match self.hit_test(self.mouse_clicked) {
            Some(target) => {
                proof {
                    lemma_hit_is_shown(self@, self@.mouse_clicked, self@.zlist.len());
                }
                self.mouse_press_event(target, out);
            },
            None => {
                assert(out@ =~= old(out)@ + old(self)@.mouse_press().due);
            },
        }
    }

    /// What a release at the place of the last click leads to: see
    /// [`RouterView::mouse_release`].
    fn mouse_release(&mut self, out: &mut Vec<Dispatch>)
        requires
            old(self).wf(),
        ensures
            final(self).wf(),
            final(self).next_generation() == old(self).next_generation(),
            final(self)@ == old(self)@.mouse_release().state,
            final(out)@ == old(out)@ + old(self)@.mouse_release().due,
    {
        let ghost v = self@;
        let hit = self.hit_test(self.mouse_clicked);
        proof {
            lemma_hit_is_shown(v, v.mouse_clicked, v.zlist.len());
        }
        let hit_moves_window = match hit {
            Some(target) => self.get_widget(target).has(UiFlags::CanMoveWindow),
            None => false,
        };
        let clicked_moves_window = match self.clicked {
            Some(c) => self.get_widget(c).has(UiFlags::CanMoveWindow),
            None => false,
        };
        let due = Dispatch {
            target: Handle { key: 0, generation: 0 },
            event: CallBackEvent::MousePress {
                button: self.button,
                pressed: false,
                modifiers: self.modifier,
            },
        };
        proof {
            assert(v.zlist.take(0).len() == 0);
            assert(v.hidden.take(0).len() == 0);
            assert(settled_upto(v, 0, 0) =~= v.nodes);
        }
        let mut i: usize = 0;
        while i < self.zlist.len()
            invariant
                self.wf(),
                v.wf(),
                self.next_generation() == old(self).next_generation(),
                i <= v.zlist.len(),
                self@ == (RouterView { nodes: settled_upto(v, i as int, 0), ..v }),
            decreases v.zlist.len() - i,
        {
            let handle = self.zlist[i];
            assert(v.nodes.contains_key(v.zlist[i as int]));
            self.clear_flag(handle, UiFlags::Moving);
            proof {
                lemma_take_grows(v.zlist, i as int);
                assert(v.hidden.take(0).len() == 0);
                assert(self@.nodes =~= settled_upto(v, i + 1, 0));
            }
            i += 1;
        }
        let ghost shown = v.zlist.len() as int;
        proof {
            assert(v.zlist.take(shown) =~= v.zlist);
        }
        let mut j: usize = 0;
        while j < self.hidden.len()
            invariant
                self.wf(),
                v.wf(),
                self.next_generation() == old(self).next_generation(),
                shown == v.zlist.len(),
                v.zlist.take(shown) == v.zlist,
                j <= v.hidden.len(),
                self@ == (RouterView { nodes: settled_upto(v, shown, j as int), ..v }),
            decreases v.hidden.len() - j,
        {
            let handle = self.hidden[j];
            assert(v.nodes.contains_key(v.hidden[j as int]));
            self.clear_flag(handle, UiFlags::Moving);
            proof {
                lemma_take_grows(v.hidden, j as int);
                assert(!v.zlist.contains(handle)) by {
                    if v.zlist.contains(handle) {
                        let k = choose|k: int| 0 <= k < v.zlist.len() && v.zlist[k] == handle;
                        assert(v.nodes.contains_key(v.zlist[k]));
                    }
                }
                assert(self@.nodes =~= settled_upto(v, shown, j + 1));
            }
            j += 1;
        }
        proof {
            assert(v.hidden.take(v.hidden.len() as int) =~= v.hidden);
            assert(settled_upto(v, shown, v.hidden.len() as int) =~= v.settled_nodes());
        }
        if hit_moves_window || clicked_moves_window {
            self.moving = false;
        }
        match hit {
            Some(target) => {
                out.push(Dispatch { target, ..due });
            },
            None => {
                assert(out@ =~= old(out)@ + old(self)@.mouse_release().due);
            },
        }
    }

    /// Handles a button that went down or up: notes the button and the place
    /// of the pointer, then handles the press or the release. Returns the
    /// callbacks that are due, in their order. After a release no widget is
    /// moving any more.
    pub fn event_mouse_button(&mut self, button: MouseButton, pressed: bool) -> (due: Vec<
        Dispatch,
    >)
        requires
            old(self).wf(),
        ensures
            final(self).wf(),
            final(self).next_generation() == old(self).next_generation(),
            final(self)@ == old(self)@.mouse_button(button, pressed).state,
            due@ == old(self)@.mouse_button(button, pressed).due,
            focus_marked(old(self)@) ==> focus_marked(final(self)@),
            !pressed ==> forall|h: Handle| #[trigger]
                final(self)@.nodes.contains_key(h) ==> !final(self)@.has(h, UiFlags::Moving),
    {
        proof {
            if focus_marked(old(self)@) {
                lemma_button_focus(old(self)@, button, pressed);
            }
        }
        let mut due: Vec<Dispatch> = Vec::new();
        self.button = button;
        self.mouse_clicked = self.mouse_pos;
        if pressed {
            self.mouse_press(&mut due);
        } else {
            self.mouse_release(&mut due);
        }
        assert(due@ =~= old(self)@.mouse_button(button, pressed).due);
        due
    }

    /// Notes which modifier keys are held down. Nothing else changes and no
    /// callback is due.
    pub fn event_modifiers(&mut self, modifier: ModifiersState)
        requires
            old(self).wf(),
        ensures
            final(self).wf(),
            final(self).next_generation() == old(self).next_generation(),
            final(self)@ == (RouterView { modifier, ..old(self)@ }),
    {
        self.modifier = modifier;
    }

    // ----- moves of the pointer -----

    /// Adds a `PositionChange` for the widget `handle` and for every widget
    /// below it in the tree: the widget first, then each child with all that
    /// is below it, child by child. Every one of them gets exactly one, and
    /// no other widget gets any.
    pub fn widget_position_update(&self, handle: Handle, out: &mut Vec<Dispatch>)
        requires
            self.wf(),
            self@.nodes.contains_key(handle),
        ensures
            final(out)@ == old(out)@ + position_changes(self@.subtree(handle)),
            self@.subtree(handle).no_duplicates(),
            forall|x: Handle| #[trigger]
                self@.subtree(handle).contains(x) <==> self@.nodes.contains_key(x)
                    && self@.is_ancestor_or_self(handle, x),
        decreases self@.level_bound - self@.levels[handle],
    {
        let ghost v = self@;
        out.push(Dispatch { target: handle, event: CallBackEvent::PositionChange });
        let node = self.get_widget(handle);
        proof {
            assert(v.node_wf(handle));
            assert(out@ =~= old(out)@ + position_changes(seq![handle]));
            assert(seq![handle] + v.subtrees_of(handle, 0) =~= seq![handle]);
        }
        let mut i: usize = 0;
        while i < node.children.len()
            invariant
                self.wf(),
                v == self@,
                v.nodes.contains_key(handle),
                node@ == v.nodes[handle],
                i <= node.children@.len(),
                out@ == old(out)@ + position_changes(
                    seq![handle] + v.subtrees_of(handle, i as nat),
                ),
            decreases node.children@.len() - i,
        {
            let child = node.children[i];
            let ghost before = out@;
            proof {
                assert(v.node_wf(handle));
                assert(v.nodes.contains_key(v.nodes[handle].children[i as int]));
                assert(v.node_wf(child));
            }
            self.widget_position_update(child, out);
            proof {
                let done = seq![handle] + v.subtrees_of(handle, i as nat);
                assert(v.subtrees_of(handle, (i + 1) as nat) == v.subtrees_of(handle, i as nat)
                    + v.subtree(child));
                assert(seq![handle] + v.subtrees_of(handle, (i + 1) as nat) =~= done + v.subtree(
                    child,
                ));
                lemma_position_changes_add(done, v.subtree(child));
                assert(out@ =~= old(out)@ + position_changes(
                    seq![handle] + v.subtrees_of(handle, (i + 1) as nat),
                ));
            }
            i += 1;
        }
        proof {
            law_subtree_exactly_once(v, handle);
        }
    }

    /// Drags the widget `handle` along with the pointer to `position`: see
    /// [`RouterView::drag`].
    fn widget_drag(
        &mut self,
        handle: Handle,
        position: [i32; 2],
        screensize: [i32; 2],
        out: &mut Vec<Dispatch>,
    )
        requires
            old(self).wf(),
            old(self)@.nodes.contains_key(handle),
        ensures
            final(self).wf(),
            final(self).next_generation() == old(self).next_generation(),
            final(self)@ == old(self)@.drag(
                handle,
                (position[0], position[1]),
                (screensize[0], screensize[1]),
            ).state,
            final(out)@ == old(out)@ + old(self)@.drag(
                handle,
                (position[0], position[1]),
                (screensize[0], screensize[1]),
            ).due,
    {
        let ghost v = self@;
        let dx: i64 = position[0] as i64 - self.mouse_pos[0] as i64;
        let dy: i64 = position[1] as i64 - self.mouse_pos[1] as i64;
        let node = self.get_widget(handle);
        proof {
            assert(v.node_wf(handle));
        }
        let container = match node.get_parent() {
            Some(p) => self.get_widget(p).widget.get_bounds(),
            None => WorldBounds::of_viewport(screensize),
        };
        if !node.widget.bounds.0.can_move(&container, dx, dy) {
            assert(out@ =~= old(out)@ + Seq::<Dispatch>::empty());
            return ;
        }
        self.widget_position_update(handle, out);
        let node = self.widgets.node_mut(handle);
        node.widget.bounds.0.try_move(&container, dx, dy);
        proof {
            old(self).widgets.lemma_view();
            WidgetStore::lemma_node_mut(
                &old(self).widgets,
                &self.widgets,
                handle,
                self.widgets.at(handle),
            );
            let moved = NodeView {
                widget: WidgetView {
                    bounds: v.nodes[handle].widget.bounds.moved_by(dx as int, dy as int),
                    ..v.nodes[handle].widget
                },
                ..v.nodes[handle]
            };
            assert(self.widgets.at(handle)@ == moved);
            lemma_widget_change(v, handle, moved);
        }
    }

    /// Finds anew the widget under the pointer: see [`RouterView::hover`].
    fn mouse_over_event(&mut self, position: [i32; 2], out: &mut Vec<Dispatch>)
        requires
            old(self).wf(),
        ensures
            final(self).wf(),
            final(self).next_generation() == old(self).next_generation(),
            final(self)@ == old(self)@.hover((position[0], position[1])).state,
            final(out)@ == old(out)@ + old(self)@.hover((position[0], position[1])).due,
    {
        let ghost v = self@;
        let hit = self.hit_test(position);
        proof {
            lemma_hit_is_shown(v, (position[0], position[1]), v.zlist.len());
        }
        let previous = self.over;
        let same = match (hit, previous) {
            (Some(a), Some(b)) => a == b,
            (None, None) => true,
            _ => false,
        };
        if same {
            assert(out@ =~= old(out)@ + Seq::<Dispatch>::empty());
            return ;
        }
        match previous {
            Some(prev) => {
                self.clear_flag(prev, UiFlags::MouseOver);
                out.push(Dispatch { target: prev, event: CallBackEvent::MouseOver { over: false } });
            },
            None => {},
        }
        match hit {
            Some(now) => {
                self.set_flag(now, UiFlags::MouseOver);
                out.push(Dispatch { target: now, event: CallBackEvent::MouseOver { over: true } });
            },
            None => {},
        }
        self.over = hit;
        assert(out@ =~= old(out)@ + v.hover((position[0], position[1])).due);
    }

    /// Handles a move of the pointer to `position` in a viewport of the size
    /// `screensize`: see [`RouterView::mouse_position`]. Returns by how much
    /// the window is to be moved, if it is being dragged, and the callbacks
    /// that are due, in their order.
    pub fn event_mouse_position(&mut self, position: [i32; 2], screensize: [i32; 2]) -> (result: (
        Option<WindowMove>,
        Vec<Dispatch>,
    ))
        requires
            old(self).wf(),
        ensures
            final(self).wf(),
            final(self).next_generation() == old(self).next_generation(),
            final(self)@ == old(self)@.mouse_position(
                (position[0], position[1]),
                (screensize[0], screensize[1]),
            ).state,
            result.1@ == old(self)@.mouse_position(
                (position[0], position[1]),
                (screensize[0], screensize[1]),
            ).due,
            result.0 == if old(self)@.moving {
                Some(old(self)@.window_move((position[0], position[1])))
            } else {
                None
            },
            focus_marked(old(self)@) ==> focus_marked(final(self)@),
    {
        proof {
            if focus_marked(old(self)@) {
                lemma_position_focus(
                    old(self)@,
                    (position[0], position[1]),
                    (screensize[0], screensize[1]),
                );
            }
        }
        let mut due: Vec<Dispatch> = Vec::new();
        let mut window: Option<WindowMove> = None;
        if self.moving {
            window =
            Some(
                WindowMove {
                    dx: position[0] as i64 - self.mouse_clicked[0] as i64,
                    dy: position[1] as i64 - self.mouse_clicked[1] as i64,
                },
            );
        } else {
            let dragged = match self.focused {
                Some(f) => if self.get_widget(f).has(UiFlags::Moving) {
                    Some(f)
                } else {
                    None
                },
                None => None,
            };
            match dragged {
                Some(f) => {
                    self.widget_drag(f, position, screensize, &mut due);
                },
                None => {
                    self.mouse_over_event(position, &mut due);
                },
            }
        }
        self.new_mouse_pos = position;
        self.mouse_pos = position;
        proof {
            let want = old(self)@.mouse_position(
                (position[0], position[1]),
                (screensize[0], screensize[1]),
            );
            assert(due@ =~= want.due);
            assert(self@.nodes == want.state.nodes);
            assert(self@ == want.state);
        }
        (window, due)
    }

    // ----- events -----

    /// Routes one event of the input: see [`RouterView::handle`]. Returns by
    /// how much the window is to be moved, if it is being dragged, and the
    /// callbacks that are due, in their order.
    pub fn handle_event(&mut self, event: &SystemEvent) -> (result: (
        Option<WindowMove>,
        Vec<Dispatch>,
    ))
        requires
            old(self).wf(),
        ensures
            final(self).wf(),
            final(self).next_generation() == old(self).next_generation(),
            final(self)@ == old(self)@.handle(*event).state,
            result.1@ == old(self)@.handle(*event).due,
            result.0 == old(self)@.handle(*event).window,
    {
        match event {
            SystemEvent::MouseButton { button, pressed } => {
                let due = self.event_mouse_button(*button, *pressed);
                (None, due)
            },
            SystemEvent::MouseMoved { position, screensize } => {
                self.event_mouse_position(*position, *screensize)
            },
            SystemEvent::Modifiers { modifiers } => {
                self.event_modifiers(*modifiers);
                (None, Vec::new())
            },
        }
    }

    /// The widgets that are shown, in the order in which they are drawn.
    pub fn draw_order(&self) -> (order: Vec<Handle>)
        ensures
            order@ == self@.zlist,
    {
        let mut order: Vec<Handle> = Vec::new();
        let mut i: usize = 0;
        while i < self.zlist.len()
            invariant
                i <= self.zlist@.len(),
                order@ == self.zlist@.take(i as int),
            decreases self.zlist@.len() - i,
        {
            order.push(self.zlist[i]);
            proof {
                assert(self.zlist@.take(i + 1) =~= self.zlist@.take(i as int).push(
                    self.zlist@[i as int],
                ));
            }
            i += 1;
        }
        proof {
            assert(self.zlist@.take(self.zlist@.len() as int) =~= self.zlist@);
        }
        order
    }

    // ----- what callbacks ask for -----

    /// Carries out one command: see [`RouterView::apply_command`].
    pub fn apply_command(&mut self, command: Command, out: &mut Vec<Dispatch>)
        requires
            old(self).wf(),
        ensures
            final(self).wf(),
            final(self).next_generation() == old(self).next_generation(),
            final(self)@ == old(self)@.apply_command(command).state,
            final(out)@ == old(out)@ + old(self)@.apply_command(command).due,
    {
        match command {
            Command::SetParent { child, parent } => {
                let _ = self.set_parent(child, parent);
            },
            Command::Focus(h) => {
                let mut due = self.widget_manual_focus(h);
                out.append(&mut due);
            },
            Command::Remove(h) => {
                let _ = self.remove_widget(h);
            },
            Command::Raise(h) => {
                self.raise_to_top(h);
            },
        }
        assert(out@ =~= old(out)@ + old(self)@.apply_command(command).due);
    }

    /// Carries out the commands, one after the other, and returns the
    /// callbacks that are due: see [`RouterView::apply_commands`].
    pub fn apply_commands(&mut self, commands: &Commands) -> (due: Vec<Dispatch>)
        requires
            old(self).wf(),
        ensures
            final(self).wf(),
            final(self).next_generation() == old(self).next_generation(),
            final(self)@ == old(self)@.apply_commands(commands@).state,
            due@ == old(self)@.apply_commands(commands@).due,
    {
        let mut due: Vec<Dispatch> = Vec::new();
        let ghost v = self@;
        let mut i: usize = 0;
        while i < commands.len()
            invariant
                self.wf(),
                self.next_generation() == old(self).next_generation(),
                i <= commands@.len(),
                self@ == v.apply_commands(commands@.take(i as int)).state,
                due@ == v.apply_commands(commands@.take(i as int)).due,
            decreases commands@.len() - i,
        {
            let command = commands.get(i).unwrap();
            proof {
                assert(commands@.take(i + 1).drop_last() =~= commands@.take(i as int));
                assert(commands@.take(i + 1).last() == command);
            }
            self.apply_command(command, &mut due);
            i += 1;
        }
        proof {
            assert(commands@.take(commands@.len() as int) =~= commands@);
        }
        due
    }
}

} // verus!
