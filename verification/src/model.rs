//! The router as a mathematical value, and what each operation makes of it.
//!
//! [`RouterView`] is the view of [`crate::widgets::Widgets`]. The functions
//! here say, for every state, which widget an event is meant for, what the
//! state is afterwards and which callbacks are due, in their order.

use crate::bounds::WorldBounds;
use crate::events::{
    CallBackEvent, CallBackKey, Command, Dispatch, ModifiersState, MouseButton, SystemEvent,
    WindowMove,
};
use crate::flags::UiFlags;
use crate::handle::Handle;
use crate::widget::{NodeView, WidgetView};
use vstd::prelude::*;

verus! {

/// `s` without `h`, if `h` is in it.
pub open spec fn without(s: Seq<Handle>, h: Handle) -> Seq<Handle> {
    if s.contains(h) {
        s.remove(s.index_of(h))
    } else {
        s
    }
}

/// `s` with `h` moved to the end, if `h` is in it.
pub open spec fn to_back(s: Seq<Handle>, h: Handle) -> Seq<Handle> {
    if s.contains(h) {
        s.remove(s.index_of(h)).push(h)
    } else {
        s
    }
}

/// What [`without`] keeps: every element but `h`, each once, in the order
/// they had.
pub proof fn lemma_without(s: Seq<Handle>, h: Handle)
    requires
        s.no_duplicates(),
    ensures
        without(s, h).no_duplicates(),
        !without(s, h).contains(h),
        forall|x: Handle| #[trigger] without(s, h).contains(x) <==> s.contains(x) && x != h,
        s.contains(h) ==> without(s, h).len() + 1 == s.len(),
        !s.contains(h) ==> without(s, h) == s,
{
    if s.contains(h) {
        let i = s.index_of(h);
        let r = s.remove(i);
        assert forall|x: Handle| #[trigger] r.contains(x) <==> s.contains(x) && x != h by {
            if r.contains(x) {
                let j = choose|j: int| 0 <= j < r.len() && r[j] == x;
                if j < i {
                    assert(s[j] == x);
                } else {
                    assert(s[j + 1] == x);
                }
            }
            if s.contains(x) && x != h {
                let k = choose|k: int| 0 <= k < s.len() && s[k] == x;
                if k < i {
                    assert(r[k] == x);
                } else {
                    assert(r[k - 1] == x);
                }
            }
        }
        assert forall|j: int, k: int| 0 <= j < r.len() && 0 <= k < r.len() && j != k implies r[j]
            != r[k] by {
            let sj = if j < i {
                j
            } else {
                j + 1
            };
            let sk = if k < i {
                k
            } else {
                k + 1
            };
            assert(r[j] == s[sj] && r[k] == s[sk]);
        }
    }
}

/// What [`to_back`] does: the same elements, each once; `h` last if it was
/// among them; and nothing at all if `h` was last already.
pub proof fn lemma_to_back(s: Seq<Handle>, h: Handle)
    requires
        s.no_duplicates(),
    ensures
        to_back(s, h).no_duplicates(),
        to_back(s, h).len() == s.len(),
        forall|x: Handle| #[trigger] to_back(s, h).contains(x) <==> s.contains(x),
        s.contains(h) ==> to_back(s, h) == without(s, h).push(h),
        s.contains(h) ==> to_back(s, h).last() == h,
        s.len() > 0 && s.last() == h ==> to_back(s, h) == s,
{
    lemma_without(s, h);
    if s.contains(h) {
        let w = without(s, h);
        let t = w.push(h);
        assert(to_back(s, h) == t);
        assert forall|x: Handle| #[trigger] t.contains(x) <==> s.contains(x) by {
            if t.contains(x) {
                let j = choose|j: int| 0 <= j < t.len() && t[j] == x;
                if j < w.len() {
                    assert(w.contains(x));
                }
            }
            if s.contains(x) {
                if x == h {
                    assert(t[w.len() as int] == h);
                } else {
                    assert(w.contains(x));
                    let k = choose|k: int| 0 <= k < w.len() && w[k] == x;
                    assert(t[k] == x);
                }
            }
        }
        assert forall|j: int, k: int| 0 <= j < t.len() && 0 <= k < t.len() && j != k implies t[j]
            != t[k] by {
            if j < w.len() && k < w.len() {
            } else if j < w.len() {
                assert(w.contains(t[j]));
            } else {
                assert(w.contains(t[k]));
            }
        }
        if s.last() == h {
            let i = s.index_of(h);
            assert(i == s.len() - 1);
            assert(t =~= s);
        }
    }
}

/// The first `i + 1` elements of a list without repetition are its first
/// `i` and the one at place `i`, which is not among those.
pub proof fn lemma_take_grows(s: Seq<Handle>, i: int)
    requires
        s.no_duplicates(),
        0 <= i < s.len(),
    ensures
        !s.take(i).contains(s[i]),
        forall|h: Handle| s.take(i + 1).contains(h) <==> (s.take(i).contains(h) || h == s[i]),
{
    let t0 = s.take(i);
    let t1 = s.take(i + 1);
    if t0.contains(s[i]) {
        let k = choose|k: int| 0 <= k < t0.len() && t0[k] == s[i];
        assert(s[k] == s[i]);
    }
    assert forall|h: Handle| t1.contains(h) <==> (t0.contains(h) || h == s[i]) by {
        if t1.contains(h) {
            let k = choose|k: int| 0 <= k < t1.len() && t1[k] == h;
            if k < i {
                assert(t0[k] == h);
            }
        }
        if t0.contains(h) {
            let k = choose|k: int| 0 <= k < t0.len() && t0[k] == h;
            assert(t1[k] == h);
        }
        if h == s[i] {
            assert(t1[i] == h);
        }
    }
}

/// One `PositionChange` for each handle of `handles`, in their order.
pub open spec fn position_changes(handles: Seq<Handle>) -> Seq<Dispatch> {
    Seq::new(
        handles.len(),
        |i: int| Dispatch { target: handles[i], event: CallBackEvent::PositionChange },
    )
}

/// The callbacks for two lists of handles, one after the other, are those for
/// the two lists joined.
pub proof fn lemma_position_changes_add(a: Seq<Handle>, b: Seq<Handle>)
    ensures
        position_changes(a + b) == position_changes(a) + position_changes(b),
{
    assert(position_changes(a + b) =~= position_changes(a) + position_changes(b));
}

/// Who may take a press that fell on a widget which cannot take the focus.
#[derive(Clone, Copy, Debug, PartialEq, Eq, Structural)]
pub enum Permission {
    /// No widget above it lets it be used: the press is ignored.
    Denied,
    /// The widget itself takes the press.
    Target,
    /// This widget above it takes the press in its place.
    Ancestor(Handle),
}

/// A state together with the callbacks that are due, in their order.
pub struct Outcome {
    pub state: RouterView,
    pub due: Seq<Dispatch>,
}

/// What routing an event gives: the new state, the callbacks that are due,
/// and by how much the window is to be moved, if it is being dragged.
pub struct Routed {
    pub state: RouterView,
    pub due: Seq<Dispatch>,
    pub window: Option<WindowMove>,
}

/// The router as a mathematical value.
pub struct RouterView {
    /// The node of every widget, by its handle.
    pub nodes: Map<Handle, NodeView>,
    /// The widgets that are shown, from the one drawn first to the topmost.
    pub zlist: Seq<Handle>,
    /// The widgets that are loaded but not shown, in the order in which they
    /// were hidden.
    pub hidden: Seq<Handle>,
    pub focused: Option<Handle>,
    pub over: Option<Handle>,
    pub clicked: Option<Handle>,
    /// Where the pointer was when a button last went down or up.
    pub mouse_clicked: (i32, i32),
    /// Where the pointer was after its last move: a drag goes by the
    /// distance from here.
    pub mouse_pos: (i32, i32),
    /// Where the last move brought the pointer.
    pub new_mouse_pos: (i32, i32),
    /// Whether the window is being dragged.
    pub moving: bool,
    pub button: MouseButton,
    pub modifier: ModifiersState,
    /// A number for each widget that is greater than its parent's: as long as
    /// there is one, no widget is above itself in the tree.
    pub levels: Map<Handle, nat>,
    /// A number above every level.
    pub level_bound: nat,
}

impl RouterView {
    /// The list of the hidden widgets holds each hidden widget once and
    /// nothing else.
    pub open spec fn hidden_wf(self) -> bool {
        &&& self.hidden.no_duplicates()
        &&& forall|i: int|
            0 <= i < self.hidden.len() ==> self.nodes.contains_key(#[trigger] self.hidden[i])
                && self.nodes[self.hidden[i]].hidden
        &&& forall|h: Handle| #[trigger]
            self.nodes.contains_key(h) && self.nodes[h].hidden ==> self.hidden.contains(h)
    }

    /// The parent and child entries agree, no widget is above itself, the
    /// stacking order holds each shown widget once and nothing else, the
    /// list of the hidden widgets holds each hidden widget once and nothing
    /// else, and the focused, hovered and clicked widgets exist.
    pub open spec fn wf(self) -> bool {
        &&& !self.nodes.contains_key(Handle::dangling())
        &&& forall|h: Handle| #[trigger] self.nodes.contains_key(h) ==> self.node_wf(h)
        &&& self.zlist.no_duplicates()
        &&& forall|i: int|
            0 <= i < self.zlist.len() ==> self.nodes.contains_key(#[trigger] self.zlist[i])
                && !self.nodes[self.zlist[i]].hidden
        &&& forall|h: Handle| #[trigger]
            self.nodes.contains_key(h) && !self.nodes[h].hidden ==> self.zlist.contains(h)
        &&& self.hidden_wf()
        &&& self.focused is Some ==> self.nodes.contains_key(self.focused.unwrap())
        &&& self.over is Some ==> self.nodes.contains_key(self.over.unwrap())
        &&& self.clicked is Some ==> self.nodes.contains_key(self.clicked.unwrap())
    }

    /// What holds of the node of one widget.
    pub open spec fn node_wf(self, h: Handle) -> bool {
        let n = self.nodes[h];
        &&& n.id == h
        &&& self.levels.contains_key(h)
        &&& self.levels[h] < self.level_bound
        &&& n.parent is Some ==> {
            &&& self.nodes.contains_key(n.parent.unwrap())
            &&& self.nodes[n.parent.unwrap()].children.contains(h)
            &&& self.levels[n.parent.unwrap()] < self.levels[h]
        }
        &&& n.children.no_duplicates()
        &&& forall|i: int|
            0 <= i < n.children.len() ==> self.nodes.contains_key(#[trigger] n.children[i])
                && self.nodes[n.children[i]].parent == Some(h)
    }

    /// Whether `flag` is set on the widget `h`.
    pub open spec fn has(self, h: Handle, flag: UiFlags) -> bool {
        self.nodes[h].has(flag)
    }

    /// The state with the node of `h` replaced.
    pub open spec fn with_node(self, h: Handle, node: NodeView) -> RouterView {
        RouterView { nodes: self.nodes.insert(h, node), ..self }
    }

    /// The state with the widget of `h` replaced and its place kept.
    pub open spec fn with_widget(self, h: Handle, widget: WidgetView) -> RouterView {
        self.with_node(h, NodeView { widget, ..self.nodes[h] })
    }

    /// The state with `flag` set on `h`.
    pub open spec fn with_flag(self, h: Handle, flag: UiFlags) -> RouterView {
        self.with_node(h, self.nodes[h].with_flag(flag))
    }

    /// The state with `flag` cleared on `h`.
    pub open spec fn without_flag(self, h: Handle, flag: UiFlags) -> RouterView {
        self.with_node(h, self.nodes[h].without_flag(flag))
    }

    // ----- the tree -----

    /// Whether `a` is `h` or above `h` in the tree.
    pub open spec fn is_ancestor_or_self(self, a: Handle, h: Handle) -> bool
        decreases self.levels[h],
    {
        h == a || match self.nodes[h].parent {
            Some(p) => if self.nodes.contains_key(p) && self.levels[p] < self.levels[h] {
                self.is_ancestor_or_self(a, p)
            } else {
                false
            },
            None => false,
        }
    }

    /// Whether some widget above `h` in the tree has `flag` set.
    pub open spec fn any_ancestor_has(self, h: Handle, flag: UiFlags) -> bool
        decreases self.levels[h],
    {
        match self.nodes[h].parent {
            Some(p) => if self.nodes.contains_key(p) && self.levels[p] < self.levels[h] {
                self.nodes[p].has(flag) || self.any_ancestor_has(p, flag)
            } else {
                false
            },
            None => false,
        }
    }

    /// The nearest widget above `h` in the tree that has `flag` set.
    pub open spec fn first_ancestor_with(self, h: Handle, flag: UiFlags) -> Option<Handle>
        decreases self.levels[h],
    {
        match self.nodes[h].parent {
            Some(p) => if self.nodes.contains_key(p) && self.levels[p] < self.levels[h] {
                if self.nodes[p].has(flag) {
                    Some(p)
                } else {
                    self.first_ancestor_with(p, flag)
                }
            } else {
                None
            },
            None => None,
        }
    }

    /// `h` and every widget below it: `h` first, then the widgets of each
    /// child's subtree, child by child in the order of the children.
    pub open spec fn subtree(self, h: Handle) -> Seq<Handle>
        decreases self.level_bound - self.levels[h], self.nodes[h].children.len() + 1,
    {
        seq![h] + self.subtrees_of(h, self.nodes[h].children.len())
    }

    /// The subtrees of the first `n` children of `h`, one after the other.
    pub open spec fn subtrees_of(self, h: Handle, n: nat) -> Seq<Handle>
        decreases self.level_bound - self.levels[h], n,
    {
        if n == 0 || n > self.nodes[h].children.len() {
            Seq::empty()
        } else {
            let c = self.nodes[h].children[n - 1];
            self.subtrees_of(h, (n - 1) as nat) + (if self.levels[h] < self.levels[c]
                < self.level_bound {
                self.subtree(c)
            } else {
                Seq::empty()
            })
        }
    }

    // ----- the tree's operations -----

    /// The state after a new widget was stored under the handle `h`: it has
    /// no parent and no children, is shown, and is the topmost.
    pub open spec fn inserted(self, h: Handle, widget: WidgetView) -> RouterView {
        RouterView {
            nodes: self.nodes.insert(
                h,
                NodeView { id: h, parent: None, children: Seq::empty(), hidden: false, widget },
            ),
            zlist: self.zlist.push(h),
            levels: self.levels.insert(h, 0),
            level_bound: if self.level_bound == 0 {
                1
            } else {
                self.level_bound
            },
            ..self
        }
    }

    /// The nodes after `h` was moved to the end of its parent's children.
    pub open spec fn raised_nodes(self, h: Handle) -> Map<Handle, NodeView> {
        match self.nodes[h].parent {
            Some(p) => self.nodes.insert(
                p,
                NodeView { children: to_back(self.nodes[p].children, h), ..self.nodes[p] },
            ),
            None => self.nodes,
        }
    }

    /// The state after `h` was raised: it is the last of the stacking order,
    /// if it is shown, and the last of its parent's children, if it has a
    /// parent. Nothing else changes its place relative to the others.
    pub open spec fn raised(self, h: Handle) -> RouterView {
        RouterView { nodes: self.raised_nodes(h), zlist: to_back(self.zlist, h), ..self }
    }

    /// The nodes after `child` was given the parent `parent`, or none: it
    /// has left the children of the parent it had, and is the last child of
    /// the new one.
    pub open spec fn reparented_nodes(self, child: Handle, parent: Option<Handle>) -> Map<
        Handle,
        NodeView,
    > {
        let detached = match self.nodes[child].parent {
            Some(op) => self.nodes.insert(
                op,
                NodeView { children: without(self.nodes[op].children, child), ..self.nodes[op] },
            ),
            None => self.nodes,
        };
        let moved = detached.insert(child, NodeView { parent, ..detached[child] });
        match parent {
            Some(p) => moved.insert(
                p,
                NodeView { children: moved[p].children.push(child), ..moved[p] },
            ),
            None => moved,
        }
    }

    /// The levels after `child` was given the parent `parent`: `child` and
    /// all below it are lifted above the new parent.
    pub open spec fn reparented_levels(self, child: Handle, parent: Option<Handle>) -> Map<
        Handle,
        nat,
    > {
        let lift: nat = match parent {
            Some(p) => self.levels[p] + 1,
            None => 0,
        };
        Map::new(
            |x: Handle| self.levels.contains_key(x),
            |x: Handle|
                if self.is_ancestor_or_self(child, x) {
                    self.levels[x] + lift
                } else {
                    self.levels[x]
                },
        )
    }

    /// The state after `child` was given the parent `parent`, or none.
    pub open spec fn reparented(self, child: Handle, parent: Option<Handle>) -> RouterView {
        RouterView {
            nodes: self.reparented_nodes(child, parent),
            levels: self.reparented_levels(child, parent),
            level_bound: match parent {
                Some(p) => self.level_bound + self.levels[p] + 1,
                None => self.level_bound,
            },
            ..self
        }
    }

    /// Whether `child` can be given the parent `parent`: both exist, and
    /// `parent` is neither `child` nor below it.
    pub open spec fn can_reparent(self, child: Handle, parent: Option<Handle>) -> bool {
        &&& self.nodes.contains_key(child)
        &&& parent is Some ==> self.nodes.contains_key(parent.unwrap())
        &&& parent is Some ==> !self.is_ancestor_or_self(child, parent.unwrap())
    }

    /// The state after `h` was removed: see [`Self::removed_nodes`]. It has
    /// left the stacking order and the list of the hidden widgets, and is
    /// neither focused, hovered nor clicked.
    pub open spec fn removed(self, h: Handle) -> RouterView {
        RouterView {
            nodes: self.removed_nodes(h),
            zlist: without(self.zlist, h),
            hidden: without(self.hidden, h),
            focused: Self::purged(self.focused, h),
            over: Self::purged(self.over, h),
            clicked: Self::purged(self.clicked, h),
            ..self
        }
    }

    /// The state after every widget was removed.
    pub open spec fn cleared(self) -> RouterView {
        RouterView {
            nodes: Map::empty(),
            zlist: Seq::empty(),
            hidden: Seq::empty(),
            focused: None,
            over: None,
            clicked: None,
            ..self
        }
    }

    /// The nodes after `h` was removed: it is gone, it has left its parent's
    /// children, and the children it had have no parent.
    pub open spec fn removed_nodes(self, h: Handle) -> Map<Handle, NodeView> {
        Map::new(
            |x: Handle| self.nodes.contains_key(x) && x != h,
            |x: Handle|
                {
                    let n = self.nodes[x];
                    NodeView {
                        parent: if n.parent == Some(h) {
                            None
                        } else {
                            n.parent
                        },
                        children: if self.nodes[h].parent == Some(x) {
                            without(n.children, h)
                        } else {
                            n.children
                        },
                        ..n
                    }
                },
        )
    }

    /// `slot`, emptied if it held `h`.
    pub open spec fn purged(slot: Option<Handle>, h: Handle) -> Option<Handle> {
        if slot == Some(h) {
            None
        } else {
            slot
        }
    }

    /// The state after `h` was hidden or shown again. A widget that is
    /// hidden leaves the stacking order and is the last of the hidden ones;
    /// one that is shown again leaves the hidden ones and is the topmost.
    pub open spec fn with_hidden(self, h: Handle, hidden: bool) -> RouterView {
        if self.nodes[h].hidden == hidden {
            self
        } else {
            RouterView {
                nodes: self.nodes.insert(h, NodeView { hidden, ..self.nodes[h] }),
                zlist: if hidden {
                    without(self.zlist, h)
                } else {
                    self.zlist.push(h)
                },
                hidden: if hidden {
                    self.hidden.push(h)
                } else {
                    without(self.hidden, h)
                },
                ..self
            }
        }
    }

    // ----- which widget an event is meant for -----

    /// Whether a press at `p` can be meant for the widget at place `i` of the
    /// stacking order: it can be clicked and `p` lies in its bounds.
    pub open spec fn hit_at(self, p: (i32, i32), i: int) -> bool {
        &&& 0 <= i < self.zlist.len()
        &&& self.nodes[self.zlist[i]].has(UiFlags::ClickAble)
        &&& self.nodes[self.zlist[i]].covers(p)
    }

    /// The topmost of the first `n` widgets of the stacking order that a
    /// press at `p` can be meant for.
    pub open spec fn hit_below(self, p: (i32, i32), n: nat) -> Option<Handle>
        decreases n,
    {
        if n == 0 {
            None
        } else if self.hit_at(p, n - 1) {
            Some(self.zlist[n - 1])
        } else {
            self.hit_below(p, (n - 1) as nat)
        }
    }

    /// The widget a press at `p` is meant for: the topmost that can be
    /// clicked and has `p` in its bounds.
    pub open spec fn hit_test(self, p: (i32, i32)) -> Option<Handle> {
        self.hit_below(p, self.zlist.len())
    }

    /// Who takes a press that fell on `target`, a widget that cannot take the
    /// focus. If a widget above it is always useable, `target` does. If not,
    /// the nearest widget above it that can take the focus decides: it takes
    /// the press itself if it wants the clicks of what it holds, and lets
    /// `target` take it if not. If there is no such widget either, nobody
    /// does.
    pub open spec fn permission(self, target: Handle) -> Permission {
        if self.any_ancestor_has(target, UiFlags::AlwaysUseable) {
            Permission::Target
        } else {
            match self.first_ancestor_with(target, UiFlags::CanFocus) {
                Some(a) => if self.nodes[a].has(UiFlags::FocusClick) {
                    Permission::Ancestor(a)
                } else {
                    Permission::Target
                },
                None => Permission::Denied,
            }
        }
    }

    /// The topmost of the first `n` widgets of the stacking order that goes
    /// by the name and number `identity`.
    pub open spec fn named_below(self, identity: (Seq<char>, u64), n: nat) -> Option<Handle>
        decreases n,
    {
        if n == 0 || n > self.zlist.len() {
            None
        } else if self.nodes[self.zlist[n - 1]].widget.identity == identity {
            Some(self.zlist[n - 1])
        } else {
            self.named_below(identity, (n - 1) as nat)
        }
    }

    /// The one hidden last of the first `n` hidden widgets that goes by the
    /// name and number `identity`.
    pub open spec fn hidden_named_below(self, identity: (Seq<char>, u64), n: nat) -> Option<
        Handle,
    >
        decreases n,
    {
        if n == 0 || n > self.hidden.len() {
            None
        } else if self.nodes[self.hidden[n - 1]].widget.identity == identity {
            Some(self.hidden[n - 1])
        } else {
            self.hidden_named_below(identity, (n - 1) as nat)
        }
    }

    /// The widget that goes by the name and number `identity`: the topmost
    /// shown one that does, or, if no shown one does, the one hidden last
    /// that does.
    pub open spec fn named(self, identity: (Seq<char>, u64)) -> Option<Handle> {
        match self.named_below(identity, self.zlist.len()) {
            Some(h) => Some(h),
            None => self.hidden_named_below(identity, self.hidden.len()),
        }
    }

    // ----- presses -----

    /// The press that is due for `w`.
    pub open spec fn press_of(self, w: Handle, pressed: bool) -> Dispatch {
        Dispatch {
            target: w,
            event: CallBackEvent::MousePress {
                button: self.button,
                pressed,
                modifiers: self.modifier,
            },
        }
    }

    /// `w` takes the press: the window's drag begins if `w` moves the window
    /// and the press lies in its bounds; `w` begins to move if it can be
    /// moved and the press lies in its bounds; its press callback is due.
    pub open spec fn set_clicked(self, w: Handle) -> Outcome {
        let inside = self.nodes[w].covers(self.mouse_clicked);
        let dragged = RouterView {
            moving: self.moving || (self.has(w, UiFlags::CanMoveWindow) && inside),
            clicked: Some(w),
            ..self
        };
        Outcome {
            state: if self.has(w, UiFlags::MoveAble) && inside {
                dragged.with_flag(w, UiFlags::Moving)
            } else {
                dragged
            },
            due: seq![self.press_of(w, true)],
        }
    }

    /// The press that fell on `w` goes to the parent of `w` instead: the
    /// window's drag begins if the parent moves the window and the press lies
    /// in the parent's bounds, and the parent's press callback is due. None
    /// of `w` is.
    pub open spec fn delegate_click(self, w: Handle) -> Outcome {
        let p = self.nodes[w].parent.unwrap();
        Outcome {
            state: RouterView {
                moving: self.moving || (self.has(p, UiFlags::CanMoveWindow)
                    && self.nodes[p].covers(self.mouse_clicked)),
                clicked: Some(p),
                ..self
            },
            due: seq![self.press_of(p, true)],
        }
    }

    /// The callback that tells `w` whether it has the focus.
    pub open spec fn focus_of(w: Handle, focused: bool) -> Dispatch {
        Dispatch { target: w, event: CallBackEvent::FocusChange { focused } }
    }

    /// `target` takes the focus from whoever has it: `target` is raised, the
    /// widget that had the focus is told that it lost it, then `target` is
    /// told that it has it.
    pub open spec fn set_focus(self, target: Handle) -> Outcome {
        let raised = self.raised(target);
        let left = match self.focused {
            Some(prev) => raised.without_flag(prev, UiFlags::IsFocused),
            None => raised,
        };
        Outcome {
            state: RouterView {
                focused: Some(target),
                ..left.with_flag(target, UiFlags::IsFocused)
            },
            due: match self.focused {
                Some(prev) => seq![Self::focus_of(prev, false), Self::focus_of(target, true)],
                None => seq![Self::focus_of(target, true)],
            },
        }
    }

    /// What a press on `target`, the widget it is meant for, leads to.
    pub open spec fn press_on(self, target: Handle) -> Outcome {
        if self.has(target, UiFlags::CanFocus) {
            if self.focused != Some(target) {
                let focus = self.set_focus(target);
                let click = focus.state.set_clicked(target);
                Outcome { state: click.state, due: focus.due + click.due }
            } else {
                self.set_clicked(target)
            }
        } else {
            match self.permission(target) {
                Permission::Denied => Outcome { state: self, due: Seq::empty() },
                Permission::Ancestor(a) => self.set_clicked(a),
                Permission::Target => if self.has(target, UiFlags::CanClickBehind) {
                    self.delegate_click(target)
                } else {
                    self.set_clicked(target)
                },
            }
        }
    }

    /// Who takes a press that is meant for `target`, if anybody: `target`
    /// itself if it can take the focus; if it cannot, nobody where the press
    /// is not permitted, the widget above it that takes its clicks where
    /// there is one, its parent where it lets clicks go through to what is
    /// behind it, and itself otherwise.
    pub open spec fn press_taker(self, target: Handle) -> Option<Handle> {
        if self.has(target, UiFlags::CanFocus) {
            Some(target)
        } else {
            match self.permission(target) {
                Permission::Denied => None,
                Permission::Ancestor(a) => Some(a),
                Permission::Target => if self.has(target, UiFlags::CanClickBehind) {
                    self.nodes[target].parent
                } else {
                    Some(target)
                },
            }
        }
    }

    /// What a press at the place of the last click leads to.
    pub open spec fn mouse_press(self) -> Outcome {
        match self.hit_test(self.mouse_clicked) {
            Some(target) => self.press_on(target),
            None => Outcome { state: self, due: Seq::empty() },
        }
    }

    /// The nodes with `Moving` cleared on every widget, shown or hidden.
    pub open spec fn settled_nodes(self) -> Map<Handle, NodeView> {
        Map::new(
            |h: Handle| self.nodes.contains_key(h),
            |h: Handle| self.nodes[h].without_flag(UiFlags::Moving),
        )
    }

    /// Whether a release ends the window's drag: the widget the release is
    /// meant for, or the one that took the last press, moves the window.
    pub open spec fn release_ends_drag(self) -> bool {
        ||| (self.hit_test(self.mouse_clicked) is Some && self.has(
            self.hit_test(self.mouse_clicked).unwrap(),
            UiFlags::CanMoveWindow,
        ))
        ||| (self.clicked is Some && self.has(self.clicked.unwrap(), UiFlags::CanMoveWindow))
    }

    /// What a release at the place of the last click leads to: no widget is
    /// moving any more, the window's drag has ended if
    /// [`Self::release_ends_drag`], and the release callback of the widget
    /// the release is meant for is due.
    pub open spec fn mouse_release(self) -> Outcome {
        Outcome {
            state: RouterView {
                nodes: self.settled_nodes(),
                moving: self.moving && !self.release_ends_drag(),
                ..self
            },
            due: match self.hit_test(self.mouse_clicked) {
                Some(target) => seq![self.press_of(target, false)],
                None => Seq::empty(),
            },
        }
    }

    /// What a button that went down or up leads to: the button and the place
    /// of the pointer are noted, then the press or the release is handled.
    pub open spec fn mouse_button(self, button: MouseButton, pressed: bool) -> Outcome {
        let noted = RouterView { button, mouse_clicked: self.mouse_pos, ..self };
        if pressed {
            noted.mouse_press()
        } else {
            noted.mouse_release()
        }
    }

    // ----- moves of the pointer -----

    /// By how much the window is to be moved when the pointer is at `p`
    /// during the window's drag.
    pub open spec fn window_move(self, p: (i32, i32)) -> WindowMove {
        WindowMove {
            dx: (p.0 - self.mouse_clicked.0) as i64,
            dy: (p.1 - self.mouse_clicked.1) as i64,
        }
    }

    /// The bounds that the widget `h` must stay in while it is dragged: those
    /// of its parent, or the viewport if it has none.
    pub open spec fn container_of(self, h: Handle, screensize: (i32, i32)) -> WorldBounds {
        match self.nodes[h].parent {
            Some(p) => self.nodes[p].widget.bounds,
            None => WorldBounds {
                x: 0,
                y: 0,
                width: screensize.0,
                height: screensize.1,
                layer: 0,
            },
        }
    }

    /// Whether the widget `h`, dragged along with the pointer to `p`, stays
    /// in what holds it.
    pub open spec fn drag_accepted(self, h: Handle, p: (i32, i32), screensize: (i32, i32)) -> bool {
        self.nodes[h].widget.bounds.accepts_move(
            self.container_of(h, screensize),
            p.0 - self.mouse_pos.0,
            p.1 - self.mouse_pos.1,
        )
    }

    /// The widget `h` dragged along with the pointer to `p`: moved by as
    /// much as the pointer, with a `PositionChange` due for it and for every
    /// widget below it, if it stays in what holds it; otherwise nothing.
    pub open spec fn drag(self, h: Handle, p: (i32, i32), screensize: (i32, i32)) -> Outcome {
        if self.drag_accepted(h, p, screensize) {
            let n = self.nodes[h];
            Outcome {
                state: self.with_node(
                    h,
                    NodeView {
                        widget: WidgetView {
                            bounds: n.widget.bounds.moved_by(
                                p.0 - self.mouse_pos.0,
                                p.1 - self.mouse_pos.1,
                            ),
                            ..n.widget
                        },
                        ..n
                    },
                ),
                due: position_changes(self.subtree(h)),
            }
        } else {
            Outcome { state: self, due: Seq::empty() }
        }
    }

    /// The callback that tells `w` whether the pointer is over it.
    pub open spec fn over_of(w: Handle, over: bool) -> Dispatch {
        Dispatch { target: w, event: CallBackEvent::MouseOver { over } }
    }

    /// The pointer at `p` without a drag: the widget a press at `p` would be
    /// meant for is the one the pointer is over. If that is another than
    /// before, the one before is told that the pointer left, then the new
    /// one that it came.
    pub open spec fn hover(self, p: (i32, i32)) -> Outcome {
        let hit = self.hit_test(p);
        if hit == self.over {
            Outcome { state: self, due: Seq::empty() }
        } else {
            let left = match self.over {
                Some(prev) => self.without_flag(prev, UiFlags::MouseOver),
                None => self,
            };
            let entered = match hit {
                Some(now) => left.with_flag(now, UiFlags::MouseOver),
                None => left,
            };
            Outcome {
                state: RouterView { over: hit, ..entered },
                due: (match self.over {
                    Some(prev) => seq![Self::over_of(prev, false)],
                    None => Seq::empty(),
                }) + (match hit {
                    Some(now) => seq![Self::over_of(now, true)],
                    None => Seq::empty(),
                }),
            }
        }
    }

    /// Whether a move of the pointer drags the focused widget.
    pub open spec fn dragging_widget(self) -> bool {
        !self.moving && self.focused is Some && self.has(self.focused.unwrap(), UiFlags::Moving)
    }

    /// What a move of the pointer to `p` leads to. During the window's drag
    /// nothing but the pointer's place changes. Otherwise the focused widget
    /// is dragged if it is moving, and if it is not, the widget under the
    /// pointer is found anew. The pointer's place is noted in every case.
    pub open spec fn mouse_position(self, p: (i32, i32), screensize: (i32, i32)) -> Outcome {
        let handled = if self.moving {
            Outcome { state: self, due: Seq::empty() }
        } else if self.dragging_widget() {
            self.drag(self.focused.unwrap(), p, screensize)
        } else {
            self.hover(p)
        };
        Outcome {
            state: RouterView { mouse_pos: p, new_mouse_pos: p, ..handled.state },
            due: handled.due,
        }
    }

    /// What a widget's being given the focus without a press leads to:
    /// nothing if it cannot take the focus or has it already, otherwise what
    /// [`Self::set_focus`] says.
    pub open spec fn manual_focus(self, h: Handle) -> Outcome {
        if self.has(h, UiFlags::CanFocus) && self.focused != Some(h) {
            self.set_focus(h)
        } else {
            Outcome { state: self, due: Seq::empty() }
        }
    }

    // ----- events -----

    /// What routing `event` gives.
    pub open spec fn handle(self, event: SystemEvent) -> Routed {
        match event {
            SystemEvent::MouseButton { button, pressed } => Routed {
                state: self.mouse_button(button, pressed).state,
                due: self.mouse_button(button, pressed).due,
                window: None,
            },
            SystemEvent::MouseMoved { position, screensize } => Routed {
                state: self.mouse_position(
                    (position[0], position[1]),
                    (screensize[0], screensize[1]),
                ).state,
                due: self.mouse_position(
                    (position[0], position[1]),
                    (screensize[0], screensize[1]),
                ).due,
                window: if self.moving {
                    Some(self.window_move((position[0], position[1])))
                } else {
                    None
                },
            },
            SystemEvent::Modifiers { modifiers } => Routed {
                state: RouterView { modifier: modifiers, ..self },
                due: Seq::empty(),
                window: None,
            },
        }
    }

    /// The number of the key under which the callbacks for `due` are
    /// registered: the kind of the widget and the kind of the event.
    pub open spec fn code_for(self, due: Dispatch) -> u64 {
        (CallBackKey {
            kind: self.nodes[due.target].widget.kind,
            callback: due.event.callback(),
        }).code_of()
    }

    // ----- what callbacks ask for -----

    /// What carrying out one command leads to. A command that cannot be
    /// carried out, because a handle names no widget or the widget would
    /// come to lie below itself, changes nothing.
    pub open spec fn apply_command(self, command: Command) -> Outcome {
        match command {
            Command::SetParent { child, parent } => Outcome {
                state: if self.can_reparent(child, parent) {
                    self.reparented(child, parent)
                } else {
                    self
                },
                due: Seq::empty(),
            },
            Command::Focus(h) => if self.nodes.contains_key(h) {
                self.manual_focus(h)
            } else {
                Outcome { state: self, due: Seq::empty() }
            },
            Command::Remove(h) => Outcome {
                state: if self.nodes.contains_key(h) {
                    self.removed(h)
                } else {
                    self
                },
                due: Seq::empty(),
            },
            Command::Raise(h) => Outcome {
                state: if self.nodes.contains_key(h) {
                    self.raised(h)
                } else {
                    self
                },
                due: Seq::empty(),
            },
        }
    }

    /// What carrying out the commands leads to, one after the other.
    pub open spec fn apply_commands(self, commands: Seq<Command>) -> Outcome
        decreases commands.len(),
    {
        if commands.len() == 0 {
            Outcome { state: self, due: Seq::empty() }
        } else {
            let before = self.apply_commands(commands.drop_last());
            let last = before.state.apply_command(commands.last());
            Outcome { state: last.state, due: before.due + last.due }
        }
    }

    /// Whether `other` is this state but for what the widgets themselves
    /// hold: the same tree, the same stacking order, the same pointer.
    pub open spec fn same_tree(self, other: RouterView) -> bool {
        &&& other == (RouterView { nodes: other.nodes, ..self })
        &&& other.nodes.dom() == self.nodes.dom()
        &&& forall|h: Handle| #[trigger]
            self.nodes.contains_key(h) ==> other.nodes[h] == (NodeView {
                widget: other.nodes[h].widget,
                ..self.nodes[h]
            })
    }

    /// A state has its own tree; and a state that has the tree of one that
    /// has this one's, has this one's.
    pub proof fn lemma_same_tree(self, mid: RouterView, other: RouterView)
        ensures
            self.same_tree(self),
            self.same_tree(mid) && mid.same_tree(other) ==> self.same_tree(other),
    {
        assert(self == (RouterView { nodes: self.nodes, ..self }));
        if self.same_tree(mid) && mid.same_tree(other) {
            assert forall|h: Handle| #[trigger] self.nodes.contains_key(h) implies other.nodes[h]
                == (NodeView { widget: other.nodes[h].widget, ..self.nodes[h] }) by {
                assert(mid.nodes.contains_key(h));
            }
        }
    }

    /// Replacing the widget of a node keeps the tree.
    pub proof fn lemma_same_tree_widget(self, h: Handle)
        requires
            self.nodes.contains_key(h),
        ensures
            forall|widget: WidgetView| self.same_tree(#[trigger] self.with_widget(h, widget)),
    {
        assert forall|widget: WidgetView| self.same_tree(
            #[trigger] self.with_widget(h, widget),
        ) by {
            let other = self.with_widget(h, widget);
            assert(other.nodes.dom() =~= self.nodes.dom());
        }
    }
}

} // verus!
