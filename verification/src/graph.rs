//! Why every operation keeps a state well formed: the tree stays a tree and
//! the stacking order stays the list of the shown widgets.

use crate::handle::Handle;
use crate::events::{Command, SystemEvent};
use crate::flags::UiFlags;
use crate::model::{lemma_to_back, lemma_without, without, Permission, RouterView};
use crate::widget::NodeView;
use vstd::prelude::*;

verus! {

/// Why an operation on the tree was refused.
#[derive(Clone, Copy, Debug, PartialEq, Eq, Structural)]
pub enum GraphError {
    /// A handle names no widget.
    NotFound,
    /// The widget would come to lie below itself.
    Cycle,
}

/// Where the list of the hidden widgets stays, every widget that was there
/// is as hidden as it was, and no hidden widget has come, the list still
/// holds each hidden widget once and nothing else.
pub proof fn lemma_hidden_kept(v: RouterView, w: RouterView)
    requires
        v.hidden_wf(),
        w.hidden == v.hidden,
        forall|h: Handle| #[trigger]
            v.nodes.contains_key(h) ==> w.nodes.contains_key(h) && w.nodes[h].hidden
                == v.nodes[h].hidden,
        forall|h: Handle| #[trigger]
            w.nodes.contains_key(h) && !v.nodes.contains_key(h) ==> !w.nodes[h].hidden,
    ensures
        w.hidden_wf(),
{
    assert forall|i: int| 0 <= i < w.hidden.len() implies w.nodes.contains_key(
        #[trigger] w.hidden[i],
    ) && w.nodes[w.hidden[i]].hidden by {
        assert(v.nodes.contains_key(v.hidden[i]));
    }
    assert forall|h: Handle| #[trigger]
        w.nodes.contains_key(h) && w.nodes[h].hidden implies w.hidden.contains(h) by {
        assert(v.nodes.contains_key(h));
    }
}

/// Replacing the widget of a node, and nothing of its place in the tree,
/// keeps a state well formed.
pub proof fn lemma_widget_change(v: RouterView, h: Handle, n: NodeView)
    requires
        v.wf(),
        v.nodes.contains_key(h),
        n == (NodeView { widget: n.widget, ..v.nodes[h] }),
    ensures
        v.with_node(h, n).wf(),
{
    let w = v.with_node(h, n);
    lemma_hidden_kept(v, w);
    assert forall|x: Handle| #[trigger] w.nodes.contains_key(x) implies w.node_wf(x) by {
        assert(v.nodes.contains_key(x));
        assert(v.node_wf(x));
        let m = w.nodes[x];
        assert(m.children == v.nodes[x].children);
        assert(m.parent == v.nodes[x].parent);
        assert forall|i: int| 0 <= i < m.children.len() implies w.nodes.contains_key(
            #[trigger] m.children[i],
        ) && w.nodes[m.children[i]].parent == Some(x) by {
            assert(v.nodes.contains_key(v.nodes[x].children[i]));
        }
    }
    assert forall|i: int| 0 <= i < w.zlist.len() implies w.nodes.contains_key(
        #[trigger] w.zlist[i],
    ) && !w.nodes[w.zlist[i]].hidden by {
        assert(v.nodes.contains_key(v.zlist[i]));
    }
    assert forall|x: Handle| #[trigger]
        w.nodes.contains_key(x) && !w.nodes[x].hidden implies w.zlist.contains(x) by {
        assert(v.nodes.contains_key(x));
    }
}

/// Raising a widget keeps a state well formed.
pub proof fn lemma_raised_wf(v: RouterView, h: Handle)
    requires
        v.wf(),
        v.nodes.contains_key(h),
    ensures
        v.raised(h).wf(),
{
    let w = v.raised(h);
    assert(v.node_wf(h));
    lemma_hidden_kept(v, w);
    lemma_to_back(v.zlist, h);
    assert(v.node_wf(h));
    match v.nodes[h].parent {
        Some(p) => {
            assert(v.node_wf(p));
            lemma_to_back(v.nodes[p].children, h);
        },
        None => {},
    }
    assert forall|x: Handle| #[trigger] w.nodes.contains_key(x) implies w.node_wf(x) by {
        assert(v.nodes.contains_key(x));
        assert(v.node_wf(x));
        let m = w.nodes[x];
        assert(m.parent == v.nodes[x].parent);
        if m.parent is Some {
            let q = m.parent.unwrap();
            assert(v.nodes[q].children.contains(x));
            assert(w.nodes[q].children.contains(x));
        }
        assert forall|i: int| 0 <= i < m.children.len() implies w.nodes.contains_key(
            #[trigger] m.children[i],
        ) && w.nodes[m.children[i]].parent == Some(x) by {
            let c = m.children[i];
            assert(m.children.contains(c));
            assert(v.nodes[x].children.contains(c));
            let k = choose|k: int| 0 <= k < v.nodes[x].children.len() && v.nodes[x].children[k] == c;
            assert(v.nodes.contains_key(v.nodes[x].children[k]));
        }
    }
    assert forall|i: int| 0 <= i < w.zlist.len() implies w.nodes.contains_key(
        #[trigger] w.zlist[i],
    ) && !w.nodes[w.zlist[i]].hidden by {
        let c = w.zlist[i];
        assert(w.zlist.contains(c));
        assert(v.zlist.contains(c));
        let k = choose|k: int| 0 <= k < v.zlist.len() && v.zlist[k] == c;
        assert(v.nodes.contains_key(v.zlist[k]));
    }
    assert forall|x: Handle| #[trigger]
        w.nodes.contains_key(x) && !w.nodes[x].hidden implies w.zlist.contains(x) by {
        assert(v.nodes.contains_key(x));
        assert(v.zlist.contains(x));
    }
}

/// The widget a press is meant for is one of the stacking order: it exists,
/// is shown, can be clicked and has the point in its bounds.
pub proof fn lemma_hit_is_shown(v: RouterView, p: (i32, i32), n: nat)
    requires
        v.wf(),
        n <= v.zlist.len(),
    ensures
        v.hit_below(p, n) matches Some(h) ==> {
            &&& v.nodes.contains_key(h)
            &&& v.zlist.contains(h)
            &&& v.nodes[h].has(UiFlags::ClickAble)
            &&& v.nodes[h].covers(p)
        },
    decreases n,
{
    if n > 0 {
        if v.hit_at(p, n - 1) {
            assert(v.nodes.contains_key(v.zlist[n - 1]));
        } else {
            lemma_hit_is_shown(v, p, (n - 1) as nat);
        }
    }
}

/// Taking the focus keeps a state well formed.
pub proof fn lemma_set_focus_wf(v: RouterView, target: Handle)
    requires
        v.wf(),
        v.nodes.contains_key(target),
    ensures
        v.set_focus(target).state.wf(),
{
    lemma_raised_wf(v, target);
    let raised = v.raised(target);
    assert(v.node_wf(target));
    let left = match v.focused {
        Some(prev) => raised.without_flag(prev, UiFlags::IsFocused),
        None => raised,
    };
    if v.focused is Some {
        let prev = v.focused.unwrap();
        assert(raised.nodes.contains_key(prev));
        lemma_widget_change(raised, prev, raised.nodes[prev].without_flag(UiFlags::IsFocused));
    }
    assert(left.nodes.contains_key(target));
    lemma_widget_change(left, target, left.nodes[target].with_flag(UiFlags::IsFocused));
}

/// A widget other than `a` is `a` or below `a` exactly if its parent is.
pub proof fn lemma_ancestor_step(v: RouterView, a: Handle, h: Handle)
    requires
        v.wf(),
        v.nodes.contains_key(h),
    ensures
        v.is_ancestor_or_self(a, h) <==> h == a || (v.nodes[h].parent is Some
            && v.is_ancestor_or_self(a, v.nodes[h].parent.unwrap())),
        v.is_ancestor_or_self(a, h) && h != a ==> v.levels[a] < v.levels[h],
    decreases v.levels[h],
{
    assert(v.node_wf(h));
    if h != a && v.nodes[h].parent is Some {
        lemma_ancestor_step(v, a, v.nodes[h].parent.unwrap());
    }
}

/// Giving a widget a parent that is not below it keeps a state well formed.
pub proof fn lemma_reparented_wf(v: RouterView, child: Handle, parent: Option<Handle>)
    requires
        v.wf(),
        v.can_reparent(child, parent),
    ensures
        v.reparented(child, parent).wf(),
{
    let w = v.reparented(child, parent);
    assert(v.node_wf(child));
    assert(w.nodes.dom() =~= v.nodes.dom());
    lemma_hidden_kept(v, w);
    let old_parent = v.nodes[child].parent;
    assert(v.node_wf(child));
    if old_parent is Some {
        assert(v.node_wf(old_parent.unwrap()));
        lemma_without(v.nodes[old_parent.unwrap()].children, child);
    }
    if parent is Some {
        assert(v.node_wf(parent.unwrap()));
        lemma_ancestor_step(v, child, parent.unwrap());
    }
    lemma_ancestor_step(v, child, child);
    assert(w.nodes.dom() =~= v.nodes.dom());
    assert forall|x: Handle| #[trigger] w.nodes.contains_key(x) implies w.node_wf(x) by {
        assert(v.nodes.contains_key(x));
        assert(v.node_wf(x));
        lemma_ancestor_step(v, child, x);
        let m = w.nodes[x];
        let n = v.nodes[x];
        // the parent of x
        if x == child {
            assert(m.parent == parent);
            if parent is Some {
                let p = parent.unwrap();
                assert(w.nodes[p].children.last() == child);
                assert(w.nodes[p].children.contains(child));
            }
        } else {
            assert(m.parent == n.parent);
            if n.parent is Some {
                let q = n.parent.unwrap();
                assert(v.nodes[q].children.contains(x));
                assert(v.node_wf(q));
                if old_parent == Some(q) {
                    assert(without(v.nodes[q].children, child).contains(x));
                }
                if parent == Some(q) {
                    let before = if old_parent == Some(q) {
                        without(v.nodes[q].children, child)
                    } else {
                        v.nodes[q].children
                    };
                    assert(before.contains(x));
                    let k = choose|k: int| 0 <= k < before.len() && before[k] == x;
                    assert(before.push(child)[k] == x);
                }
                assert(w.nodes[q].children.contains(x));
            }
        }
        // the children of x
        assert forall|i: int| 0 <= i < m.children.len() implies w.nodes.contains_key(
            #[trigger] m.children[i],
        ) && w.nodes[m.children[i]].parent == Some(x) by {
            let c = m.children[i];
            if parent == Some(x) && i == m.children.len() - 1 {
                assert(c == child);
            } else {
                let before = if parent == Some(x) {
                    m.children.drop_last()
                } else {
                    m.children
                };
                assert(before[i] == c);
                assert(before.contains(c));
                if old_parent == Some(x) {
                    assert(before == without(n.children, child));
                    assert(n.children.contains(c) && c != child);
                } else {
                    assert(before == n.children);
                    assert(n.children.contains(c));
                    assert(c != child) by {
                        if c == child {
                            let k = choose|k: int| 0 <= k < n.children.len() && n.children[k] == c;
                            assert(v.nodes[n.children[k]].parent == Some(x));
                        }
                    }
                }
                let k = choose|k: int| 0 <= k < n.children.len() && n.children[k] == c;
                assert(v.nodes.contains_key(n.children[k]));
                assert(v.nodes[n.children[k]].parent == Some(x));
            }
        }
        // no child twice
        if parent == Some(x) {
            let before = m.children.drop_last();
            assert(m.children == before.push(child));
            assert(before.no_duplicates());
            assert(!before.contains(child)) by {
                if before.contains(child) {
                    if old_parent == Some(x) {
                    } else {
                        let k = choose|k: int| 0 <= k < n.children.len() && n.children[k] == child;
                        assert(v.nodes[n.children[k]].parent == Some(x));
                    }
                }
            }
            assert forall|i: int, j: int|
                0 <= i < m.children.len() && 0 <= j < m.children.len() && i != j implies m.children[i]
                != m.children[j] by {
                if i < before.len() {
                    assert(before.contains(before[i]));
                }
                if j < before.len() {
                    assert(before.contains(before[j]));
                }
            }
        }
    }
    assert forall|i: int| 0 <= i < w.zlist.len() implies w.nodes.contains_key(
        #[trigger] w.zlist[i],
    ) && !w.nodes[w.zlist[i]].hidden by {
        assert(v.nodes.contains_key(v.zlist[i]));
    }
    assert forall|x: Handle| #[trigger]
        w.nodes.contains_key(x) && !w.nodes[x].hidden implies w.zlist.contains(x) by {
        assert(v.nodes.contains_key(x));
    }
}

/// Removing a widget keeps a state well formed.
pub proof fn lemma_removed_wf(v: RouterView, h: Handle)
    requires
        v.wf(),
        v.nodes.contains_key(h),
    ensures
        v.removed(h).wf(),
{
    let w = v.removed(h);
    lemma_without(v.hidden, h);
    assert forall|i: int| 0 <= i < w.hidden.len() implies w.nodes.contains_key(
        #[trigger] w.hidden[i],
    ) && w.nodes[w.hidden[i]].hidden by {
        let c = w.hidden[i];
        assert(w.hidden.contains(c));
        assert(v.hidden.contains(c) && c != h);
        let k = choose|k: int| 0 <= k < v.hidden.len() && v.hidden[k] == c;
        assert(v.nodes.contains_key(v.hidden[k]));
    }
    assert forall|x: Handle| #[trigger]
        w.nodes.contains_key(x) && w.nodes[x].hidden implies w.hidden.contains(x) by {
        assert(v.nodes.contains_key(x));
        assert(v.hidden.contains(x));
    }
    assert(v.node_wf(h));
    lemma_without(v.zlist, h);
    let parent = v.nodes[h].parent;
    if parent is Some {
        assert(v.node_wf(parent.unwrap()));
        lemma_without(v.nodes[parent.unwrap()].children, h);
    }
    assert forall|x: Handle| #[trigger] w.nodes.contains_key(x) implies w.node_wf(x) by {
        assert(v.nodes.contains_key(x) && x != h);
        assert(v.node_wf(x));
        let m = w.nodes[x];
        let n = v.nodes[x];
        if m.parent is Some {
            let q = m.parent.unwrap();
            assert(n.parent == Some(q) && q != h);
            assert(v.nodes[q].children.contains(x));
            if parent == Some(q) {
                assert(without(v.nodes[q].children, h).contains(x));
            }
            assert(w.nodes[q].children.contains(x));
        }
        if parent == Some(x) {
            assert(m.children == without(n.children, h));
        } else {
            assert(m.children == n.children);
        }
        assert forall|i: int| 0 <= i < m.children.len() implies w.nodes.contains_key(
            #[trigger] m.children[i],
        ) && w.nodes[m.children[i]].parent == Some(x) by {
            let c = m.children[i];
            assert(m.children.contains(c));
            assert(n.children.contains(c));
            let k = choose|k: int| 0 <= k < n.children.len() && n.children[k] == c;
            assert(v.nodes.contains_key(n.children[k]));
            assert(v.nodes[c].parent == Some(x));
            if c == h {
                assert(parent == Some(x));
                assert(!without(n.children, h).contains(h));
            }
        }
    }
    assert forall|i: int| 0 <= i < w.zlist.len() implies w.nodes.contains_key(
        #[trigger] w.zlist[i],
    ) && !w.nodes[w.zlist[i]].hidden by {
        let c = w.zlist[i];
        assert(w.zlist.contains(c));
        assert(v.zlist.contains(c) && c != h);
        let k = choose|k: int| 0 <= k < v.zlist.len() && v.zlist[k] == c;
        assert(v.nodes.contains_key(v.zlist[k]));
    }
    assert forall|x: Handle| #[trigger]
        w.nodes.contains_key(x) && !w.nodes[x].hidden implies w.zlist.contains(x) by {
        assert(v.nodes.contains_key(x));
        assert(v.zlist.contains(x));
    }
}

/// Hiding a widget, or showing it again, keeps a state well formed.
pub proof fn lemma_hidden_wf(v: RouterView, h: Handle, hidden: bool)
    requires
        v.wf(),
        v.nodes.contains_key(h),
    ensures
        v.with_hidden(h, hidden).wf(),
{
    let w = v.with_hidden(h, hidden);
    if v.nodes[h].hidden != hidden {
        lemma_without(v.zlist, h);
        lemma_without(v.hidden, h);
        if hidden {
            assert(!v.hidden.contains(h)) by {
                if v.hidden.contains(h) {
                    let k = choose|k: int| 0 <= k < v.hidden.len() && v.hidden[k] == h;
                    assert(v.nodes.contains_key(v.hidden[k]));
                }
            }
            assert forall|i: int| 0 <= i < w.hidden.len() implies w.nodes.contains_key(
                #[trigger] w.hidden[i],
            ) && w.nodes[w.hidden[i]].hidden by {
                if i < v.hidden.len() {
                    assert(v.nodes.contains_key(v.hidden[i]));
                    assert(v.hidden.contains(v.hidden[i]));
                }
            }
            assert forall|x: Handle| #[trigger]
                w.nodes.contains_key(x) && w.nodes[x].hidden implies w.hidden.contains(x) by {
                assert(v.nodes.contains_key(x));
                if x == h {
                    assert(w.hidden[v.hidden.len() as int] == h);
                } else {
                    assert(v.hidden.contains(x));
                    let k = choose|k: int| 0 <= k < v.hidden.len() && v.hidden[k] == x;
                    assert(w.hidden[k] == x);
                }
            }
            assert forall|i: int, j: int|
                0 <= i < w.hidden.len() && 0 <= j < w.hidden.len() && i != j implies w.hidden[i]
                != w.hidden[j] by {
                if i < v.hidden.len() {
                    assert(v.hidden.contains(v.hidden[i]));
                }
                if j < v.hidden.len() {
                    assert(v.hidden.contains(v.hidden[j]));
                }
            }
        } else {
            assert forall|i: int| 0 <= i < w.hidden.len() implies w.nodes.contains_key(
                #[trigger] w.hidden[i],
            ) && w.nodes[w.hidden[i]].hidden by {
                let c = w.hidden[i];
                assert(w.hidden.contains(c));
                assert(v.hidden.contains(c) && c != h);
                let k = choose|k: int| 0 <= k < v.hidden.len() && v.hidden[k] == c;
                assert(v.nodes.contains_key(v.hidden[k]));
            }
            assert forall|x: Handle| #[trigger]
                w.nodes.contains_key(x) && w.nodes[x].hidden implies w.hidden.contains(x) by {
                assert(v.nodes.contains_key(x));
                assert(v.hidden.contains(x));
            }
        }
        assert forall|x: Handle| #[trigger] w.nodes.contains_key(x) implies w.node_wf(x) by {
            assert(v.nodes.contains_key(x));
            assert(v.node_wf(x));
            let m = w.nodes[x];
            assert(m.children == v.nodes[x].children);
            assert(m.parent == v.nodes[x].parent);
            assert forall|i: int| 0 <= i < m.children.len() implies w.nodes.contains_key(
                #[trigger] m.children[i],
            ) && w.nodes[m.children[i]].parent == Some(x) by {
                assert(v.nodes.contains_key(v.nodes[x].children[i]));
            }
        }
        if hidden {
            assert forall|i: int| 0 <= i < w.zlist.len() implies w.nodes.contains_key(
                #[trigger] w.zlist[i],
            ) && !w.nodes[w.zlist[i]].hidden by {
                let c = w.zlist[i];
                assert(w.zlist.contains(c));
                assert(v.zlist.contains(c) && c != h);
                let k = choose|k: int| 0 <= k < v.zlist.len() && v.zlist[k] == c;
                assert(v.nodes.contains_key(v.zlist[k]));
            }
            assert forall|x: Handle| #[trigger]
                w.nodes.contains_key(x) && !w.nodes[x].hidden implies w.zlist.contains(x) by {
                assert(v.nodes.contains_key(x));
                assert(v.zlist.contains(x));
            }
        } else {
            assert(!v.zlist.contains(h)) by {
                if v.zlist.contains(h) {
                    let k = choose|k: int| 0 <= k < v.zlist.len() && v.zlist[k] == h;
                    assert(v.nodes.contains_key(v.zlist[k]));
                }
            }
            assert forall|i: int| 0 <= i < w.zlist.len() implies w.nodes.contains_key(
                #[trigger] w.zlist[i],
            ) && !w.nodes[w.zlist[i]].hidden by {
                if i < v.zlist.len() {
                    assert(v.nodes.contains_key(v.zlist[i]));
                    assert(v.zlist.contains(v.zlist[i]));
                }
            }
            assert forall|x: Handle| #[trigger]
                w.nodes.contains_key(x) && !w.nodes[x].hidden implies w.zlist.contains(x) by {
                assert(v.nodes.contains_key(x));
                if x == h {
                    assert(w.zlist[v.zlist.len() as int] == h);
                } else {
                    assert(v.zlist.contains(x));
                    let k = choose|k: int| 0 <= k < v.zlist.len() && v.zlist[k] == x;
                    assert(w.zlist[k] == x);
                }
            }
            assert forall|i: int, j: int|
                0 <= i < w.zlist.len() && 0 <= j < w.zlist.len() && i != j implies w.zlist[i]
                != w.zlist[j] by {
                if i < v.zlist.len() {
                    assert(v.zlist.contains(v.zlist[i]));
                }
                if j < v.zlist.len() {
                    assert(v.zlist.contains(v.zlist[j]));
                }
            }
        }
    }
}

/// A widget's taking a press, or its parent's taking it in its place, keeps
/// a state well formed.
proof fn lemma_click_wf(v: RouterView, w: Handle)
    requires
        v.wf(),
        v.nodes.contains_key(w),
    ensures
        v.set_clicked(w).state.wf(),
        v.nodes[w].parent is Some ==> v.delegate_click(w).state.wf(),
{
    assert(v.node_wf(w));
    let inside = v.nodes[w].covers(v.mouse_clicked);
    let dragged = RouterView {
        moving: v.moving || (v.has(w, UiFlags::CanMoveWindow) && inside),
        clicked: Some(w),
        ..v
    };
    assert(dragged.wf()) by {
        assert forall|x: Handle| #[trigger] dragged.nodes.contains_key(x) implies dragged.node_wf(
            x,
        ) by {
            assert(v.node_wf(x));
        }
    }
    lemma_widget_change(dragged, w, dragged.nodes[w].with_flag(UiFlags::Moving));
    if v.nodes[w].parent is Some {
        let s = v.delegate_click(w).state;
        assert forall|x: Handle| #[trigger] s.nodes.contains_key(x) implies s.node_wf(x) by {
            assert(v.node_wf(x));
        }
    }
}

/// The nearest widget above `h` with `flag`, if there is one, exists.
proof fn lemma_first_ancestor_exists(v: RouterView, h: Handle, flag: UiFlags)
    requires
        v.wf(),
        v.nodes.contains_key(h),
    ensures
        v.first_ancestor_with(h, flag) matches Some(a) ==> v.nodes.contains_key(a),
        v.first_ancestor_with(h, flag) is Some || v.any_ancestor_has(h, flag)
            ==> v.nodes[h].parent is Some,
    decreases v.levels[h],
{
    assert(v.node_wf(h));
    if v.nodes[h].parent is Some {
        lemma_first_ancestor_exists(v, v.nodes[h].parent.unwrap(), flag);
    }
}

/// Every event leaves a well-formed state well formed: after a button went
/// down or up, after the pointer moved and after the modifier keys changed,
/// parent and children still agree, no widget is above itself, and the
/// stacking order still holds each shown widget once.
pub proof fn law_events_keep_wf(v: RouterView, event: SystemEvent)
    requires
        v.wf(),
    ensures
        v.handle(event).state.wf(),
{
    match event {
        SystemEvent::MouseButton { button, pressed } => {
            let noted = RouterView { button, mouse_clicked: v.mouse_pos, ..v };
            assert(noted.wf()) by {
                assert forall|x: Handle| #[trigger] noted.nodes.contains_key(x) implies noted.node_wf(
                    x,
                ) by {
                    assert(v.node_wf(x));
                }
            }
            lemma_hit_is_shown(noted, noted.mouse_clicked, noted.zlist.len());
            if pressed {
                if noted.hit_test(noted.mouse_clicked) is Some {
                    let target = noted.hit_test(noted.mouse_clicked).unwrap();
                    lemma_press_wf(noted, target);
                }
            } else {
                lemma_release_wf(noted);
            }
        },
        SystemEvent::MouseMoved { position, screensize } => {
            let p = (position[0], position[1]);
            let size = (screensize[0], screensize[1]);
            let handled = if v.moving {
                v
            } else if v.dragging_widget() {
                v.drag(v.focused.unwrap(), p, size).state
            } else {
                v.hover(p).state
            };
            assert(handled.wf()) by {
                if v.moving {
                } else if v.dragging_widget() {
                    let h = v.focused.unwrap();
                    if v.drag_accepted(h, p, size) {
                        lemma_widget_change(v, h, v.drag(h, p, size).state.nodes[h]);
                    }
                } else {
                    lemma_hover_wf(v, p);
                }
            }
            let s = v.handle(event).state;
            assert forall|x: Handle| #[trigger] s.nodes.contains_key(x) implies s.node_wf(x) by {
                assert(handled.node_wf(x));
            }
        },
        SystemEvent::Modifiers { modifiers } => {
            let s = v.handle(event).state;
            assert forall|x: Handle| #[trigger] s.nodes.contains_key(x) implies s.node_wf(x) by {
                assert(v.node_wf(x));
            }
        },
    }
}

proof fn lemma_press_wf(v: RouterView, target: Handle)
    requires
        v.wf(),
        v.nodes.contains_key(target),
    ensures
        v.press_on(target).state.wf(),
{
    if v.has(target, UiFlags::CanFocus) {
        if v.focused != Some(target) {
            lemma_set_focus_wf(v, target);
            let focus = v.set_focus(target).state;
            assert(focus.nodes.contains_key(target));
            lemma_click_wf(focus, target);
        } else {
            lemma_click_wf(v, target);
        }
    } else {
        lemma_first_ancestor_exists(v, target, UiFlags::CanFocus);
        lemma_first_ancestor_exists(v, target, UiFlags::AlwaysUseable);
        match v.permission(target) {
            Permission::Denied => {},
            Permission::Ancestor(a) => {
                lemma_click_wf(v, a);
            },
            Permission::Target => {
                lemma_click_wf(v, target);
            },
        }
    }
}

proof fn lemma_release_wf(v: RouterView)
    requires
        v.wf(),
    ensures
        v.mouse_release().state.wf(),
{
    let s = v.mouse_release().state;
    lemma_hidden_kept(v, s);
    assert(s.nodes.dom() =~= v.nodes.dom());
    assert forall|x: Handle| #[trigger] s.nodes.contains_key(x) implies s.node_wf(x) by {
        assert(v.nodes.contains_key(x));
        assert(v.node_wf(x));
        let m = s.nodes[x];
        assert(m.children == v.nodes[x].children);
        assert forall|i: int| 0 <= i < m.children.len() implies s.nodes.contains_key(
            #[trigger] m.children[i],
        ) && s.nodes[m.children[i]].parent == Some(x) by {
            assert(v.nodes.contains_key(v.nodes[x].children[i]));
        }
    }
    assert forall|i: int| 0 <= i < s.zlist.len() implies s.nodes.contains_key(
        #[trigger] s.zlist[i],
    ) && !s.nodes[s.zlist[i]].hidden by {
        assert(v.nodes.contains_key(v.zlist[i]));
    }
    assert forall|x: Handle| #[trigger]
        s.nodes.contains_key(x) && !s.nodes[x].hidden implies s.zlist.contains(x) by {
        assert(v.nodes.contains_key(x));
    }
}

proof fn lemma_hover_wf(v: RouterView, p: (i32, i32))
    requires
        v.wf(),
    ensures
        v.hover(p).state.wf(),
{
    lemma_hit_is_shown(v, p, v.zlist.len());
    let hit = v.hit_test(p);
    if hit != v.over {
        let left = match v.over {
            Some(prev) => v.without_flag(prev, UiFlags::MouseOver),
            None => v,
        };
        if v.over is Some {
            let prev = v.over.unwrap();
            lemma_widget_change(v, prev, v.nodes[prev].without_flag(UiFlags::MouseOver));
        }
        let entered = match hit {
            Some(now) => left.with_flag(now, UiFlags::MouseOver),
            None => left,
        };
        if hit is Some {
            let now = hit.unwrap();
            assert(left.nodes.contains_key(now));
            lemma_widget_change(left, now, left.nodes[now].with_flag(UiFlags::MouseOver));
        }
        let s = v.hover(p).state;
        assert forall|x: Handle| #[trigger] s.nodes.contains_key(x) implies s.node_wf(x) by {
            assert(entered.node_wf(x));
        }
    }
}

/// Every command leaves a well-formed state well formed, whether it can be
/// carried out or not; and so does every list of commands.
pub proof fn law_commands_keep_wf(v: RouterView, commands: Seq<Command>)
    requires
        v.wf(),
    ensures
        v.apply_commands(commands).state.wf(),
        commands.len() > 0 ==> v.apply_command(commands[0]).state.wf(),
    decreases commands.len(),
{
    if commands.len() > 0 {
        law_commands_keep_wf(v, commands.drop_last());
        lemma_command_wf(v.apply_commands(commands.drop_last()).state, commands.last());
        lemma_command_wf(v, commands[0]);
    }
}

proof fn lemma_command_wf(v: RouterView, command: Command)
    requires
        v.wf(),
    ensures
        v.apply_command(command).state.wf(),
{
    match command {
        Command::SetParent { child, parent } => {
            if v.can_reparent(child, parent) {
                lemma_reparented_wf(v, child, parent);
            }
        },
        Command::Focus(h) => {
            if v.nodes.contains_key(h) {
                lemma_set_focus_wf(v, h);
            }
        },
        Command::Remove(h) => {
            if v.nodes.contains_key(h) {
                lemma_removed_wf(v, h);
            }
        },
        Command::Raise(h) => {
            if v.nodes.contains_key(h) {
                lemma_raised_wf(v, h);
            }
        },
    }
}

/// Storing a widget under a handle that names none, and is not the handle
/// that stands for "no widget", keeps a state well formed.
pub proof fn lemma_inserted_wf(v: RouterView, h: Handle, widget: crate::widget::WidgetView)
    requires
        v.wf(),
        !v.nodes.contains_key(h),
        h != Handle::dangling(),
    ensures
        v.inserted(h, widget).wf(),
{
    let w = v.inserted(h, widget);
    lemma_hidden_kept(v, w);
    assert forall|x: Handle| #[trigger] w.nodes.contains_key(x) implies w.node_wf(x) by {
        if x != h {
            assert(v.nodes.contains_key(x));
            assert(v.node_wf(x));
            let m = w.nodes[x];
            assert forall|i: int| 0 <= i < m.children.len() implies w.nodes.contains_key(
                #[trigger] m.children[i],
            ) && w.nodes[m.children[i]].parent == Some(x) by {
                assert(v.nodes.contains_key(v.nodes[x].children[i]));
            }
        }
    }
    assert forall|i: int| 0 <= i < w.zlist.len() implies w.nodes.contains_key(
        #[trigger] w.zlist[i],
    ) && !w.nodes[w.zlist[i]].hidden by {
        if i < v.zlist.len() {
            assert(v.nodes.contains_key(v.zlist[i]));
        }
    }
    assert forall|x: Handle| #[trigger]
        w.nodes.contains_key(x) && !w.nodes[x].hidden implies w.zlist.contains(x) by {
        if x != h {
            assert(v.zlist.contains(x));
            let k = choose|k: int| 0 <= k < v.zlist.len() && v.zlist[k] == x;
            assert(w.zlist[k] == x);
        } else {
            assert(w.zlist[v.zlist.len() as int] == x);
        }
    }
    assert forall|i: int, j: int|
        0 <= i < w.zlist.len() && 0 <= j < w.zlist.len() && i != j implies w.zlist[i]
        != w.zlist[j] by {
        if i < v.zlist.len() {
            assert(v.nodes.contains_key(v.zlist[i]));
        }
        if j < v.zlist.len() {
            assert(v.nodes.contains_key(v.zlist[j]));
        }
    }
}

} // verus!
