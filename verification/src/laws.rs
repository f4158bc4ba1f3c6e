//! What holds of the router in every state.

use crate::events::{CallBack, CallBackEvent, Command, Dispatch, MouseButton};
use crate::flags::UiFlags;
use crate::graph::{lemma_ancestor_step, lemma_hit_is_shown, lemma_raised_wf, lemma_set_focus_wf};
use crate::handle::Handle;
use crate::model::{lemma_to_back, position_changes, Permission, RouterView};
use crate::widget::WidgetView;
use vstd::prelude::*;

verus! {

/// The widget that has the focus, and no other, carries `IsFocused`.
pub open spec fn focus_marked(v: RouterView) -> bool {
    forall|h: Handle| #[trigger]
        v.nodes.contains_key(h) ==> (v.has(h, UiFlags::IsFocused) <==> v.focused == Some(h))
}

/// Whether `due` holds a callback of the kind `callback` for the widget `h`.
pub open spec fn receives(due: Seq<Dispatch>, h: Handle, callback: CallBack) -> bool {
    exists|i: int|
        0 <= i < due.len() && (#[trigger] due[i]).target == h && due[i].event.callback()
            == callback
}

/// Raising the widget that is the topmost already, and the last child of its
/// parent if it has one, changes nothing: neither the stacking order nor the
/// order of any widget's children.
pub proof fn law_raise_topmost_is_identity(v: RouterView, h: Handle)
    requires
        v.wf(),
        v.nodes.contains_key(h),
        v.zlist.len() > 0 && v.zlist.last() == h,
        v.nodes[h].parent is Some ==> v.nodes[v.nodes[h].parent.unwrap()].children.last() == h,
    ensures
        v.raised(h) == v,
{
    lemma_to_back(v.zlist, h);
    assert(v.node_wf(h));
    if v.nodes[h].parent is Some {
        let p = v.nodes[h].parent.unwrap();
        assert(v.node_wf(p));
        lemma_to_back(v.nodes[p].children, h);
        assert(v.raised_nodes(h) =~= v.nodes);
    }
}

/// Raising a widget twice is raising it once; and a raise moves no other
/// widget past another, neither in the stacking order nor among the
/// children of the raised widget's parent.
pub proof fn law_raise_idempotent(v: RouterView, h: Handle)
    requires
        v.wf(),
        v.nodes.contains_key(h),
    ensures
        v.raised(h).raised(h) == v.raised(h),
        v.raised(h).zlist.no_duplicates(),
        v.raised(h).zlist.len() == v.zlist.len(),
        forall|x: Handle| #[trigger] v.raised(h).zlist.contains(x) <==> v.zlist.contains(x),
{
    let w = v.raised(h);
    lemma_raised_wf(v, h);
    lemma_to_back(v.zlist, h);
    assert(v.node_wf(h));
    assert(w.nodes[h].parent == v.nodes[h].parent);
    if v.zlist.contains(h) {
        lemma_to_back(w.zlist, h);
    } else {
        assert(w.zlist == v.zlist);
    }
    if v.nodes[h].parent is Some {
        let p = v.nodes[h].parent.unwrap();
        assert(v.node_wf(p));
        lemma_to_back(v.nodes[p].children, h);
        lemma_to_back(w.nodes[p].children, h);
        assert(w.raised_nodes(h) =~= w.nodes);
    }
}

/// Of two shown widgets that can be clicked and have the point in their
/// bounds, the one that comes earlier in the stacking order is never the one
/// an event at that point is meant for: that is a widget at the place of the
/// later one, or above it.
pub proof fn law_topmost_wins(v: RouterView, p: (i32, i32), lower: int, upper: int)
    requires
        v.wf(),
        0 <= lower < upper < v.zlist.len(),
        v.hit_at(p, lower),
        v.hit_at(p, upper),
    ensures
        v.hit_test(p) is Some,
        v.hit_test(p) != Some(v.zlist[lower]),
        exists|k: int|
            upper <= k < v.zlist.len() && v.hit_test(p) == Some(#[trigger] v.zlist[k])
                && v.hit_at(p, k) && forall|j: int|
                k < j < v.zlist.len() ==> !#[trigger] v.hit_at(p, j),
{
    lemma_hit_below(v, p, v.zlist.len(), upper);
    let k = choose|k: int|
        upper <= k < v.zlist.len() && v.hit_below(p, v.zlist.len()) == Some(#[trigger] v.zlist[k])
            && v.hit_at(p, k) && forall|j: int| k < j < v.zlist.len() ==> !v.hit_at(p, j);
    assert(v.zlist[k] != v.zlist[lower]);
}

proof fn lemma_hit_below(v: RouterView, p: (i32, i32), n: nat, upper: int)
    requires
        0 <= upper < n <= v.zlist.len(),
        v.hit_at(p, upper),
    ensures
        exists|k: int|
            upper <= k < n && v.hit_below(p, n) == Some(#[trigger] v.zlist[k]) && v.hit_at(p, k)
                && forall|j: int| k < j < n ==> !v.hit_at(p, j),
    decreases n,
{
    if v.hit_at(p, n - 1) {
        assert(v.hit_below(p, n) == Some(v.zlist[n - 1]));
    } else {
        lemma_hit_below(v, p, (n - 1) as nat, upper);
        let k = choose|k: int|
            upper <= k < n - 1 && v.hit_below(p, (n - 1) as nat) == Some(#[trigger] v.zlist[k])
                && v.hit_at(p, k) && forall|j: int| k < j < n - 1 ==> !v.hit_at(p, j);
        assert(v.hit_below(p, n) == Some(v.zlist[k]));
    }
}

/// The widget an event is meant for, if there is one, is shown, can be
/// clicked and has the point in its bounds; and if there is none, no shown
/// widget is such.
pub proof fn law_hit_test(v: RouterView, p: (i32, i32))
    requires
        v.wf(),
    ensures
        v.hit_test(p) matches Some(h) ==> v.zlist.contains(h) && v.has(h, UiFlags::ClickAble)
            && v.nodes[h].covers(p),
        v.hit_test(p) is None ==> forall|i: int|
            0 <= i < v.zlist.len() ==> !#[trigger] v.hit_at(p, i),
{
    lemma_hit_is_shown(v, p, v.zlist.len());
    if v.hit_test(p) is None {
        assert forall|i: int| 0 <= i < v.zlist.len() implies !v.hit_at(p, i) by {
            if v.hit_at(p, i) {
                lemma_hit_below(v, p, v.zlist.len(), i);
            }
        }
    }
}

/// A release is a callback for the widget it is meant for and for no other:
/// of two widgets under the pointer, the one that comes earlier in the
/// stacking order receives none.
pub proof fn law_release_topmost_only(v: RouterView, lower: int, upper: int)
    requires
        v.wf(),
        0 <= lower < upper < v.zlist.len(),
        v.hit_at(v.mouse_clicked, lower),
        v.hit_at(v.mouse_clicked, upper),
    ensures
        v.mouse_release().due.len() == 1,
        Some(v.mouse_release().due[0].target) == v.hit_test(v.mouse_clicked),
        !receives(v.mouse_release().due, v.zlist[lower], CallBack::MousePress),
{
    law_topmost_wins(v, v.mouse_clicked, lower, upper);
}

/// A press is a `MousePress` for the widget that takes it and for no other:
/// of two widgets under the pointer, the one that comes earlier in the
/// stacking order receives none, unless it is the one that takes the press
/// of the topmost in its place; and the topmost receives one if it takes its
/// press itself.
pub proof fn law_press_topmost_only(v: RouterView, lower: int, upper: int)
    requires
        v.wf(),
        0 <= lower < upper < v.zlist.len(),
        v.hit_at(v.mouse_clicked, lower),
        v.hit_at(v.mouse_clicked, upper),
        v.press_taker(v.hit_test(v.mouse_clicked).unwrap()) != Some(v.zlist[lower]),
    ensures
        !receives(v.mouse_press().due, v.zlist[lower], CallBack::MousePress),
        v.press_taker(v.hit_test(v.mouse_clicked).unwrap()) == v.hit_test(v.mouse_clicked)
            ==> receives(
            v.mouse_press().due,
            v.hit_test(v.mouse_clicked).unwrap(),
            CallBack::MousePress,
        ),
{
    law_topmost_wins(v, v.mouse_clicked, lower, upper);
    lemma_hit_is_shown(v, v.mouse_clicked, v.zlist.len());
    let target = v.hit_test(v.mouse_clicked).unwrap();
    law_press_taker(v, target);
}

/// The `MousePress` that a press on `target` makes due is for the widget
/// that takes the press, and it is the last of what is due: there is one if
/// somebody takes the press, and none if nobody does.
pub proof fn law_press_taker(v: RouterView, target: Handle)
    requires
        v.wf(),
        v.nodes.contains_key(target),
    ensures
        forall|h: Handle| #[trigger]
            receives(v.press_on(target).due, h, CallBack::MousePress) <==> v.press_taker(target)
                == Some(h),
        v.press_taker(target) matches Some(h) ==> v.press_on(target).due.len() > 0
            && v.press_on(target).due.last() == v.press_of(h, true) && v.nodes.contains_key(h)
            && v.is_ancestor_or_self(h, target),
        v.press_taker(target) is None ==> v.press_on(target).due.len() == 0
            && v.press_on(target).state == v,
{
    let due = v.press_on(target).due;
    law_press_goes_up(v, target);
    lemma_first_ancestor(v, target, UiFlags::CanFocus);
    lemma_first_ancestor(v, target, UiFlags::AlwaysUseable);
    lemma_ancestor_step(v, target, target);
    assert(v.node_wf(target));
    if v.nodes[target].parent is Some {
        let p = v.nodes[target].parent.unwrap();
        lemma_ancestor_step(v, p, target);
        lemma_ancestor_step(v, p, p);
    }
    assert forall|h: Handle| receives(due, h, CallBack::MousePress) <==> v.press_taker(target)
        == Some(h) by {
        if receives(due, h, CallBack::MousePress) {
            let i = choose|i: int|
                0 <= i < due.len() && (#[trigger] due[i]).target == h && due[i].event.callback()
                    == CallBack::MousePress;
        }
        if v.press_taker(target) == Some(h) {
            assert(due.len() > 0);
            assert(due[due.len() - 1].target == h);
            assert(due[due.len() - 1].event.callback() == CallBack::MousePress);
        }
    }
}

/// The nearest widget above `h` with `flag` is above `h`.
pub proof fn lemma_first_ancestor(v: RouterView, h: Handle, flag: UiFlags)
    requires
        v.wf(),
        v.nodes.contains_key(h),
    ensures
        v.first_ancestor_with(h, flag) matches Some(a) ==> v.nodes.contains_key(a)
            && v.is_ancestor_or_self(a, h) && a != h && v.has(a, flag),
        v.any_ancestor_has(h, flag) <==> v.first_ancestor_with(h, flag) is Some,
        v.first_ancestor_with(h, flag) is Some ==> v.nodes[h].parent is Some,
    decreases v.levels[h],
{
    assert(v.node_wf(h));
    if v.nodes[h].parent is Some {
        let p = v.nodes[h].parent.unwrap();
        lemma_first_ancestor(v, p, flag);
        if v.first_ancestor_with(h, flag) is Some {
            let a = v.first_ancestor_with(h, flag).unwrap();
            lemma_ancestor_step(v, a, h);
            lemma_ancestor_step(v, a, p);
        }
    }
}

/// Every `MousePress` that a press on `target` makes due is for `target` or
/// for a widget above it in the tree, and there is one at most.
pub proof fn law_press_goes_up(v: RouterView, target: Handle)
    requires
        v.wf(),
        v.nodes.contains_key(target),
    ensures
        forall|h: Handle| #[trigger]
            receives(v.press_on(target).due, h, CallBack::MousePress) ==> v.is_ancestor_or_self(
                h,
                target,
            ),
        forall|i: int, j: int|
            0 <= i < j < v.press_on(target).due.len() ==> !(v.press_on(target).due[i].event.callback()
                == CallBack::MousePress && v.press_on(target).due[j].event.callback()
                == CallBack::MousePress),
{
    let due = v.press_on(target).due;
    lemma_first_ancestor(v, target, UiFlags::CanFocus);
    lemma_ancestor_step(v, target, target);
    assert(v.node_wf(target));
    if v.nodes[target].parent is Some {
        let p = v.nodes[target].parent.unwrap();
        lemma_ancestor_step(v, p, target);
        lemma_ancestor_step(v, p, p);
    }
    assert forall|h: Handle| receives(due, h, CallBack::MousePress) implies v.is_ancestor_or_self(
        h,
        target,
    ) by {
        let i = choose|i: int|
            0 <= i < due.len() && (#[trigger] due[i]).target == h && due[i].event.callback()
                == CallBack::MousePress;
    }
}

/// A press that is meant for a widget which cannot take the focus and lets
/// clicks go through to what is behind it goes to that widget's parent, if
/// the press is permitted and no other widget above takes it: the parent's
/// press callback is due and nothing else, none for the widget itself; and
/// the window's drag begins if the parent moves the window and the press
/// lies in the parent's bounds.
pub proof fn law_delegated_click(v: RouterView, w: Handle)
    requires
        v.wf(),
        v.hit_test(v.mouse_clicked) == Some(w),
        !v.has(w, UiFlags::CanFocus),
        v.has(w, UiFlags::CanClickBehind),
        v.permission(w) == Permission::Target || (v.nodes[w].parent matches Some(p)
            && v.permission(w) == Permission::Ancestor(p)),
    ensures
        v.nodes[w].parent is Some,
        v.press_taker(w) == v.nodes[w].parent,
        v.mouse_press().due == seq![v.press_of(v.nodes[w].parent.unwrap(), true)],
        !receives(v.mouse_press().due, w, CallBack::MousePress),
        v.has(v.nodes[w].parent.unwrap(), UiFlags::CanMoveWindow) && v.nodes[v.nodes[w].parent.unwrap()].covers(
            v.mouse_clicked,
        ) ==> v.mouse_press().state.moving,
        v.mouse_press().state.clicked == v.nodes[w].parent,
{
    lemma_hit_is_shown(v, v.mouse_clicked, v.zlist.len());
    lemma_first_ancestor(v, w, UiFlags::CanFocus);
    lemma_first_ancestor(v, w, UiFlags::AlwaysUseable);
    assert(v.node_wf(w));
    let p = v.nodes[w].parent.unwrap();
    let due = v.mouse_press().due;
    assert(due =~= seq![v.press_of(p, true)]);
    if receives(due, w, CallBack::MousePress) {
        let i = choose|i: int|
            0 <= i < due.len() && (#[trigger] due[i]).target == w && due[i].event.callback()
                == CallBack::MousePress;
        assert(due[0].target == p);
    }
}

/// Giving the focus to a widget while another has it tells the other that
/// it lost the focus before it tells the widget that it has it, and tells
/// nobody else anything.
pub proof fn law_focus_order(v: RouterView, a: Handle, b: Handle)
    requires
        v.wf(),
        v.focused == Some(a),
        v.nodes.contains_key(b),
        a != b,
    ensures
        v.set_focus(b).due == seq![RouterView::focus_of(a, false), RouterView::focus_of(b, true)],
        v.set_focus(b).state.focused == Some(b),
        v.has(b, UiFlags::CanFocus) ==> v.press_on(b).due.len() == 3 && v.press_on(b).due[0]
            == RouterView::focus_of(a, false) && v.press_on(b).due[1] == RouterView::focus_of(
            b,
            true,
        ) && v.press_on(b).due[2] == v.press_of(b, true),
        v.has(b, UiFlags::CanFocus) ==> v.manual_focus(b).due == v.set_focus(b).due,
{
}

/// If the widget that has the focus, and no other, carries `IsFocused`, the
/// same holds after a widget took the focus.
pub proof fn law_set_focus_exclusive(v: RouterView, target: Handle)
    requires
        v.wf(),
        focus_marked(v),
        v.nodes.contains_key(target),
    ensures
        focus_marked(v.set_focus(target).state),
        v.set_focus(target).state.focused == Some(target),
{
    let w = v.set_focus(target).state;
    assert(v.node_wf(target));
    assert forall|h: Handle| #[trigger] w.nodes.contains_key(h) implies (w.has(
        h,
        UiFlags::IsFocused,
    ) <==> w.focused == Some(h)) by {
        assert(v.nodes.contains_key(h));
    }
}

/// At most one widget is focused at any time: if the widget that has the
/// focus, and no other, carries `IsFocused`, the same holds after a button
/// went down or up, after the pointer moved, and after a widget was given
/// the focus without a press.
pub proof fn law_focus_exclusive(
    v: RouterView,
    button: MouseButton,
    pressed: bool,
    p: (i32, i32),
    screensize: (i32, i32),
    h: Handle,
)
    requires
        v.wf(),
        focus_marked(v),
        v.nodes.contains_key(h),
    ensures
        focus_marked(v.mouse_button(button, pressed).state),
        focus_marked(v.mouse_position(p, screensize).state),
        focus_marked(v.manual_focus(h).state),
        forall|a: Handle, b: Handle|
            #![trigger v.has(a, UiFlags::IsFocused), v.has(b, UiFlags::IsFocused)]
            v.nodes.contains_key(a) && v.nodes.contains_key(b) && v.has(a, UiFlags::IsFocused)
                && v.has(b, UiFlags::IsFocused) ==> a == b,
{
    lemma_button_focus(v, button, pressed);
    lemma_position_focus(v, p, screensize);
    if v.has(h, UiFlags::CanFocus) && v.focused != Some(h) {
        law_set_focus_exclusive(v, h);
    }
}

proof fn lemma_clicked_focus(v: RouterView, w: Handle)
    requires
        v.wf(),
        focus_marked(v),
        v.nodes.contains_key(w),
    ensures
        focus_marked(v.set_clicked(w).state),
{
    let s = v.set_clicked(w).state;
    assert forall|h: Handle| #[trigger] s.nodes.contains_key(h) implies (s.has(
        h,
        UiFlags::IsFocused,
    ) <==> s.focused == Some(h)) by {
        assert(v.nodes.contains_key(h));
    }
}

/// A button that went down or up leaves the focus with the widget that is
/// marked as having it.
pub proof fn lemma_button_focus(v: RouterView, button: MouseButton, pressed: bool)
    requires
        v.wf(),
        focus_marked(v),
    ensures
        focus_marked(v.mouse_button(button, pressed).state),
{
    let noted = RouterView { button, mouse_clicked: v.mouse_pos, ..v };
    assert(noted.wf());
    assert(focus_marked(noted)) by {
        assert forall|h: Handle| #[trigger] noted.nodes.contains_key(h) implies (noted.has(
            h,
            UiFlags::IsFocused,
        ) <==> noted.focused == Some(h)) by {
            assert(v.nodes.contains_key(h));
        }
    }
    if pressed {
        match noted.hit_test(noted.mouse_clicked) {
            Some(target) => {
                lemma_hit_is_shown(noted, noted.mouse_clicked, noted.zlist.len());
                if noted.has(target, UiFlags::CanFocus) {
                    if noted.focused != Some(target) {
                        law_set_focus_exclusive(noted, target);
                        lemma_set_focus_wf(noted, target);
                        lemma_clicked_focus(noted.set_focus(target).state, target);
                    } else {
                        lemma_clicked_focus(noted, target);
                    }
                } else {
                    lemma_first_ancestor(noted, target, UiFlags::CanFocus);
                    match noted.permission(target) {
                        Permission::Denied => {},
                        Permission::Ancestor(a) => {
                            lemma_clicked_focus(noted, a);
                        },
                        Permission::Target => {
                            if noted.has(target, UiFlags::CanClickBehind) {
                            } else {
                                lemma_clicked_focus(noted, target);
                            }
                        },
                    }
                }
            },
            None => {},
        }
    } else {
        let s = noted.mouse_release().state;
        assert forall|h: Handle| #[trigger] s.nodes.contains_key(h) implies (s.has(
            h,
            UiFlags::IsFocused,
        ) <==> s.focused == Some(h)) by {
            assert(noted.nodes.contains_key(h));
        }
    }
}

/// A move of the pointer leaves the focus with the widget that is marked as
/// having it.
pub proof fn lemma_position_focus(v: RouterView, p: (i32, i32), screensize: (i32, i32))
    requires
        v.wf(),
        focus_marked(v),
    ensures
        focus_marked(v.mouse_position(p, screensize).state),
{
    let s = v.mouse_position(p, screensize).state;
    lemma_hit_is_shown(v, p, v.zlist.len());
    assert forall|h: Handle| #[trigger] s.nodes.contains_key(h) implies (s.has(
        h,
        UiFlags::IsFocused,
    ) <==> s.focused == Some(h)) by {
        assert(v.nodes.contains_key(h));
    }
}

// ----- the tree and the stacking order -----

/// In a well-formed state parent and children agree, and no widget is above
/// itself: a widget with a parent is among that parent's children, each of
/// its children has it as its parent, and its parent is neither the widget
/// itself nor below it. The handle that stands for "no widget" names none.
pub proof fn law_tree(v: RouterView, h: Handle)
    requires
        v.wf(),
        v.nodes.contains_key(h),
    ensures
        h != Handle::dangling(),
        v.nodes[h].id == h,
        v.nodes[h].parent matches Some(p) ==> v.nodes.contains_key(p)
            && v.nodes[p].children.contains(h) && p != h && !v.is_ancestor_or_self(h, p),
        v.nodes[h].children.no_duplicates(),
        forall|i: int|
            0 <= i < v.nodes[h].children.len() ==> v.nodes.contains_key(
                #[trigger] v.nodes[h].children[i],
            ) && v.nodes[v.nodes[h].children[i]].parent == Some(h),
{
    assert(v.node_wf(h));
    if v.nodes[h].parent is Some {
        let p = v.nodes[h].parent.unwrap();
        lemma_ancestor_step(v, h, p);
    }
}

/// In a well-formed state the stacking order holds every shown widget
/// exactly once, and no hidden one; and the list of the hidden widgets holds
/// every hidden widget exactly once, and no shown one.
pub proof fn law_stacking_order(v: RouterView, h: Handle)
    requires
        v.wf(),
        v.nodes.contains_key(h),
    ensures
        v.zlist.no_duplicates(),
        v.zlist.contains(h) <==> !v.nodes[h].hidden,
        forall|i: int| 0 <= i < v.zlist.len() ==> v.nodes.contains_key(#[trigger] v.zlist[i]),
        v.hidden.no_duplicates(),
        v.hidden.contains(h) <==> v.nodes[h].hidden,
        forall|i: int| 0 <= i < v.hidden.len() ==> v.nodes.contains_key(#[trigger] v.hidden[i]),
{
    if v.zlist.contains(h) {
        let i = choose|i: int| 0 <= i < v.zlist.len() && v.zlist[i] == h;
        assert(v.nodes.contains_key(v.zlist[i]));
    }
    if v.hidden.contains(h) {
        let i = choose|i: int| 0 <= i < v.hidden.len() && v.hidden[i] == h;
        assert(v.nodes.contains_key(v.hidden[i]));
    }
}

/// After a release no widget is moving any more, whether it is shown or
/// hidden and whether or not a widget lies under the pointer; every widget
/// is still there, and nothing else of any widget has changed.
pub proof fn law_release_settles(v: RouterView, h: Handle)
    requires
        v.wf(),
        v.nodes.contains_key(h),
    ensures
        v.mouse_release().state.nodes.contains_key(h),
        !v.mouse_release().state.has(h, UiFlags::Moving),
        v.mouse_release().state.nodes[h] == v.nodes[h].without_flag(UiFlags::Moving),
        v.mouse_release().state.nodes.dom() == v.nodes.dom(),
        !v.mouse_button(v.button, false).state.has(h, UiFlags::Moving),
{
    assert(v.mouse_release().state.nodes.dom() =~= v.nodes.dom());
    let noted = RouterView { button: v.button, mouse_clicked: v.mouse_pos, ..v };
    assert(noted.nodes.contains_key(h));
}

/// The changes of the tree leave the focus with the widget that has it: if
/// the widget that has the focus, and no other, carries `IsFocused`, the
/// same holds after a widget was raised, given a parent, hidden, shown or
/// removed, after a widget that does not carry `IsFocused` was stored, and
/// after a command was carried out.
pub proof fn law_focus_exclusive_tree(
    v: RouterView,
    h: Handle,
    parent: Option<Handle>,
    hidden: bool,
    fresh: Handle,
    widget: WidgetView,
    command: Command,
)
    requires
        v.wf(),
        focus_marked(v),
        v.nodes.contains_key(h),
        !v.nodes.contains_key(fresh),
        !widget.actions.contains(UiFlags::IsFocused),
    ensures
        focus_marked(v.raised(h)),
        v.can_reparent(h, parent) ==> focus_marked(v.reparented(h, parent)),
        focus_marked(v.with_hidden(h, hidden)),
        focus_marked(v.removed(h)),
        focus_marked(v.inserted(fresh, widget)),
        focus_marked(v.apply_command(command).state),
{
    lemma_tree_ops_focus(v, h, parent, hidden);
    let s = v.inserted(fresh, widget);
    assert forall|x: Handle| #[trigger] s.nodes.contains_key(x) implies (s.has(
        x,
        UiFlags::IsFocused,
    ) <==> s.focused == Some(x)) by {
        if x != fresh {
            assert(v.nodes.contains_key(x));
        }
    }
    match command {
        Command::SetParent { child, parent } => {
            if v.can_reparent(child, parent) {
                lemma_tree_ops_focus(v, child, parent, hidden);
            }
        },
        Command::Focus(f) => {
            if v.nodes.contains_key(f) && v.has(f, UiFlags::CanFocus) && v.focused != Some(f) {
                law_set_focus_exclusive(v, f);
            }
        },
        Command::Remove(r) => {
            if v.nodes.contains_key(r) {
                lemma_tree_ops_focus(v, r, parent, hidden);
            }
        },
        Command::Raise(r) => {
            if v.nodes.contains_key(r) {
                lemma_tree_ops_focus(v, r, parent, hidden);
            }
        },
    }
}

proof fn lemma_tree_ops_focus(v: RouterView, h: Handle, parent: Option<Handle>, hidden: bool)
    requires
        v.wf(),
        focus_marked(v),
        v.nodes.contains_key(h),
    ensures
        focus_marked(v.raised(h)),
        v.can_reparent(h, parent) ==> focus_marked(v.reparented(h, parent)),
        focus_marked(v.with_hidden(h, hidden)),
        focus_marked(v.removed(h)),
{
    assert(v.node_wf(h));
    let r = v.raised(h);
    assert forall|x: Handle| #[trigger] r.nodes.contains_key(x) implies (r.has(
        x,
        UiFlags::IsFocused,
    ) <==> r.focused == Some(x)) by {
        assert(v.nodes.contains_key(x));
    }
    if v.can_reparent(h, parent) {
        let s = v.reparented(h, parent);
        assert forall|x: Handle| #[trigger] s.nodes.contains_key(x) implies (s.has(
            x,
            UiFlags::IsFocused,
        ) <==> s.focused == Some(x)) by {
            assert(v.nodes.contains_key(x));
        }
    }
    let s = v.with_hidden(h, hidden);
    assert forall|x: Handle| #[trigger] s.nodes.contains_key(x) implies (s.has(
        x,
        UiFlags::IsFocused,
    ) <==> s.focused == Some(x)) by {
        assert(v.nodes.contains_key(x));
    }
    let s = v.removed(h);
    assert forall|x: Handle| #[trigger] s.nodes.contains_key(x) implies (s.has(
        x,
        UiFlags::IsFocused,
    ) <==> s.focused == Some(x)) by {
        assert(v.nodes.contains_key(x));
    }
}

/// The widget found by a name and number goes by them. It is a shown one,
/// and the topmost such, wherever a shown widget goes by them; and none is
/// found only if no widget at all goes by them.
pub proof fn law_named(v: RouterView, identity: (Seq<char>, u64))
    requires
        v.wf(),
    ensures
        v.named(identity) matches Some(h) ==> v.nodes.contains_key(h)
            && v.nodes[h].widget.identity == identity,
        v.named(identity) is None <==> forall|h: Handle| #[trigger]
            v.nodes.contains_key(h) ==> v.nodes[h].widget.identity != identity,
        forall|i: int|
            0 <= i < v.zlist.len() && (#[trigger] v.nodes[v.zlist[i]]).widget.identity == identity
                ==> exists|k: int|
                i <= k < v.zlist.len() && v.named(identity) == Some(#[trigger] v.zlist[k]),
{
    lemma_named_below(v, identity, v.zlist.len());
    lemma_hidden_named_below(v, identity, v.hidden.len());
    if v.named(identity) is None {
        assert forall|h: Handle| #[trigger] v.nodes.contains_key(h) implies v.nodes[h].widget.identity
            != identity by {
            if v.nodes[h].hidden {
                assert(v.hidden.contains(h));
                let k = choose|k: int| 0 <= k < v.hidden.len() && v.hidden[k] == h;
                assert(v.nodes[v.hidden[k]].widget.identity != identity);
            } else {
                assert(v.zlist.contains(h));
                let k = choose|k: int| 0 <= k < v.zlist.len() && v.zlist[k] == h;
                assert(v.nodes[v.zlist[k]].widget.identity != identity);
            }
        }
    }
}

proof fn lemma_hidden_named_below(v: RouterView, identity: (Seq<char>, u64), n: nat)
    requires
        v.wf(),
        n <= v.hidden.len(),
    ensures
        v.hidden_named_below(identity, n) matches Some(h) ==> v.nodes.contains_key(h)
            && v.nodes[h].widget.identity == identity,
        v.hidden_named_below(identity, n) is None ==> forall|i: int|
            0 <= i < n ==> (#[trigger] v.nodes[v.hidden[i]]).widget.identity != identity,
    decreases n,
{
    if n > 0 {
        assert(v.nodes.contains_key(v.hidden[n - 1]));
        lemma_hidden_named_below(v, identity, (n - 1) as nat);
    }
}

proof fn lemma_named_below(v: RouterView, identity: (Seq<char>, u64), n: nat)
    requires
        v.wf(),
        n <= v.zlist.len(),
    ensures
        v.named_below(identity, n) matches Some(h) ==> v.zlist.contains(h)
            && v.nodes.contains_key(h) && v.nodes[h].widget.identity == identity,
        v.named_below(identity, n) is None ==> forall|i: int|
            0 <= i < n ==> (#[trigger] v.nodes[v.zlist[i]]).widget.identity != identity,
        forall|i: int|
            0 <= i < n && (#[trigger] v.nodes[v.zlist[i]]).widget.identity == identity
                ==> exists|k: int|
                i <= k < n && v.named_below(identity, n) == Some(#[trigger] v.zlist[k]),
    decreases n,
{
    if n > 0 {
        assert(v.nodes.contains_key(v.zlist[n - 1]));
        lemma_named_below(v, identity, (n - 1) as nat);
        if v.nodes[v.zlist[n - 1]].widget.identity == identity {
            assert forall|i: int|
                0 <= i < n && (#[trigger] v.nodes[v.zlist[i]]).widget.identity
                    == identity implies exists|k: int|
                i <= k < n && v.named_below(identity, n) == Some(#[trigger] v.zlist[k]) by {
                assert(v.named_below(identity, n) == Some(v.zlist[n - 1]));
            }
        } else {
            assert forall|i: int|
                0 <= i < n && (#[trigger] v.nodes[v.zlist[i]]).widget.identity
                    == identity implies exists|k: int|
                i <= k < n && v.named_below(identity, n) == Some(#[trigger] v.zlist[k]) by {
                let k = choose|k: int|
                    i <= k < n - 1 && v.named_below(identity, (n - 1) as nat) == Some(
                        #[trigger] v.zlist[k],
                    );
                assert(v.named_below(identity, n) == Some(v.zlist[k]));
            }
        }
    }
}

// ----- the widgets below a widget -----

/// If `a` is above `b` or is `b`, and `b` is above `x` or is `x`, then `a` is
/// above `x` or is `x`.
pub proof fn lemma_ancestor_trans(v: RouterView, a: Handle, b: Handle, x: Handle)
    requires
        v.wf(),
        v.nodes.contains_key(x),
        v.is_ancestor_or_self(a, b),
        v.is_ancestor_or_self(b, x),
    ensures
        v.is_ancestor_or_self(a, x),
    decreases v.levels[x],
{
    lemma_ancestor_step(v, b, x);
    lemma_ancestor_step(v, a, x);
    assert(v.node_wf(x));
    if x != b {
        lemma_ancestor_trans(v, a, b, v.nodes[x].parent.unwrap());
    }
}

/// Of two widgets that are above `x` or are `x`, one is above the other or
/// they are the same.
pub proof fn lemma_ancestor_chain(v: RouterView, a: Handle, b: Handle, x: Handle)
    requires
        v.wf(),
        v.nodes.contains_key(x),
        v.is_ancestor_or_self(a, x),
        v.is_ancestor_or_self(b, x),
    ensures
        v.is_ancestor_or_self(a, b) || v.is_ancestor_or_self(b, a),
    decreases v.levels[x],
{
    lemma_ancestor_step(v, a, x);
    lemma_ancestor_step(v, b, x);
    assert(v.node_wf(x));
    if x != a && x != b {
        lemma_ancestor_chain(v, a, b, v.nodes[x].parent.unwrap());
    }
}

proof fn lemma_subtree_sound(v: RouterView, h: Handle)
    requires
        v.wf(),
        v.nodes.contains_key(h),
    ensures
        forall|x: Handle| #[trigger]
            v.subtree(h).contains(x) ==> v.nodes.contains_key(x) && v.is_ancestor_or_self(h, x),
        v.subtree(h)[0] == h,
        v.subtree(h).len() == 1 + v.subtrees_of(h, v.nodes[h].children.len()).len(),
    decreases v.level_bound - v.levels[h], v.nodes[h].children.len() + 1,
{
    let n = v.nodes[h].children.len();
    lemma_subtrees_sound(v, h, n);
    lemma_ancestor_step(v, h, h);
    let rest = v.subtrees_of(h, n);
    assert forall|x: Handle| #[trigger] v.subtree(h).contains(x) implies v.nodes.contains_key(x)
        && v.is_ancestor_or_self(h, x) by {
        let i = choose|i: int| 0 <= i < v.subtree(h).len() && v.subtree(h)[i] == x;
        if i > 0 {
            assert(rest[i - 1] == x);
            assert(rest.contains(x));
        }
    }
}

proof fn lemma_subtrees_sound(v: RouterView, h: Handle, n: nat)
    requires
        v.wf(),
        v.nodes.contains_key(h),
        n <= v.nodes[h].children.len(),
    ensures
        forall|x: Handle| #[trigger]
            v.subtrees_of(h, n).contains(x) ==> v.nodes.contains_key(x) && v.is_ancestor_or_self(
                h,
                x,
            ) && x != h && exists|k: int|
                0 <= k < n && v.subtree(#[trigger] v.nodes[h].children[k]).contains(x),
    decreases v.level_bound - v.levels[h], n,
{
    if n > 0 {
        assert(v.node_wf(h));
        let c = v.nodes[h].children[n - 1];
        assert(v.nodes.contains_key(c));
        assert(v.node_wf(c));
        lemma_subtrees_sound(v, h, (n - 1) as nat);
        lemma_subtree_sound(v, c);
        let a = v.subtrees_of(h, (n - 1) as nat);
        let b = v.subtree(c);
        assert(v.subtrees_of(h, n) == a + b);
        lemma_ancestor_step(v, h, c);
        lemma_ancestor_step(v, h, h);
        assert forall|x: Handle| #[trigger]
            v.subtrees_of(h, n).contains(x) implies v.nodes.contains_key(x)
            && v.is_ancestor_or_self(h, x) && x != h && exists|k: int|
            0 <= k < n && v.subtree(#[trigger] v.nodes[h].children[k]).contains(x) by {
            let i = choose|i: int| 0 <= i < (a + b).len() && (a + b)[i] == x;
            if i < a.len() {
                assert(a[i] == x);
                assert(a.contains(x));
                let k = choose|k: int|
                    0 <= k < n - 1 && v.subtree(#[trigger] v.nodes[h].children[k]).contains(x);
                assert(v.subtree(v.nodes[h].children[k]).contains(x));
            } else {
                assert(b[i - a.len()] == x);
                assert(b.contains(x));
                lemma_ancestor_trans(v, h, c, x);
                lemma_ancestor_step(v, c, x);
                assert(v.subtree(v.nodes[h].children[n - 1]).contains(x));
            }
        }
    }
}

proof fn lemma_subtrees_grow(v: RouterView, h: Handle, n: nat, m: nat, x: Handle)
    requires
        n <= m <= v.nodes[h].children.len(),
        v.wf(),
        v.nodes.contains_key(h),
        v.subtrees_of(h, n).contains(x),
    ensures
        v.subtrees_of(h, m).contains(x),
    decreases m - n,
{
    if n < m {
        assert(v.node_wf(h));
        let c = v.nodes[h].children[m - 1];
        assert(v.nodes.contains_key(c));
        assert(v.node_wf(c));
        lemma_subtrees_grow(v, h, n, (m - 1) as nat, x);
        let a = v.subtrees_of(h, (m - 1) as nat);
        let b = v.subtree(c);
        assert(v.subtrees_of(h, m) == a + b);
        let i = choose|i: int| 0 <= i < a.len() && a[i] == x;
        assert((a + b)[i] == x);
    }
}

proof fn lemma_in_subtrees(v: RouterView, h: Handle, k: int, x: Handle)
    requires
        0 <= k < v.nodes[h].children.len(),
        v.wf(),
        v.nodes.contains_key(h),
        v.subtree(v.nodes[h].children[k]).contains(x),
    ensures
        v.subtree(h).contains(x),
{
    assert(v.node_wf(h));
    let c = v.nodes[h].children[k];
    assert(v.nodes.contains_key(c));
    assert(v.node_wf(c));
    let a = v.subtrees_of(h, k as nat);
    let b = v.subtree(c);
    assert(v.subtrees_of(h, (k + 1) as nat) == a + b);
    let i = choose|i: int| 0 <= i < b.len() && b[i] == x;
    assert((a + b)[a.len() + i] == x);
    let n = v.nodes[h].children.len();
    lemma_subtrees_grow(v, h, (k + 1) as nat, n, x);
    let rest = v.subtrees_of(h, n);
    let j = choose|j: int| 0 <= j < rest.len() && rest[j] == x;
    assert(v.subtree(h)[j + 1] == x);
}

proof fn lemma_subtree_child_closed(v: RouterView, h: Handle, x: Handle, k: int)
    requires
        v.wf(),
        v.nodes.contains_key(h),
        v.subtree(h).contains(x),
        0 <= k < v.nodes[x].children.len(),
    ensures
        v.subtree(h).contains(v.nodes[x].children[k]),
    decreases v.level_bound - v.levels[h],
{
    let c = v.nodes[x].children[k];
    lemma_subtree_sound(v, h);
    assert(v.node_wf(x));
    assert(v.nodes.contains_key(c));
    if x == h {
        lemma_subtree_sound(v, c);
        assert(v.subtree(c)[0] == c);
        assert(v.subtree(c).contains(c));
        lemma_in_subtrees(v, h, k, c);
    } else {
        let n = v.nodes[h].children.len();
        let rest = v.subtrees_of(h, n);
        let i = choose|i: int| 0 <= i < v.subtree(h).len() && v.subtree(h)[i] == x;
        assert(rest[i - 1] == x);
        assert(rest.contains(x));
        lemma_subtrees_sound(v, h, n);
        let j = choose|j: int|
            0 <= j < n && v.subtree(#[trigger] v.nodes[h].children[j]).contains(x);
        let d = v.nodes[h].children[j];
        assert(v.node_wf(h));
        assert(v.nodes.contains_key(d));
        assert(v.node_wf(d));
        lemma_subtree_child_closed(v, d, x, k);
        lemma_in_subtrees(v, h, j, c);
    }
}

proof fn lemma_subtree_complete(v: RouterView, h: Handle, x: Handle)
    requires
        v.wf(),
        v.nodes.contains_key(h),
        v.nodes.contains_key(x),
        v.is_ancestor_or_self(h, x),
    ensures
        v.subtree(h).contains(x),
    decreases v.levels[x],
{
    lemma_subtree_sound(v, h);
    if x == h {
        assert(v.subtree(h)[0] == h);
    } else {
        lemma_ancestor_step(v, h, x);
        assert(v.node_wf(x));
        let q = v.nodes[x].parent.unwrap();
        lemma_subtree_complete(v, h, q);
        let k = choose|k: int| 0 <= k < v.nodes[q].children.len() && v.nodes[q].children[k] == x;
        lemma_subtree_child_closed(v, h, q, k);
    }
}

proof fn lemma_subtree_no_duplicates(v: RouterView, h: Handle)
    requires
        v.wf(),
        v.nodes.contains_key(h),
    ensures
        v.subtree(h).no_duplicates(),
    decreases v.level_bound - v.levels[h], v.nodes[h].children.len() + 1,
{
    let n = v.nodes[h].children.len();
    lemma_subtrees_no_duplicates(v, h, n);
    lemma_subtrees_sound(v, h, n);
    let rest = v.subtrees_of(h, n);
    let s = v.subtree(h);
    assert forall|i: int, j: int| 0 <= i < s.len() && 0 <= j < s.len() && i != j implies s[i]
        != s[j] by {
        if i > 0 {
            assert(rest[i - 1] == s[i]);
            assert(rest.contains(s[i]));
        }
        if j > 0 {
            assert(rest[j - 1] == s[j]);
            assert(rest.contains(s[j]));
        }
    }
}

proof fn lemma_subtrees_no_duplicates(v: RouterView, h: Handle, n: nat)
    requires
        v.wf(),
        v.nodes.contains_key(h),
        n <= v.nodes[h].children.len(),
    ensures
        v.subtrees_of(h, n).no_duplicates(),
    decreases v.level_bound - v.levels[h], n,
{
    if n > 0 {
        assert(v.node_wf(h));
        let c = v.nodes[h].children[n - 1];
        assert(v.nodes.contains_key(c));
        assert(v.node_wf(c));
        lemma_subtrees_no_duplicates(v, h, (n - 1) as nat);
        lemma_subtree_no_duplicates(v, c);
        lemma_subtrees_sound(v, h, (n - 1) as nat);
        lemma_subtree_sound(v, c);
        let a = v.subtrees_of(h, (n - 1) as nat);
        let b = v.subtree(c);
        let s = v.subtrees_of(h, n);
        assert(s == a + b);
        assert forall|x: Handle| a.contains(x) implies !b.contains(x) by {
            if b.contains(x) {
                let k = choose|k: int|
                    0 <= k < n - 1 && v.subtree(#[trigger] v.nodes[h].children[k]).contains(x);
                let d = v.nodes[h].children[k];
                assert(v.nodes.contains_key(d));
                assert(v.node_wf(d));
                lemma_subtree_sound(v, d);
                assert(d != c);
                lemma_ancestor_chain(v, d, c, x);
                lemma_ancestor_step(v, d, c);
                lemma_ancestor_step(v, c, d);
                lemma_ancestor_step(v, d, h);
                lemma_ancestor_step(v, c, h);
            }
        }
        assert forall|i: int, j: int| 0 <= i < s.len() && 0 <= j < s.len() && i != j implies s[i]
            != s[j] by {
            if i < a.len() && j >= a.len() {
                assert(a.contains(a[i]));
                assert(b[j - a.len()] == s[j]);
                assert(b.contains(s[j]));
            } else if j < a.len() && i >= a.len() {
                assert(a.contains(a[j]));
                assert(b[i - a.len()] == s[i]);
                assert(b.contains(s[i]));
            } else if i < a.len() {
            } else {
                assert(b[i - a.len()] == s[i]);
                assert(b[j - a.len()] == s[j]);
            }
        }
    }
}

/// A move of a widget tells the widget itself first, then every widget
/// below it in the tree, each of them exactly once and nobody else.
pub proof fn law_subtree_exactly_once(v: RouterView, h: Handle)
    requires
        v.wf(),
        v.nodes.contains_key(h),
    ensures
        v.subtree(h).no_duplicates(),
        v.subtree(h)[0] == h,
        forall|x: Handle| #[trigger]
            v.subtree(h).contains(x) <==> v.nodes.contains_key(x) && v.is_ancestor_or_self(h, x),
        position_changes(v.subtree(h)).len() == v.subtree(h).len(),
        forall|i: int|
            0 <= i < v.subtree(h).len() ==> (#[trigger] position_changes(v.subtree(h))[i])
                == (Dispatch { target: v.subtree(h)[i], event: CallBackEvent::PositionChange }),
        forall|i: int, j: int|
            #![trigger position_changes(v.subtree(h))[i], position_changes(v.subtree(h))[j]]
            0 <= i < j < v.subtree(h).len() ==> position_changes(v.subtree(h))[i].target
                != position_changes(v.subtree(h))[j].target,
{
    lemma_subtree_sound(v, h);
    lemma_subtree_no_duplicates(v, h);
    assert forall|x: Handle|
        v.nodes.contains_key(x) && v.is_ancestor_or_self(h, x) implies v.subtree(h).contains(
        x,
    ) by {
        lemma_subtree_complete(v, h, x);
    }
}

/// A widget without children has nothing below it, and the widgets below a
/// widget are those below each of its children, child by child.
pub proof fn law_subtree_of_children(v: RouterView, h: Handle)
    requires
        v.wf(),
        v.nodes.contains_key(h),
    ensures
        v.nodes[h].children.len() == 0 ==> v.subtree(h) == seq![h],
        v.nodes[h].children.len() == 1 ==> v.subtree(h) == seq![h] + v.subtree(
            v.nodes[h].children[0],
        ),
        v.nodes[h].children.len() == 2 ==> v.subtree(h) == seq![h] + v.subtree(
            v.nodes[h].children[0],
        ) + v.subtree(v.nodes[h].children[1]),
{
    assert(v.node_wf(h));
    let n = v.nodes[h].children.len();
    assert(v.subtrees_of(h, 0) =~= Seq::<Handle>::empty());
    if n >= 1 {
        let c0 = v.nodes[h].children[0];
        assert(v.nodes.contains_key(c0));
        assert(v.node_wf(c0));
        assert(v.subtrees_of(h, 1) =~= v.subtree(c0));
    }
    if n == 2 {
        let c1 = v.nodes[h].children[1];
        assert(v.nodes.contains_key(c1));
        assert(v.node_wf(c1));
        assert(v.subtrees_of(h, 2) =~= v.subtrees_of(h, 1) + v.subtree(c1));
    }
    if n == 0 {
        assert(v.subtree(h) =~= seq![h]);
    } else if n == 1 {
        assert(v.subtree(h) =~= seq![h] + v.subtree(v.nodes[h].children[0]));
    } else if n == 2 {
        assert(v.subtree(h) =~= seq![h] + v.subtree(v.nodes[h].children[0]) + v.subtree(
            v.nodes[h].children[1],
        ));
    }
}

} // verus!
