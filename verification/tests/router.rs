use gui_core::{
    CallBackEvent, Command, Commands, Dispatch, GraphError, Handle, Identity, ModifiersState,
    MouseButton, Permission, SystemEvent, UiField, UiFlags, Widget, Widgets, WindowMove,
    WorldBounds,
};

fn flags(list: &[UiFlags]) -> UiField {
    let mut field = UiField::zeros();
    for flag in list {
        field.set(*flag);
    }
    field
}

fn widget(name: &str, list: &[UiFlags], bounds: (i32, i32, i32, i32)) -> Widget {
    Widget::new(
        Identity::new(name, 0),
        1,
        flags(list),
        WorldBounds::new(bounds.0, bounds.1, bounds.2, bounds.3, 0),
    )
}

fn press(target: Handle, pressed: bool) -> Dispatch {
    Dispatch {
        target,
        event: CallBackEvent::MousePress {
            button: MouseButton::Left,
            pressed,
            modifiers: ModifiersState::empty(),
        },
    }
}

fn focus(target: Handle, focused: bool) -> Dispatch {
    Dispatch { target, event: CallBackEvent::FocusChange { focused } }
}

fn over(target: Handle, over: bool) -> Dispatch {
    Dispatch { target, event: CallBackEvent::MouseOver { over } }
}

fn moved(target: Handle) -> Dispatch {
    Dispatch { target, event: CallBackEvent::PositionChange }
}

fn order(ui: &Widgets) -> Vec<Handle> {
    ui.draw_order()
}

fn children(ui: &Widgets, handle: Handle) -> Vec<Handle> {
    ui.get(handle).unwrap().children.iter().copied().collect()
}

fn has(ui: &Widgets, handle: Handle, flag: UiFlags) -> bool {
    ui.get(handle).unwrap().has(flag)
}

fn corner(ui: &Widgets, handle: Handle) -> (i32, i32) {
    let bounds = ui.get(handle).unwrap().widget.get_bounds();
    (bounds.x, bounds.y)
}

fn point_at(ui: &mut Widgets, x: i32, y: i32) -> Vec<Dispatch> {
    let (window, due) = ui.event_mouse_position([x, y], [800, 600]);
    assert_eq!(window, None);
    due
}

#[test]
fn new_router_is_empty() {
    let ui = Widgets::new();
    assert_eq!(ui.shown(), 0);
    assert_eq!(ui.shown_at(0), None);
    assert_eq!(ui.focused(), None);
    assert_eq!(ui.over(), None);
    assert_eq!(ui.clicked(), None);
    assert!(!ui.moving());
    assert!(!ui.contains(Handle::default()));
}

#[test]
fn inserted_widgets_stack_in_order() {
    let mut ui = Widgets::new();
    let a = ui.insert_widget(widget("a", &[], (0, 0, 10, 10)));
    let b = ui.insert_widget(widget("b", &[], (0, 0, 10, 10)));
    let c = ui.insert_widget(widget("c", &[], (0, 0, 10, 10)));
    assert_eq!(order(&ui), vec![a, b, c]);
    assert_eq!(ui.shown(), 3);
    assert_eq!(ui.shown_at(2), Some(c));
    assert_eq!(ui.shown_at(3), None);
    assert!(ui.contains(a));
    assert_eq!(ui.get(b).unwrap().widget.identity.name, "b");
    assert_eq!(ui.get(b).unwrap().get_parent(), None);
    assert!(!ui.get(b).unwrap().is_hidden());
}

#[test]
fn set_parent_links_both_ways() {
    let mut ui = Widgets::new();
    let p = ui.insert_widget(widget("p", &[], (0, 0, 100, 100)));
    let a = ui.insert_widget(widget("a", &[], (0, 0, 10, 10)));
    let b = ui.insert_widget(widget("b", &[], (0, 0, 10, 10)));
    assert_eq!(ui.set_parent(a, Some(p)), Ok(()));
    assert_eq!(ui.set_parent(b, Some(p)), Ok(()));
    assert_eq!(children(&ui, p), vec![a, b]);
    assert_eq!(ui.get(a).unwrap().get_parent(), Some(p));
    assert_eq!(ui.get(b).unwrap().get_parent(), Some(p));
    assert_eq!(order(&ui), vec![p, a, b]);
}

#[test]
fn reparent_leaves_the_old_parent_first() {
    let mut ui = Widgets::new();
    let p = ui.insert_widget(widget("p", &[], (0, 0, 100, 100)));
    let q = ui.insert_widget(widget("q", &[], (0, 0, 100, 100)));
    let a = ui.insert_widget(widget("a", &[], (0, 0, 10, 10)));
    let b = ui.insert_widget(widget("b", &[], (0, 0, 10, 10)));
    ui.set_parent(a, Some(p)).unwrap();
    ui.set_parent(b, Some(p)).unwrap();
    ui.set_parent(a, Some(q)).unwrap();
    assert_eq!(children(&ui, p), vec![b]);
    assert_eq!(children(&ui, q), vec![a]);
    assert_eq!(ui.get(a).unwrap().get_parent(), Some(q));
    // to the same parent again: last of its children
    ui.set_parent(a, Some(p)).unwrap();
    ui.set_parent(b, Some(p)).unwrap();
    assert_eq!(children(&ui, p), vec![a, b]);
    assert_eq!(children(&ui, q), Vec::<Handle>::new());
    // to none
    ui.set_parent(a, None).unwrap();
    assert_eq!(children(&ui, p), vec![b]);
    assert_eq!(ui.get(a).unwrap().get_parent(), None);
}

#[test]
fn set_parent_refuses_unknown_handles() {
    let mut ui = Widgets::new();
    let a = ui.insert_widget(widget("a", &[], (0, 0, 10, 10)));
    let gone = ui.insert_widget(widget("gone", &[], (0, 0, 10, 10)));
    ui.remove_widget(gone);
    assert_eq!(ui.set_parent(gone, Some(a)), Err(GraphError::NotFound));
    assert_eq!(ui.set_parent(a, Some(gone)), Err(GraphError::NotFound));
    assert_eq!(ui.set_parent(a, Some(Handle::default())), Err(GraphError::NotFound));
    assert_eq!(ui.set_parent(gone, None), Err(GraphError::NotFound));
    assert_eq!(ui.get(a).unwrap().get_parent(), None);
    assert_eq!(children(&ui, a), Vec::<Handle>::new());
}

#[test]
fn set_parent_refuses_cycles() {
    let mut ui = Widgets::new();
    let a = ui.insert_widget(widget("a", &[], (0, 0, 10, 10)));
    let b = ui.insert_widget(widget("b", &[], (0, 0, 10, 10)));
    let c = ui.insert_widget(widget("c", &[], (0, 0, 10, 10)));
    ui.set_parent(b, Some(a)).unwrap();
    ui.set_parent(c, Some(b)).unwrap();
    assert_eq!(ui.set_parent(a, Some(a)), Err(GraphError::Cycle));
    assert_eq!(ui.set_parent(a, Some(b)), Err(GraphError::Cycle));
    assert_eq!(ui.set_parent(a, Some(c)), Err(GraphError::Cycle));
    assert_eq!(ui.set_parent(b, Some(c)), Err(GraphError::Cycle));
    assert_eq!(ui.get(a).unwrap().get_parent(), None);
    assert_eq!(children(&ui, a), vec![b]);
    assert_eq!(children(&ui, b), vec![c]);
    // a subtree may move up and sideways
    assert_eq!(ui.set_parent(c, Some(a)), Ok(()));
    assert_eq!(children(&ui, a), vec![b, c]);
    assert_eq!(ui.set_parent(b, Some(c)), Ok(()));
    assert_eq!(children(&ui, a), vec![c]);
    assert_eq!(children(&ui, c), vec![b]);
    assert_eq!(ui.set_parent(a, Some(b)), Err(GraphError::Cycle));
}

#[test]
fn deep_reparenting_keeps_working() {
    let mut ui = Widgets::new();
    let mut chain = Vec::new();
    for i in 0..20 {
        chain.push(ui.insert_widget(widget(&format!("w{}", i), &[], (0, 0, 10, 10))));
    }
    for i in 1..20 {
        ui.set_parent(chain[i], Some(chain[i - 1])).unwrap();
    }
    assert_eq!(ui.set_parent(chain[0], Some(chain[19])), Err(GraphError::Cycle));
    ui.set_parent(chain[10], None).unwrap();
    assert_eq!(ui.set_parent(chain[0], Some(chain[19])), Ok(()));
    assert_eq!(ui.set_parent(chain[10], Some(chain[9])), Err(GraphError::Cycle));
    let mut due = Vec::new();
    ui.widget_position_update(chain[10], &mut due);
    assert_eq!(due.len(), 20);
    assert_eq!(due[0], moved(chain[10]));
    assert_eq!(due[10], moved(chain[0]));
    assert_eq!(due[19], moved(chain[9]));
}

#[test]
fn remove_unlinks_everywhere() {
    let mut ui = Widgets::new();
    let p = ui.insert_widget(widget("p", &[], (0, 0, 100, 100)));
    let a = ui.insert_widget(
        widget("a", &[UiFlags::ClickAble, UiFlags::CanFocus], (0, 0, 50, 50)),
    );
    let c1 = ui.insert_widget(widget("c1", &[], (0, 0, 10, 10)));
    let c2 = ui.insert_widget(widget("c2", &[], (0, 0, 10, 10)));
    ui.set_parent(a, Some(p)).unwrap();
    ui.set_parent(c1, Some(a)).unwrap();
    ui.set_parent(c2, Some(a)).unwrap();
    point_at(&mut ui, 5, 5);
    ui.event_mouse_button(MouseButton::Left, true);
    assert_eq!(ui.focused(), Some(a));
    assert_eq!(ui.over(), Some(a));
    assert_eq!(ui.clicked(), Some(a));
    let removed = ui.remove_widget(a).unwrap();
    assert_eq!(removed.identity.name, "a");
    assert!(!ui.contains(a));
    assert!(ui.get(a).is_none());
    assert_eq!(children(&ui, p), Vec::<Handle>::new());
    assert_eq!(ui.get(c1).unwrap().get_parent(), None);
    assert_eq!(ui.get(c2).unwrap().get_parent(), None);
    assert_eq!(order(&ui), vec![p, c1, c2]);
    assert_eq!(ui.focused(), None);
    assert_eq!(ui.over(), None);
    assert_eq!(ui.clicked(), None);
    assert!(ui.remove_widget(a).is_none());
    assert_eq!(order(&ui), vec![p, c1, c2]);
}

#[test]
fn removed_handle_stays_dead_after_new_insert() {
    let mut ui = Widgets::new();
    let a = ui.insert_widget(widget("a", &[UiFlags::ClickAble], (0, 0, 10, 10)));
    ui.remove_widget(a);
    let b = ui.insert_widget(widget("b", &[], (0, 0, 10, 10)));
    assert_ne!(a, b);
    assert!(!ui.contains(a));
    assert!(ui.get(a).is_none());
    assert!(ui.get_mut(a).is_none());
    assert_eq!(ui.set_parent(a, None), Err(GraphError::NotFound));
    assert!(!ui.set_hidden(a, true));
    ui.raise_to_top(a);
    assert_eq!(ui.widget_manual_focus(a), vec![]);
    assert_eq!(order(&ui), vec![b]);
}

#[test]
fn hidden_widgets_leave_the_stacking_order() {
    let mut ui = Widgets::new();
    let a = ui.insert_widget(widget("a", &[UiFlags::ClickAble], (0, 0, 10, 10)));
    let b = ui.insert_widget(widget("b", &[], (0, 0, 10, 10)));
    assert!(ui.set_hidden(a, true));
    assert!(ui.get(a).unwrap().is_hidden());
    assert_eq!(order(&ui), vec![b]);
    assert_eq!(ui.hit_test([5, 5]), None);
    assert!(ui.set_hidden(a, true));
    assert_eq!(order(&ui), vec![b]);
    assert!(ui.set_hidden(a, false));
    assert_eq!(order(&ui), vec![b, a]);
    assert_eq!(ui.hit_test([5, 5]), Some(a));
    assert!(ui.set_hidden(a, false));
    assert_eq!(order(&ui), vec![b, a]);
    assert!(!ui.set_hidden(Handle::default(), true));
}

#[test]
fn clear_widgets_forgets_them_all() {
    let mut ui = Widgets::new();
    let a = ui.insert_widget(
        widget("a", &[UiFlags::ClickAble, UiFlags::CanFocus], (0, 0, 10, 10)),
    );
    point_at(&mut ui, 5, 5);
    ui.event_mouse_button(MouseButton::Left, true);
    ui.clear_widgets();
    assert_eq!(ui.shown(), 0);
    assert!(!ui.contains(a));
    assert_eq!(ui.focused(), None);
    assert_eq!(ui.over(), None);
    assert_eq!(ui.clicked(), None);
    let b = ui.insert_widget(widget("b", &[], (0, 0, 10, 10)));
    assert_ne!(a, b);
    assert_eq!(order(&ui), vec![b]);
}

#[test]
fn raise_moves_in_both_orders() {
    let mut ui = Widgets::new();
    let p = ui.insert_widget(widget("p", &[], (0, 0, 100, 100)));
    let a = ui.insert_widget(widget("a", &[], (0, 0, 10, 10)));
    let b = ui.insert_widget(widget("b", &[], (0, 0, 10, 10)));
    let c = ui.insert_widget(widget("c", &[], (0, 0, 10, 10)));
    for h in [a, b, c] {
        ui.set_parent(h, Some(p)).unwrap();
    }
    ui.raise_to_top(a);
    assert_eq!(order(&ui), vec![p, b, c, a]);
    assert_eq!(children(&ui, p), vec![b, c, a]);
    ui.raise_to_top(p);
    assert_eq!(order(&ui), vec![b, c, a, p]);
    assert_eq!(children(&ui, p), vec![b, c, a]);
}

#[test]
fn raise_of_the_topmost_changes_nothing() {
    let mut ui = Widgets::new();
    let p = ui.insert_widget(widget("p", &[], (0, 0, 100, 100)));
    let a = ui.insert_widget(widget("a", &[], (0, 0, 10, 10)));
    let b = ui.insert_widget(widget("b", &[], (0, 0, 10, 10)));
    ui.set_parent(a, Some(p)).unwrap();
    ui.set_parent(b, Some(p)).unwrap();
    ui.raise_to_top(b);
    assert_eq!(order(&ui), vec![p, a, b]);
    assert_eq!(children(&ui, p), vec![a, b]);
    ui.raise_to_top(b);
    ui.raise_to_top(b);
    assert_eq!(order(&ui), vec![p, a, b]);
    assert_eq!(children(&ui, p), vec![a, b]);
    // a hidden widget is raised among its parent's children only
    ui.set_hidden(a, true);
    ui.raise_to_top(a);
    assert_eq!(order(&ui), vec![p, b]);
    assert_eq!(children(&ui, p), vec![b, a]);
}

#[test]
fn hit_test_picks_the_topmost() {
    let mut ui = Widgets::new();
    let a = ui.insert_widget(widget("a", &[UiFlags::ClickAble], (0, 0, 50, 50)));
    let b = ui.insert_widget(widget("b", &[UiFlags::ClickAble], (25, 25, 50, 50)));
    let c = ui.insert_widget(widget("c", &[], (0, 0, 100, 100)));
    assert_eq!(order(&ui), vec![a, b, c]);
    assert_eq!(ui.hit_test([30, 30]), Some(b));
    assert_eq!(ui.hit_test([10, 10]), Some(a));
    assert_eq!(ui.hit_test([60, 60]), Some(b));
    // c cannot be clicked
    assert_eq!(ui.hit_test([90, 90]), None);
    assert_eq!(ui.hit_test([200, 200]), None);
    ui.raise_to_top(a);
    assert_eq!(ui.hit_test([30, 30]), Some(a));
}

#[test]
fn press_on_empty_space_changes_nothing() {
    let mut ui = Widgets::new();
    let a = ui.insert_widget(
        widget("a", &[UiFlags::ClickAble, UiFlags::CanFocus], (10, 10, 20, 20)),
    );
    point_at(&mut ui, 50, 50);
    assert_eq!(ui.event_mouse_button(MouseButton::Left, true), vec![]);
    assert_eq!(ui.focused(), None);
    assert_eq!(ui.clicked(), None);
    assert!(!ui.moving());
    assert_eq!(ui.event_mouse_button(MouseButton::Left, false), vec![]);
    assert!(!has(&ui, a, UiFlags::IsFocused));
}

#[test]
fn press_and_release_on_a_button() {
    let mut ui = Widgets::new();
    let b = ui.insert_widget(
        widget("b", &[UiFlags::ClickAble, UiFlags::CanFocus], (10, 10, 20, 20)),
    );
    point_at(&mut ui, 15, 15);
    assert!(!ui.moving());
    let due = ui.event_mouse_button(MouseButton::Left, true);
    assert_eq!(due, vec![focus(b, true), press(b, true)]);
    assert_eq!(ui.focused(), Some(b));
    assert_eq!(ui.clicked(), Some(b));
    assert!(has(&ui, b, UiFlags::IsFocused));
    assert!(!has(&ui, b, UiFlags::Moving));
    assert!(!ui.moving());
    let due = ui.event_mouse_button(MouseButton::Left, false);
    assert_eq!(due, vec![press(b, false)]);
    assert_eq!(ui.focused(), Some(b));
    assert!(!ui.moving());
}

#[test]
fn press_on_the_focused_widget_only_clicks() {
    let mut ui = Widgets::new();
    let b = ui.insert_widget(
        widget("b", &[UiFlags::ClickAble, UiFlags::CanFocus], (10, 10, 20, 20)),
    );
    point_at(&mut ui, 15, 15);
    ui.event_mouse_button(MouseButton::Left, true);
    ui.event_mouse_button(MouseButton::Left, false);
    let due = ui.event_mouse_button(MouseButton::Right, true);
    assert_eq!(
        due,
        vec![Dispatch {
            target: b,
            event: CallBackEvent::MousePress {
                button: MouseButton::Right,
                pressed: true,
                modifiers: ModifiersState::empty(),
            },
        }]
    );
}

#[test]
fn focus_goes_from_one_to_the_other_in_order() {
    let mut ui = Widgets::new();
    let a = ui.insert_widget(
        widget("a", &[UiFlags::ClickAble, UiFlags::CanFocus], (0, 0, 20, 20)),
    );
    let b = ui.insert_widget(
        widget("b", &[UiFlags::ClickAble, UiFlags::CanFocus], (50, 50, 20, 20)),
    );
    point_at(&mut ui, 5, 5);
    assert_eq!(ui.event_mouse_button(MouseButton::Left, true), vec![focus(a, true), press(a, true)]);
    assert_eq!(order(&ui), vec![b, a]);
    point_at(&mut ui, 55, 55);
    let due = ui.event_mouse_button(MouseButton::Left, true);
    assert_eq!(due, vec![focus(a, false), focus(b, true), press(b, true)]);
    assert_eq!(ui.focused(), Some(b));
    assert!(has(&ui, b, UiFlags::IsFocused));
    assert!(!has(&ui, a, UiFlags::IsFocused));
    assert_eq!(order(&ui), vec![a, b]);
}

#[test]
fn manual_focus_needs_can_focus() {
    let mut ui = Widgets::new();
    let a = ui.insert_widget(widget("a", &[UiFlags::CanFocus], (0, 0, 20, 20)));
    let b = ui.insert_widget(widget("b", &[], (0, 0, 20, 20)));
    let c = ui.insert_widget(widget("c", &[UiFlags::CanFocus], (0, 0, 20, 20)));
    assert_eq!(ui.widget_manual_focus(b), vec![]);
    assert_eq!(ui.focused(), None);
    assert_eq!(ui.widget_manual_focus(a), vec![focus(a, true)]);
    assert_eq!(ui.focused(), Some(a));
    assert_eq!(order(&ui), vec![b, c, a]);
    assert_eq!(ui.widget_manual_focus(a), vec![]);
    assert_eq!(ui.widget_manual_focus(c), vec![focus(a, false), focus(c, true)]);
    assert_eq!(ui.focused(), Some(c));
    assert!(!has(&ui, a, UiFlags::IsFocused));
    assert!(has(&ui, c, UiFlags::IsFocused));
}

#[test]
fn only_the_topmost_of_two_gets_the_press() {
    let mut ui = Widgets::new();
    let lower = ui.insert_widget(
        widget("lower", &[UiFlags::ClickAble, UiFlags::CanFocus], (0, 0, 50, 50)),
    );
    let upper = ui.insert_widget(
        widget("upper", &[UiFlags::ClickAble, UiFlags::CanFocus], (0, 0, 50, 50)),
    );
    point_at(&mut ui, 10, 10);
    let due = ui.event_mouse_button(MouseButton::Left, true);
    assert_eq!(due, vec![focus(upper, true), press(upper, true)]);
    assert!(due.iter().all(|d| d.target != lower));
    let due = ui.event_mouse_button(MouseButton::Left, false);
    assert_eq!(due, vec![press(upper, false)]);
}

#[test]
fn permission_walks_up_the_tree() {
    let mut ui = Widgets::new();
    let top = ui.insert_widget(widget("top", &[], (0, 0, 100, 100)));
    let mid = ui.insert_widget(widget("mid", &[], (0, 0, 100, 100)));
    let leaf = ui.insert_widget(widget("leaf", &[UiFlags::ClickAble], (0, 0, 10, 10)));
    ui.set_parent(mid, Some(top)).unwrap();
    ui.set_parent(leaf, Some(mid)).unwrap();
    assert_eq!(ui.is_parent_focused(leaf), Permission::Denied);
    assert_eq!(ui.is_parent_focused(top), Permission::Denied);
    ui.get_mut(top).unwrap().actions.set(UiFlags::CanFocus);
    assert_eq!(ui.is_parent_focused(leaf), Permission::Target);
    ui.get_mut(top).unwrap().actions.set(UiFlags::FocusClick);
    assert_eq!(ui.is_parent_focused(leaf), Permission::Ancestor(top));
    ui.get_mut(mid).unwrap().actions.set(UiFlags::CanFocus);
    assert_eq!(ui.is_parent_focused(leaf), Permission::Target);
    ui.get_mut(mid).unwrap().actions.set(UiFlags::FocusClick);
    assert_eq!(ui.is_parent_focused(leaf), Permission::Ancestor(mid));
    // always useable above wins over everything
    ui.get_mut(top).unwrap().actions.set(UiFlags::AlwaysUseable);
    assert_eq!(ui.is_parent_focused(leaf), Permission::Target);
    // the widget's own flag does not count
    ui.get_mut(top).unwrap().actions.clear(UiFlags::AlwaysUseable);
    ui.get_mut(leaf).unwrap().actions.set(UiFlags::AlwaysUseable);
    assert_eq!(ui.is_parent_focused(leaf), Permission::Ancestor(mid));
}

#[test]
fn press_without_permission_is_ignored() {
    let mut ui = Widgets::new();
    let p = ui.insert_widget(widget("p", &[], (0, 0, 100, 100)));
    let w = ui.insert_widget(widget("w", &[UiFlags::ClickAble, UiFlags::MoveAble], (0, 0, 10, 10)));
    ui.set_parent(w, Some(p)).unwrap();
    point_at(&mut ui, 5, 5);
    assert_eq!(ui.event_mouse_button(MouseButton::Left, true), vec![]);
    assert_eq!(ui.clicked(), None);
    assert_eq!(ui.focused(), None);
    assert!(!has(&ui, w, UiFlags::Moving));
}

#[test]
fn press_with_permission_clicks_the_target() {
    let mut ui = Widgets::new();
    let p = ui.insert_widget(widget("p", &[UiFlags::CanFocus], (0, 0, 100, 100)));
    let w = ui.insert_widget(widget("w", &[UiFlags::ClickAble, UiFlags::MoveAble], (0, 0, 10, 10)));
    ui.set_parent(w, Some(p)).unwrap();
    point_at(&mut ui, 5, 5);
    assert_eq!(ui.event_mouse_button(MouseButton::Left, true), vec![press(w, true)]);
    assert_eq!(ui.clicked(), Some(w));
    assert_eq!(ui.focused(), None);
    assert!(has(&ui, w, UiFlags::Moving));
    assert_eq!(ui.event_mouse_button(MouseButton::Left, false), vec![press(w, false)]);
    assert!(!has(&ui, w, UiFlags::Moving));
}

#[test]
fn focus_click_parent_takes_the_press() {
    let mut ui = Widgets::new();
    let p = ui.insert_widget(
        widget("p", &[UiFlags::CanFocus, UiFlags::FocusClick, UiFlags::MoveAble], (0, 0, 100, 100)),
    );
    let w = ui.insert_widget(widget("w", &[UiFlags::ClickAble], (0, 0, 10, 10)));
    ui.set_parent(w, Some(p)).unwrap();
    point_at(&mut ui, 5, 5);
    assert_eq!(ui.event_mouse_button(MouseButton::Left, true), vec![press(p, true)]);
    assert_eq!(ui.clicked(), Some(p));
    assert!(has(&ui, p, UiFlags::Moving));
    assert!(!has(&ui, w, UiFlags::Moving));
}

#[test]
fn click_behind_goes_to_the_parent() {
    let mut ui = Widgets::new();
    let p = ui.insert_widget(
        widget(
            "p",
            &[UiFlags::CanMoveWindow, UiFlags::ClickAble, UiFlags::AlwaysUseable],
            (0, 0, 100, 100),
        ),
    );
    let holder = ui.insert_widget(widget("holder", &[], (0, 0, 100, 100)));
    let w = ui.insert_widget(
        widget("w", &[UiFlags::CanClickBehind, UiFlags::ClickAble], (10, 10, 20, 20)),
    );
    ui.set_parent(p, Some(holder)).unwrap();
    ui.set_parent(w, Some(p)).unwrap();
    // granted by the parent being always useable
    point_at(&mut ui, 15, 15);
    assert_eq!(ui.hit_test([15, 15]), Some(w));
    let due = ui.event_mouse_button(MouseButton::Left, true);
    assert_eq!(due, vec![press(p, true)]);
    assert!(due.iter().all(|d| d.target != w));
    assert_eq!(ui.clicked(), Some(p));
    assert!(ui.moving());
    // the release goes to the widget under the pointer and ends the drag
    let due = ui.event_mouse_button(MouseButton::Left, false);
    assert_eq!(due, vec![press(w, false)]);
    assert!(!ui.moving());
}

#[test]
fn click_behind_outside_the_parent_starts_no_drag() {
    let mut ui = Widgets::new();
    let p = ui.insert_widget(
        widget("p", &[UiFlags::CanMoveWindow, UiFlags::CanFocus], (0, 0, 12, 12)),
    );
    let w = ui.insert_widget(
        widget("w", &[UiFlags::CanClickBehind, UiFlags::ClickAble], (10, 10, 20, 20)),
    );
    ui.set_parent(w, Some(p)).unwrap();
    point_at(&mut ui, 15, 15);
    assert_eq!(ui.event_mouse_button(MouseButton::Left, true), vec![press(p, true)]);
    assert!(!ui.moving());
    assert_eq!(ui.focused(), None);
}

#[test]
fn window_drag_reports_the_distance_from_the_click() {
    let mut ui = Widgets::new();
    let bar = ui.insert_widget(
        widget(
            "bar",
            &[UiFlags::ClickAble, UiFlags::CanFocus, UiFlags::CanMoveWindow],
            (0, 0, 100, 20),
        ),
    );
    point_at(&mut ui, 40, 10);
    assert_eq!(
        ui.event_mouse_button(MouseButton::Left, true),
        vec![focus(bar, true), press(bar, true)]
    );
    assert!(ui.moving());
    let (window, due) = ui.event_mouse_position([45, 7], [800, 600]);
    assert_eq!(window, Some(WindowMove { dx: 5, dy: -3 }));
    assert_eq!(due, vec![]);
    let (window, _) = ui.event_mouse_position([300, 300], [800, 600]);
    assert_eq!(window, Some(WindowMove { dx: 260, dy: 290 }));
    assert_eq!(ui.over(), Some(bar));
    // released away from the bar: the widget that took the press ends the drag
    assert_eq!(ui.event_mouse_button(MouseButton::Left, false), vec![]);
    assert!(!ui.moving());
    let (window, _) = ui.event_mouse_position([10, 10], [800, 600]);
    assert_eq!(window, None);
}

#[test]
fn window_drag_distance_at_the_ends_of_the_range() {
    let mut ui = Widgets::new();
    ui.insert_widget(
        widget(
            "bar",
            &[UiFlags::ClickAble, UiFlags::CanFocus, UiFlags::CanMoveWindow],
            (i32::MIN, i32::MIN, i32::MAX, i32::MAX),
        ),
    );
    point_at(&mut ui, i32::MIN, i32::MIN);
    ui.event_mouse_button(MouseButton::Left, true);
    assert!(ui.moving());
    let (window, _) = ui.event_mouse_position([i32::MAX, i32::MAX], [800, 600]);
    assert_eq!(window, Some(WindowMove { dx: 4294967295, dy: 4294967295 }));
}

fn movable_in_parent() -> (Widgets, Handle, Handle) {
    let mut ui = Widgets::new();
    let parent = ui.insert_widget(widget("parent", &[], (0, 0, 100, 100)));
    let child = ui.insert_widget(
        widget(
            "child",
            &[UiFlags::ClickAble, UiFlags::CanFocus, UiFlags::MoveAble],
            (10, 10, 20, 20),
        ),
    );
    ui.set_parent(child, Some(parent)).unwrap();
    point_at(&mut ui, 15, 15);
    let due = ui.event_mouse_button(MouseButton::Left, true);
    assert_eq!(due, vec![focus(child, true), press(child, true)]);
    assert!(has(&ui, child, UiFlags::Moving));
    (ui, parent, child)
}

#[test]
fn drag_out_of_the_parent_is_rejected() {
    let (mut ui, _, child) = movable_in_parent();
    let due = point_at(&mut ui, -5, 15);
    assert_eq!(due, vec![]);
    assert_eq!(corner(&ui, child), (10, 10));
    // the pointer's place is noted all the same
    let due = point_at(&mut ui, -10, 15);
    assert_eq!(due, vec![moved(child)]);
    assert_eq!(corner(&ui, child), (5, 10));
}

#[test]
fn drag_inside_the_parent_moves_the_widget() {
    let (mut ui, parent, child) = movable_in_parent();
    let due = point_at(&mut ui, 10, 15);
    assert_eq!(due, vec![moved(child)]);
    assert_eq!(corner(&ui, child), (5, 10));
    assert_eq!(corner(&ui, parent), (0, 0));
    assert_eq!(ui.get(child).unwrap().widget.get_bounds(), WorldBounds::new(5, 10, 20, 20, 0));
    // released: no longer moving, the pointer only hovers
    ui.event_mouse_button(MouseButton::Left, false);
    assert!(!has(&ui, child, UiFlags::Moving));
    point_at(&mut ui, 20, 20);
    assert_eq!(corner(&ui, child), (5, 10));
}

#[test]
fn drag_onto_the_parents_edge_is_accepted() {
    let (mut ui, _, child) = movable_in_parent();
    point_at(&mut ui, 5, 5);
    assert_eq!(corner(&ui, child), (0, 0));
    point_at(&mut ui, 85, 85);
    assert_eq!(corner(&ui, child), (80, 80));
    point_at(&mut ui, 86, 85);
    assert_eq!(corner(&ui, child), (80, 80));
}

#[test]
fn drag_without_parent_stays_in_the_viewport() {
    let mut ui = Widgets::new();
    let w = ui.insert_widget(
        widget("w", &[UiFlags::ClickAble, UiFlags::CanFocus, UiFlags::MoveAble], (10, 10, 20, 20)),
    );
    point_at(&mut ui, 15, 15);
    ui.event_mouse_button(MouseButton::Left, true);
    assert_eq!(ui.event_mouse_position([785, 15], [800, 600]).1, vec![moved(w)]);
    assert_eq!(corner(&ui, w), (780, 10));
    assert_eq!(ui.event_mouse_position([786, 15], [800, 600]).1, vec![]);
    assert_eq!(corner(&ui, w), (780, 10));
    assert_eq!(ui.event_mouse_position([786, 585], [800, 600]).1, vec![moved(w)]);
    assert_eq!(corner(&ui, w), (780, 580));
}

#[test]
fn position_change_reaches_every_descendant_once() {
    let mut ui = Widgets::new();
    let root = ui.insert_widget(
        widget(
            "root",
            &[UiFlags::ClickAble, UiFlags::CanFocus, UiFlags::MoveAble],
            (10, 10, 50, 50),
        ),
    );
    let c1 = ui.insert_widget(widget("c1", &[], (0, 0, 5, 5)));
    let c2 = ui.insert_widget(widget("c2", &[], (0, 0, 5, 5)));
    let c3 = ui.insert_widget(widget("c3", &[], (0, 0, 5, 5)));
    ui.set_parent(c1, Some(root)).unwrap();
    ui.set_parent(c2, Some(root)).unwrap();
    ui.set_parent(c3, Some(c1)).unwrap();
    point_at(&mut ui, 30, 30);
    ui.event_mouse_button(MouseButton::Left, true);
    let due = point_at(&mut ui, 31, 30);
    assert_eq!(due, vec![moved(root), moved(c1), moved(c3), moved(c2)]);
    for h in [c1, c2, c3] {
        assert_eq!(due.iter().filter(|d| d.target == h).count(), 1);
    }
    let mut out = Vec::new();
    ui.widget_position_update(c1, &mut out);
    assert_eq!(out, vec![moved(c1), moved(c3)]);
    ui.widget_position_update(c2, &mut out);
    assert_eq!(out, vec![moved(c1), moved(c3), moved(c2)]);
}

#[test]
fn hover_tells_who_is_left_and_who_is_entered() {
    let mut ui = Widgets::new();
    let a = ui.insert_widget(widget("a", &[UiFlags::ClickAble], (0, 0, 20, 20)));
    let b = ui.insert_widget(widget("b", &[UiFlags::ClickAble], (50, 50, 20, 20)));
    assert_eq!(point_at(&mut ui, 5, 5), vec![over(a, true)]);
    assert_eq!(ui.over(), Some(a));
    assert!(has(&ui, a, UiFlags::MouseOver));
    assert_eq!(point_at(&mut ui, 6, 6), vec![]);
    assert_eq!(point_at(&mut ui, 55, 55), vec![over(a, false), over(b, true)]);
    assert!(!has(&ui, a, UiFlags::MouseOver));
    assert!(has(&ui, b, UiFlags::MouseOver));
    assert_eq!(point_at(&mut ui, 200, 200), vec![over(b, false)]);
    assert_eq!(ui.over(), None);
    assert!(!has(&ui, b, UiFlags::MouseOver));
    assert_eq!(point_at(&mut ui, 201, 200), vec![]);
}

#[test]
fn release_clears_moving_on_every_widget() {
    let mut ui = Widgets::new();
    let a = ui.insert_widget(widget("a", &[UiFlags::Moving], (0, 0, 20, 20)));
    let b = ui.insert_widget(widget("b", &[UiFlags::Moving, UiFlags::Checked], (0, 0, 20, 20)));
    let c = ui.insert_widget(widget("c", &[UiFlags::Moving, UiFlags::Checked], (0, 0, 20, 20)));
    let d = ui.insert_widget(widget("d", &[UiFlags::Moving], (0, 0, 20, 20)));
    ui.set_hidden(c, true);
    ui.set_hidden(d, true);
    assert_eq!(ui.event_mouse_button(MouseButton::Left, false), vec![]);
    assert!(!has(&ui, a, UiFlags::Moving));
    assert!(!has(&ui, b, UiFlags::Moving));
    assert!(has(&ui, b, UiFlags::Checked));
    assert!(!has(&ui, c, UiFlags::Moving));
    assert!(has(&ui, c, UiFlags::Checked));
    assert!(!has(&ui, d, UiFlags::Moving));
    assert!(ui.get(c).unwrap().is_hidden());
    assert_eq!(order(&ui), vec![a, b]);
}

#[test]
fn a_widget_hidden_while_it_moves_is_not_dragged_after_the_release() {
    let (mut ui, _, child) = movable_in_parent();
    assert_eq!(ui.focused(), Some(child));
    assert!(has(&ui, child, UiFlags::Moving));
    ui.set_hidden(child, true);
    ui.event_mouse_button(MouseButton::Left, false);
    assert!(!has(&ui, child, UiFlags::Moving));
    assert_eq!(ui.focused(), Some(child));
    // the pointer only hovers now, and no longer over the hidden widget
    assert_eq!(point_at(&mut ui, 20, 15), vec![over(child, false)]);
    assert_eq!(corner(&ui, child), (10, 10));
    assert_eq!(point_at(&mut ui, 25, 15), vec![]);
    assert_eq!(corner(&ui, child), (10, 10));
}

#[test]
fn hidden_widgets_are_shown_again_and_removed() {
    let mut ui = Widgets::new();
    let a = ui.insert_widget(widget("a", &[], (0, 0, 20, 20)));
    let b = ui.insert_widget(widget("b", &[], (0, 0, 20, 20)));
    let c = ui.insert_widget(widget("c", &[], (0, 0, 20, 20)));
    ui.set_hidden(a, true);
    ui.set_hidden(b, true);
    ui.set_hidden(c, true);
    assert_eq!(order(&ui), vec![]);
    ui.set_hidden(b, false);
    assert_eq!(order(&ui), vec![b]);
    assert!(ui.remove_widget(a).is_some());
    assert!(!ui.contains(a));
    ui.set_hidden(c, false);
    assert_eq!(order(&ui), vec![b, c]);
    ui.set_hidden(c, true);
    ui.clear_widgets();
    assert!(!ui.contains(c));
    let d = ui.insert_widget(widget("d", &[UiFlags::Moving], (0, 0, 20, 20)));
    ui.set_hidden(d, true);
    ui.event_mouse_button(MouseButton::Left, false);
    assert!(!has(&ui, d, UiFlags::Moving));
}

#[test]
fn set_focus_tells_the_old_holder_first() {
    let mut ui = Widgets::new();
    let a = ui.insert_widget(widget("a", &[UiFlags::CanFocus], (0, 0, 20, 20)));
    let b = ui.insert_widget(widget("b", &[], (0, 0, 20, 20)));
    let mut out = Vec::new();
    ui.widget_set_focus(a, &mut out);
    assert_eq!(out, vec![focus(a, true)]);
    ui.widget_set_focus(b, &mut out);
    assert_eq!(out, vec![focus(a, true), focus(a, false), focus(b, true)]);
    assert_eq!(ui.focused(), Some(b));
    assert!(!has(&ui, a, UiFlags::IsFocused));
    assert!(has(&ui, b, UiFlags::IsFocused));
    assert_eq!(order(&ui), vec![a, b]);
    ui.widget_set_focus(a, &mut out);
    assert_eq!(order(&ui), vec![b, a]);
    assert!(has(&ui, a, UiFlags::IsFocused));
    assert!(!has(&ui, b, UiFlags::IsFocused));
}

#[test]
fn modifiers_are_noted_and_handed_on() {
    let mut ui = Widgets::new();
    let b = ui.insert_widget(
        widget("b", &[UiFlags::ClickAble, UiFlags::CanFocus], (10, 10, 20, 20)),
    );
    ui.event_modifiers(ModifiersState::from_bits(0b100));
    point_at(&mut ui, 15, 15);
    let due = ui.event_mouse_button(MouseButton::Middle, true);
    assert_eq!(
        due[1],
        Dispatch {
            target: b,
            event: CallBackEvent::MousePress {
                button: MouseButton::Middle,
                pressed: true,
                modifiers: ModifiersState::from_bits(0b100),
            },
        }
    );
}

#[test]
fn handle_event_routes_each_kind() {
    let mut ui = Widgets::new();
    let b = ui.insert_widget(
        widget("b", &[UiFlags::ClickAble, UiFlags::CanFocus], (10, 10, 20, 20)),
    );
    let (window, due) =
        ui.handle_event(&SystemEvent::MouseMoved { position: [15, 15], screensize: [800, 600] });
    assert_eq!(window, None);
    assert_eq!(due, vec![over(b, true)]);
    let (window, due) =
        ui.handle_event(&SystemEvent::Modifiers { modifiers: ModifiersState::from_bits(1) });
    assert_eq!(window, None);
    assert_eq!(due, vec![]);
    let (window, due) =
        ui.handle_event(&SystemEvent::MouseButton { button: MouseButton::Left, pressed: true });
    assert_eq!(window, None);
    assert_eq!(due.len(), 2);
    assert_eq!(due[0], focus(b, true));
    assert_eq!(ui.focused(), Some(b));
}

#[test]
fn commands_are_carried_out_in_order() {
    let mut ui = Widgets::new();
    let a = ui.insert_widget(widget("a", &[UiFlags::CanFocus], (0, 0, 20, 20)));
    let b = ui.insert_widget(widget("b", &[UiFlags::CanFocus], (0, 0, 20, 20)));
    let c = ui.insert_widget(widget("c", &[], (0, 0, 20, 20)));
    let mut commands = Commands::new();
    commands.push(Command::SetParent { child: b, parent: Some(a) });
    commands.push(Command::SetParent { child: a, parent: Some(b) });
    commands.push(Command::Focus(a));
    commands.push(Command::Focus(c));
    commands.push(Command::Focus(b));
    commands.push(Command::Raise(c));
    commands.push(Command::Remove(a));
    commands.push(Command::Focus(a));
    let due = ui.apply_commands(&commands);
    assert_eq!(due, vec![focus(a, true), focus(a, false), focus(b, true)]);
    assert!(!ui.contains(a));
    assert_eq!(ui.get(b).unwrap().get_parent(), None);
    assert_eq!(ui.focused(), Some(b));
    assert_eq!(order(&ui), vec![b, c]);
    let mut out = vec![focus(c, true)];
    ui.apply_command(Command::Raise(b), &mut out);
    assert_eq!(out, vec![focus(c, true)]);
    assert_eq!(order(&ui), vec![c, b]);
}

#[test]
fn find_widget_by_name_and_number() {
    let mut ui = Widgets::new();
    let a = ui.insert_widget(Widget::new(
        Identity::new("ok", 1),
        1,
        UiField::zeros(),
        WorldBounds::new(0, 0, 1, 1, 0),
    ));
    let b = ui.insert_widget(Widget::new(
        Identity::new("ok", 2),
        1,
        UiField::zeros(),
        WorldBounds::new(0, 0, 1, 1, 0),
    ));
    let c = ui.insert_widget(Widget::new(
        Identity::new("ok", 1),
        2,
        UiField::zeros(),
        WorldBounds::new(0, 0, 1, 1, 0),
    ));
    assert_eq!(ui.find_widget(&Identity::new("ok", 1)), Some(c));
    assert_eq!(ui.find_widget(&Identity::new("ok", 2)), Some(b));
    assert_eq!(ui.find_widget(&Identity::new("ok", 3)), None);
    assert_eq!(ui.find_widget(&Identity::new("cancel", 1)), None);
    // a shown widget is found before a hidden one
    ui.set_hidden(c, true);
    assert_eq!(ui.find_widget(&Identity::new("ok", 1)), Some(a));
    // and a hidden one is found if no shown one goes by the name
    ui.remove_widget(a);
    assert_eq!(ui.find_widget(&Identity::new("ok", 1)), Some(c));
    ui.set_hidden(b, true);
    assert_eq!(ui.find_widget(&Identity::new("ok", 2)), Some(b));
    ui.remove_widget(c);
    assert_eq!(ui.find_widget(&Identity::new("ok", 1)), None);
}

#[test]
fn handles_get_growing_generations() {
    let mut ui = Widgets::new();
    let a = ui.insert_widget(widget("a", &[], (0, 0, 1, 1)));
    let b = ui.insert_widget(widget("b", &[], (0, 0, 1, 1)));
    ui.remove_widget(a);
    ui.remove_widget(b);
    let c = ui.insert_widget(widget("c", &[], (0, 0, 1, 1)));
    assert_eq!(a.get_generation(), 1);
    assert_eq!(b.get_generation(), 2);
    assert_eq!(c.get_generation(), 3);
    assert!(!ui.contains(a));
    assert!(!ui.contains(b));
    assert!(ui.contains(c));
}
