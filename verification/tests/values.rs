use gui_core::{
    Actions, CallBack, CallBackEvent, CallBackKey, Command, Commands, Handle, Identity,
    ModifiersState, MouseButton, OriginalBounds, OtherError, Parent, UiField, UiFlags, Widget,
    WidgetBounds, WidgetStore, WorldBounds,
};

const ALL_FLAGS: [UiFlags; 16] = [
    UiFlags::IsFocused,
    UiFlags::CanFocus,
    UiFlags::MouseOver,
    UiFlags::MoveAble,
    UiFlags::Moving,
    UiFlags::CanClickBehind,
    UiFlags::AlwaysUseable,
    UiFlags::Minimized,
    UiFlags::Checked,
    UiFlags::FocusClick,
    UiFlags::IsPassword,
    UiFlags::CanMoveWindow,
    UiFlags::Clicked,
    UiFlags::ClickAble,
    UiFlags::AllowChildren,
    UiFlags::InnerScroll,
];

fn plain_widget(name: &str, id: u64) -> Widget {
    Widget::new(Identity::new(name, id), 1, UiField::zeros(), WorldBounds::new(0, 0, 10, 10, 0))
}

#[test]
fn flag_bits_are_their_positions() {
    for (i, flag) in ALL_FLAGS.iter().enumerate() {
        assert_eq!(flag.index() as usize, i);
        assert_eq!(flag.mask(), 1u16 << i);
    }
    assert_eq!(UiFlags::ClickAble.mask(), 0x2000);
    assert_eq!(UiFlags::InnerScroll.mask(), 0x8000);
}

#[test]
fn field_set_get_clear() {
    let mut field = UiField::zeros();
    assert_eq!(field.0, 0);
    for flag in ALL_FLAGS.iter() {
        assert!(!field.get(*flag));
    }
    field.set(UiFlags::CanFocus);
    field.set(UiFlags::ClickAble);
    assert_eq!(field.0, 0x2002);
    assert!(field.get(UiFlags::CanFocus));
    assert!(field.get(UiFlags::ClickAble));
    assert!(!field.get(UiFlags::IsFocused));
    field.set(UiFlags::CanFocus);
    assert_eq!(field.0, 0x2002);
    field.clear(UiFlags::CanFocus);
    assert_eq!(field.0, 0x2000);
    field.clear(UiFlags::CanFocus);
    assert_eq!(field.0, 0x2000);
}

#[test]
fn field_toggle_flips_one_bit() {
    let mut field = UiField(0x0005);
    field.toggle(UiFlags::MouseOver);
    assert_eq!(field.0, 0x0001);
    field.toggle(UiFlags::MouseOver);
    assert_eq!(field.0, 0x0005);
}

#[test]
fn field_each_flag_is_independent() {
    for flag in ALL_FLAGS.iter() {
        let mut field = UiField::zeros();
        field.set(*flag);
        for other in ALL_FLAGS.iter() {
            assert_eq!(field.get(*other), other == flag);
        }
        let mut full = UiField(0xffff);
        full.clear(*flag);
        for other in ALL_FLAGS.iter() {
            assert_eq!(full.get(*other), other != flag);
        }
    }
}

#[test]
fn field_default_is_empty() {
    assert_eq!(UiField::default(), UiField(0));
    assert_eq!(Actions::default(), Actions(UiField(0)));
}

#[test]
fn actions_set_is_set_clear() {
    let mut actions = Actions(UiField::zeros());
    assert!(!actions.is_set(UiFlags::Moving));
    actions.set(UiFlags::Moving);
    assert!(actions.is_set(UiFlags::Moving));
    assert_eq!(actions.get().0, 0x0010);
    actions.get_mut().set(UiFlags::Checked);
    assert!(actions.is_set(UiFlags::Checked));
    actions.clear(UiFlags::Moving);
    assert!(!actions.is_set(UiFlags::Moving));
    assert_eq!(*actions.get(), UiField(0x0100));
}

#[test]
fn handle_default_is_dangling() {
    let handle = Handle::default();
    assert!(handle.is_dangling());
    assert_eq!(handle.get_key(), usize::MAX);
    assert_eq!(handle.get_generation(), 0);
    let other = Handle { key: 3, generation: 1 };
    assert!(!other.is_dangling());
    assert_eq!(other.get_key(), 3);
    assert_eq!(other, Handle { key: 3, generation: 1 });
    assert_ne!(other, Handle { key: 3, generation: 2 });
}

#[test]
fn parent_gives_its_handle() {
    let handle = Handle { key: 7, generation: 4 };
    let parent = Parent(handle);
    assert_eq!(parent.get_id(), handle);
    assert_eq!(parent.get_key(), 7);
    assert!(Parent::default().get_id().is_dangling());
}

#[test]
fn identity_new_keeps_name_and_id() {
    let identity = Identity::new("button", 42);
    assert_eq!(identity.name, "button");
    assert_eq!(identity.id, 42);
    assert!(identity.same_as(&Identity::new("button", 42)));
    assert!(!identity.same_as(&Identity::new("button", 43)));
    assert!(!identity.same_as(&Identity::new("label", 42)));
}

#[test]
fn other_error_keeps_its_message() {
    let error = OtherError::new("failed to upload image");
    assert_eq!(error.message(), "failed to upload image");
    assert_eq!(error, OtherError::new("failed to upload image"));
    assert_ne!(error, OtherError::new("other"));
}

#[test]
fn bounds_cover_from_corner_up_to_far_edge() {
    let bounds = WorldBounds::new(10, 10, 20, 20, 0);
    assert!(bounds.check_mouse_bounds([15, 15]));
    assert!(bounds.check_mouse_bounds([10, 10]));
    assert!(bounds.check_mouse_bounds([29, 29]));
    assert!(!bounds.check_mouse_bounds([30, 15]));
    assert!(!bounds.check_mouse_bounds([15, 30]));
    assert!(!bounds.check_mouse_bounds([9, 15]));
    assert!(!bounds.check_mouse_bounds([15, 9]));
}

#[test]
fn bounds_at_the_ends_of_the_range() {
    let bounds = WorldBounds::new(i32::MAX - 1, i32::MIN, i32::MAX, i32::MAX, 0);
    assert!(bounds.check_mouse_bounds([i32::MAX, i32::MIN]));
    assert!(!bounds.check_mouse_bounds([i32::MAX - 2, i32::MIN]));
    let empty = WorldBounds::new(0, 0, 0, 0, 0);
    assert!(!empty.check_mouse_bounds([0, 0]));
}

#[test]
fn bounds_move_is_all_or_nothing() {
    let parent = WorldBounds::new(0, 0, 100, 100, 0);
    let mut bounds = WorldBounds::new(10, 10, 20, 20, 3);
    assert!(!bounds.can_move(&parent, -20, 0));
    assert!(!bounds.try_move(&parent, -20, 0));
    assert_eq!(bounds, WorldBounds::new(10, 10, 20, 20, 3));
    assert!(bounds.can_move(&parent, -5, 0));
    assert!(bounds.try_move(&parent, -5, 0));
    assert_eq!(bounds, WorldBounds::new(5, 10, 20, 20, 3));
    // onto the edges exactly
    assert!(bounds.try_move(&parent, -5, -10));
    assert_eq!(bounds, WorldBounds::new(0, 0, 20, 20, 3));
    assert!(bounds.try_move(&parent, 80, 80));
    assert_eq!(bounds, WorldBounds::new(80, 80, 20, 20, 3));
    // one past each edge
    assert!(!bounds.try_move(&parent, 1, 0));
    assert!(!bounds.try_move(&parent, 0, 1));
    assert!(!bounds.try_move(&parent, -81, 0));
    assert!(!bounds.try_move(&parent, 0, -81));
    assert_eq!(bounds, WorldBounds::new(80, 80, 20, 20, 3));
}

#[test]
fn bounds_viewport_starts_at_origin() {
    assert_eq!(WorldBounds::of_viewport([800, 600]), WorldBounds::new(0, 0, 800, 600, 0));
    assert_eq!(WorldBounds::default(), WorldBounds::new(0, 0, 0, 0, 0));
}

#[test]
fn widget_bounds_get_and_get_mut() {
    let mut bounds = WidgetBounds(WorldBounds::new(1, 2, 3, 4, 5));
    assert_eq!(*bounds.get(), WorldBounds::new(1, 2, 3, 4, 5));
    bounds.get_mut().x = 9;
    assert_eq!(bounds.get().x, 9);
    let mut original = OriginalBounds(WorldBounds::new(1, 2, 3, 4, 5));
    original.get_mut().height = 7;
    assert_eq!(*original.get(), WorldBounds::new(1, 2, 3, 7, 5));
    assert_eq!(WidgetBounds::default().0, WorldBounds::default());
    assert_eq!(OriginalBounds::default().0, WorldBounds::default());
}

#[test]
fn widget_new_and_set_position() {
    let mut field = UiField::zeros();
    field.set(UiFlags::ClickAble);
    let mut widget =
        Widget::new(Identity::new("w", 1), 5, field, WorldBounds::new(10, 10, 20, 20, 1));
    assert_eq!(widget.kind, 5);
    assert_eq!(widget.get_id().name, "w");
    assert_eq!(widget.get_bounds(), WorldBounds::new(10, 10, 20, 20, 1));
    assert_eq!(widget.original_bounds.0, WorldBounds::new(10, 10, 20, 20, 1));
    assert!(widget.check_mouse_bounds([15, 15]));
    assert_eq!(
        widget.callback_key(CallBack::MouseOver),
        CallBackKey { kind: 5, callback: CallBack::MouseOver }
    );
    widget.set_position([50, 60]);
    assert_eq!(widget.get_bounds(), WorldBounds::new(50, 60, 20, 20, 1));
    assert_eq!(widget.original_bounds.0, WorldBounds::new(10, 10, 20, 20, 1));
    assert!(!widget.check_mouse_bounds([15, 15]));
}

#[test]
fn callback_key_codes_differ() {
    let kinds = [
        CallBack::MousePress,
        CallBack::FocusChange,
        CallBack::PositionChange,
        CallBack::MouseOver,
    ];
    let mut seen: Vec<u64> = Vec::new();
    for kind in [0u32, 1, 2, u32::MAX] {
        for callback in kinds.iter() {
            let code = (CallBackKey { kind, callback: *callback }).code();
            assert!(!seen.contains(&code));
            seen.push(code);
        }
    }
    assert_eq!((CallBackKey { kind: 3, callback: CallBack::PositionChange }).code(), 14);
}

#[test]
fn callback_event_kinds() {
    let press = CallBackEvent::MousePress {
        button: MouseButton::Left,
        pressed: true,
        modifiers: ModifiersState::empty(),
    };
    assert_eq!(press.kind(), CallBack::MousePress);
    assert_eq!((CallBackEvent::FocusChange { focused: true }).kind(), CallBack::FocusChange);
    assert_eq!(CallBackEvent::PositionChange.kind(), CallBack::PositionChange);
    assert_eq!((CallBackEvent::MouseOver { over: false }).kind(), CallBack::MouseOver);
    assert_eq!(ModifiersState::from_bits(4).bits, 4);
    assert_eq!(ModifiersState::default().bits, 0);
}

#[test]
fn commands_queue_in_order() {
    let mut commands = Commands::new();
    assert_eq!(commands.len(), 0);
    assert_eq!(commands.get(0), None);
    let a = Handle { key: 0, generation: 1 };
    let b = Handle { key: 1, generation: 2 };
    commands.push(Command::Focus(a));
    commands.push(Command::Remove(b));
    assert_eq!(commands.len(), 2);
    assert_eq!(commands.get(0), Some(Command::Focus(a)));
    assert_eq!(commands.get(1), Some(Command::Remove(b)));
    assert_eq!(commands.get(2), None);
    let taken = commands.take();
    assert_eq!(commands.len(), 0);
    assert_eq!(taken.len(), 2);
    assert_eq!(taken.get(1), Some(Command::Remove(b)));
}

#[test]
fn store_insert_get_remove() {
    let mut store = WidgetStore::with_capacity(4);
    let a = store.insert(plain_widget("a", 1));
    let b = store.insert(plain_widget("b", 2));
    assert_ne!(a, b);
    assert!(!a.is_dangling());
    assert!(store.contains(a));
    assert!(store.contains(b));
    assert_eq!(store.get(a).unwrap().id, a);
    assert_eq!(store.get(a).unwrap().widget.identity.name, "a");
    assert_eq!(store.get(b).unwrap().widget.identity.id, 2);
    assert!(store.get(a).unwrap().parent.is_none());
    assert!(store.get(a).unwrap().children.is_empty());
    let removed = store.remove(a).unwrap();
    assert_eq!(removed.widget.identity.name, "a");
    assert!(!store.contains(a));
    assert!(store.get(a).is_none());
    assert!(store.remove(a).is_none());
    assert!(store.contains(b));
}

#[test]
fn store_stale_handle_finds_nothing() {
    let mut store = WidgetStore::with_capacity(0);
    let a = store.insert(plain_widget("a", 1));
    store.remove(a);
    let b = store.insert(plain_widget("b", 2));
    // the slot is used again, the generation is not
    assert_eq!(a.get_key(), b.get_key());
    assert_ne!(a.get_generation(), b.get_generation());
    assert!(!store.contains(a));
    assert!(store.get(a).is_none());
    assert!(store.get_mut(a).is_none());
    assert_eq!(store.get(b).unwrap().widget.identity.name, "b");
}

#[test]
fn store_dangling_handle_finds_nothing() {
    let mut store = WidgetStore::with_capacity(1);
    let a = store.insert(plain_widget("a", 1));
    assert!(!store.contains(Handle::default()));
    assert!(store.get(Handle::default()).is_none());
    assert!(store.remove(Handle::default()).is_none());
    assert!(store.contains(a));
    assert!(!store.contains(Handle { key: a.get_key(), generation: 0 }));
    assert!(!store.contains(Handle { key: a.get_key() + 1, generation: a.get_generation() }));
}

#[test]
fn store_get_mut_changes_the_widget() {
    let mut store = WidgetStore::with_capacity(1);
    let a = store.insert(plain_widget("a", 1));
    let b = store.insert(plain_widget("b", 2));
    store.get_mut(a).unwrap().kind = 9;
    store.get_mut(a).unwrap().actions.set(UiFlags::Checked);
    assert_eq!(store.get(a).unwrap().widget.kind, 9);
    assert!(store.get(a).unwrap().has(UiFlags::Checked));
    assert_eq!(store.get(b).unwrap().widget.kind, 1);
    assert!(!store.get(b).unwrap().has(UiFlags::Checked));
}

#[test]
fn store_clear_empties_it() {
    let mut store = WidgetStore::with_capacity(1);
    let a = store.insert(plain_widget("a", 1));
    let b = store.insert(plain_widget("b", 2));
    store.clear();
    assert!(!store.contains(a));
    assert!(!store.contains(b));
    let c = store.insert(plain_widget("c", 3));
    assert!(store.contains(c));
    assert!(!store.contains(a));
    assert_ne!(c, a);
}
