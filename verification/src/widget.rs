//! What the arena holds for each widget.

use crate::bounds::{OriginalBounds, WidgetBounds, WorldBounds};
use crate::events::{CallBack, CallBackKey};
use crate::flags::{Actions, UiField, UiFlags};
use crate::handle::{Handle, Identity, Parent};
use std::collections::VecDeque;
use vstd::prelude::*;

verus! {

/// Marks a widget that is loaded but not shown.
#[derive(Clone, Copy, Debug, PartialEq, Eq, Structural, Hash)]
pub struct Hidden;

/// The part of a widget that callbacks see and may change: who it is, what
/// kind it is, its flags and where it is.
#[derive(Debug)]
pub struct Widget {
    pub identity: Identity,
    /// The kind of the widget: callbacks are registered per kind.
    pub kind: u32,
    pub actions: Actions,
    pub bounds: WidgetBounds,
    pub original_bounds: OriginalBounds,
}

/// A widget as a mathematical value.
pub struct WidgetView {
    pub identity: (Seq<char>, u64),
    pub kind: u32,
    pub actions: Set<UiFlags>,
    pub bounds: WorldBounds,
    pub original_bounds: WorldBounds,
}

impl View for Widget {
    type V = WidgetView;

    open spec fn view(&self) -> WidgetView {
        WidgetView {
            identity: self.identity@,
            kind: self.kind,
            actions: self.actions@,
            bounds: self.bounds.0,
            original_bounds: self.original_bounds.0,
        }
    }
}

impl Widget {
    /// A widget of the given kind, with the given flags, at `bounds`.
    pub fn new(identity: Identity, kind: u32, actions: UiField, bounds: WorldBounds) -> (widget:
        Widget)
        ensures
            widget@ == (WidgetView {
                identity: identity@,
                kind,
                actions: actions@,
                bounds,
                original_bounds: bounds,
            }),
    {
        Widget {
            identity,
            kind,
            actions: Actions(actions),
            bounds: WidgetBounds(bounds),
            original_bounds: OriginalBounds(bounds),
        }
    }

    /// Name and number of the widget.
    pub fn get_id(&self) -> (identity: &Identity)
        ensures
            identity@ == self@.identity,
    {
        &self.identity
    }

    /// The key under which the callbacks for this widget and the kind of
    /// event `callback` are registered.
    pub fn callback_key(&self, callback: CallBack) -> (key: CallBackKey)
        ensures
            key == (CallBackKey { kind: self@.kind, callback }),
    {
        CallBackKey { kind: self.kind, callback }
    }

    /// Whether the point lies in the widget's bounds.
    pub fn check_mouse_bounds(&self, mouse_pos: [i32; 2]) -> (inside: bool)
        ensures
            inside == self@.bounds.contains_point(mouse_pos[0] as int, mouse_pos[1] as int),
    {
        self.bounds.0.check_mouse_bounds(mouse_pos)
    }

    /// Where the widget is.
    pub fn get_bounds(&self) -> (bounds: WorldBounds)
        ensures
            bounds == self@.bounds,
    {
        self.bounds.0
    }

    /// Puts the widget's corner at `position` and keeps its size.
    pub fn set_position(&mut self, position: [i32; 2])
        ensures
            final(self)@ == (WidgetView {
                bounds: WorldBounds { x: position[0], y: position[1], ..old(self)@.bounds },
                ..old(self)@
            }),
    {
        self.bounds.0.x = position[0];
        self.bounds.0.y = position[1];
    }
}

/// A widget in the arena: the widget itself and its place in the tree.
#[derive(Debug)]
pub struct WidgetNode {
    /// The handle under which the arena holds this node.
    pub id: Handle,
    pub parent: Option<Parent>,
    /// The children, from the one drawn first to the one drawn last.
    pub children: VecDeque<Handle>,
    pub hidden: Option<Hidden>,
    pub widget: Widget,
}

/// A node as a mathematical value.
pub struct NodeView {
    pub id: Handle,
    pub parent: Option<Handle>,
    pub children: Seq<Handle>,
    pub hidden: bool,
    pub widget: WidgetView,
}

impl View for WidgetNode {
    type V = NodeView;

    open spec fn view(&self) -> NodeView {
        NodeView {
            id: self.id,
            parent: match self.parent {
                Some(p) => Some(p.0),
                None => None,
            },
            children: self.children@,
            hidden: self.hidden.is_some(),
            widget: self.widget@,
        }
    }
}

impl NodeView {
    /// Whether `flag` is set on the widget.
    pub open spec fn has(self, flag: UiFlags) -> bool {
        self.widget.actions.contains(flag)
    }

    /// The node with `flag` set.
    pub open spec fn with_flag(self, flag: UiFlags) -> NodeView {
        NodeView {
            widget: WidgetView { actions: self.widget.actions.insert(flag), ..self.widget },
            ..self
        }
    }

    /// The node with `flag` cleared.
    pub open spec fn without_flag(self, flag: UiFlags) -> NodeView {
        NodeView {
            widget: WidgetView { actions: self.widget.actions.remove(flag), ..self.widget },
            ..self
        }
    }

    /// Whether the point lies in the widget's bounds.
    pub open spec fn covers(self, p: (i32, i32)) -> bool {
        self.widget.bounds.contains_point(p.0 as int, p.1 as int)
    }
}

impl WidgetNode {
    /// The handle of the parent, if the widget has one.
    pub fn get_parent(&self) -> (parent: Option<Handle>)
        ensures
            parent == self@.parent,
    {
        match self.parent {
            Some(p) => Some(p.0),
            None => None,
        }
    }

    /// Whether `flag` is set on the widget.
    pub fn has(&self, flag: UiFlags) -> (on: bool)
        ensures
            on == self@.has(flag),
    {
        self.widget.actions.is_set(flag)
    }

    /// Whether the widget is loaded but not shown.
    pub fn is_hidden(&self) -> (hidden: bool)
        ensures
            hidden == self@.hidden,
    {
        self.hidden.is_some()
    }
}

} // verus!
