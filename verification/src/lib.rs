//! A retained tree of interactive widgets and the router that decides which
//! widget an input event is meant for.
//!
//! The widgets live in an arena and are named by [`Handle`]s. [`Widgets`] keeps
//! the tree, the stacking order and the pointer state, and turns each input
//! event into a new state and an ordered list of callbacks that are due.
//! [`UI`] adds the two callback tables and runs what is due. [`InputState`]
//! keeps track of the keys and buttons that are held down.

pub mod bounds;
pub mod error;
pub mod events;
pub mod flags;
pub mod graph;
pub mod handle;
pub mod input;
pub mod laws;
pub mod model;
pub mod store;
pub mod user_interface;
pub mod widget;
pub mod widgets;

pub use bounds::{OriginalBounds, WidgetBounds, WorldBounds};
pub use error::OtherError;
pub use events::{
    CallBack, CallBackEvent, CallBackKey, Command, Commands, Dispatch, ModifiersState,
    MouseButton, SystemEvent, WindowMove,
};
pub use flags::{Actions, UiField, UiFlags};
pub use graph::GraphError;
pub use handle::{Handle, Identity, Parent};
pub use input::{Button, InputState};
pub use model::Permission;
pub use store::WidgetStore;
pub use user_interface::UI;
pub use widget::{Hidden, Widget, WidgetNode};
pub use widgets::Widgets;
