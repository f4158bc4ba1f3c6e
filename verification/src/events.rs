//! The plain values that describe input and the callbacks it leads to.

use crate::handle::Handle;
use vstd::prelude::*;

verus! {

/// A button of the pointer.
#[derive(Clone, Copy, Debug, PartialEq, Eq, Structural, Hash)]
pub enum MouseButton {
    Left,
    Right,
    Middle,
    Other(u16),
}

/// The modifier keys that are held down, one bit each.
#[derive(Clone, Copy, Debug, PartialEq, Eq, Structural, Hash)]
pub struct ModifiersState {
    pub bits: u32,
}

impl ModifiersState {
    /// No modifier key is held down.
    pub fn empty() -> (modifiers: ModifiersState)
        ensures
            modifiers.bits == 0,
    {
        ModifiersState { bits: 0 }
    }

    pub fn from_bits(bits: u32) -> (modifiers: ModifiersState)
        ensures
            modifiers.bits == bits,
    {
        ModifiersState { bits }
    }
}

impl Default for ModifiersState {
    fn default() -> (modifiers: ModifiersState)
        ensures
            modifiers.bits == 0,
    {
        ModifiersState { bits: 0 }
    }
}

/// The kinds of event a callback can be registered for.
#[derive(Clone, Copy, Debug, PartialEq, Eq, Structural, Hash)]
pub enum CallBack {
    MousePress,
    FocusChange,
    PositionChange,
    MouseOver,
}

/// What a callback is registered under: the kind of widget and the kind of
/// event.
#[derive(Clone, Copy, Debug, PartialEq, Eq, Structural, Hash)]
pub struct CallBackKey {
    pub kind: u32,
    pub callback: CallBack,
}

/// An event as a callback receives it.
#[derive(Clone, Copy, Debug, PartialEq, Eq, Structural, Hash)]
pub enum CallBackEvent {
    /// A button went down or up over the widget.
    MousePress { button: MouseButton, pressed: bool, modifiers: ModifiersState },
    /// The widget gained or lost the focus.
    FocusChange { focused: bool },
    /// The widget, or a widget above it in the tree, was moved.
    PositionChange,
    /// The pointer came over the widget or left it.
    MouseOver { over: bool },
}

impl CallBackEvent {
    /// The kind of the event.
    pub open spec fn callback(self) -> CallBack {
        match self {
            CallBackEvent::MousePress { .. } => CallBack::MousePress,
            CallBackEvent::FocusChange { .. } => CallBack::FocusChange,
            CallBackEvent::PositionChange => CallBack::PositionChange,
            CallBackEvent::MouseOver { .. } => CallBack::MouseOver,
        }
    }

    /// The kind of the event.
    pub fn kind(&self) -> (callback: CallBack)
        ensures
            callback == self.callback(),
    {
        match self {
            CallBackEvent::MousePress { .. } => CallBack::MousePress,
            CallBackEvent::FocusChange { .. } => CallBack::FocusChange,
            CallBackEvent::PositionChange => CallBack::PositionChange,
            CallBackEvent::MouseOver { .. } => CallBack::MouseOver,
        }
    }
}

/// A callback that is due: the widget it is for and the event it is about.
#[derive(Clone, Copy, Debug, PartialEq, Eq, Structural, Hash)]
pub struct Dispatch {
    pub target: Handle,
    pub event: CallBackEvent,
}

/// What the pointer's move asks of the window: to be moved by this much.
#[derive(Clone, Copy, Debug, PartialEq, Eq, Structural, Hash)]
pub struct WindowMove {
    pub dx: i64,
    pub dy: i64,
}

impl CallBack {
    /// A number for each kind of event.
    pub open spec fn ordinal(self) -> u64 {
        match self {
            CallBack::MousePress => 0,
            CallBack::FocusChange => 1,
            CallBack::PositionChange => 2,
            CallBack::MouseOver => 3,
        }
    }
}

impl CallBackKey {
    /// The key as one number: different keys have different numbers.
    pub open spec fn code_of(self) -> u64 {
        (self.kind * 4 + self.callback.ordinal()) as u64
    }

    /// The key as one number.
    pub fn code(&self) -> (code: u64)
        ensures
            code == self.code_of(),
    {
        let ordinal: u64 = match self.callback {
            CallBack::MousePress => 0,
            CallBack::FocusChange => 1,
            CallBack::PositionChange => 2,
            CallBack::MouseOver => 3,
        };
        self.kind as u64 * 4 + ordinal
    }

    /// Different keys have different numbers.
    pub proof fn law_codes_differ(a: CallBackKey, b: CallBackKey)
        ensures
            a.code_of() == b.code_of() <==> a == b,
    {
    }
}

/// A change of the tree that a callback asks for. It is carried out when
/// the callbacks of the event have run.
#[derive(Clone, Copy, Debug, PartialEq, Eq, Structural, Hash)]
pub enum Command {
    /// Give `child` the parent `parent`, or none.
    SetParent { child: Handle, parent: Option<Handle> },
    /// Give the focus to the widget.
    Focus(Handle),
    /// Remove the widget.
    Remove(Handle),
    /// Raise the widget to the top.
    Raise(Handle),
}

/// The changes of the tree that callbacks have asked for, in the order in
/// which they asked.
pub struct Commands {
    pub(crate) queue: Vec<Command>,
}

impl View for Commands {
    type V = Seq<Command>;

    closed spec fn view(&self) -> Seq<Command> {
        self.queue@
    }
}

impl Commands {
    /// No command.
    pub fn new() -> (commands: Commands)
        ensures
            commands@ == Seq::<Command>::empty(),
    {
        Commands { queue: Vec::new() }
    }

    /// Adds `command` behind the others.
    pub fn push(&mut self, command: Command)
        ensures
            final(self)@ == old(self)@.push(command),
    {
        self.queue.push(command);
    }

    /// How many commands wait.
    pub fn len(&self) -> (len: usize)
        ensures
            len == self@.len(),
    {
        self.queue.len()
    }

    /// The command at place `index`, or `None` beyond the last.
    pub fn get(&self, index: usize) -> (command: Option<Command>)
        ensures
            command == if index < self@.len() {
                Some(self@[index as int])
            } else {
                None
            },
    {
        if index < self.queue.len() {
            Some(self.queue[index])
        } else {
            None
        }
    }

    /// Takes all commands out, in their order, and leaves none.
    pub fn take(&mut self) -> (taken: Commands)
        ensures
            taken@ == old(self)@,
            final(self)@ == Seq::<Command>::empty(),
    {
        let mut queue: Vec<Command> = Vec::new();
        queue.append(&mut self.queue);
        Commands { queue }
    }
}

/// An event of the input, in plain values.
#[derive(Clone, Copy, Debug, PartialEq, Eq)]
pub enum SystemEvent {
    /// A button of the pointer went down or up.
    MouseButton { button: MouseButton, pressed: bool },
    /// The pointer moved to `position` in a viewport of the size
    /// `screensize`.
    MouseMoved { position: [i32; 2], screensize: [i32; 2] },
    /// Other modifier keys are held down now.
    Modifiers { modifiers: ModifiersState },
}

} // verus!
