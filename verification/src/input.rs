//! Which keys and buttons are held down, and which actions that means.
//!
//! Keys, scan codes and buttons are plain numbers here. A binding is a list
//! of buttons that must all be down, and an action has a list of bindings
//! of which one is enough.

use std::collections::HashSet;
use vstd::prelude::*;

verus! {

broadcast use vstd::std_specs::hash::group_hash_axioms;

/// A key by its code, a key by its scan code, or a button of the pointer.
#[derive(Clone, Copy, Debug, PartialEq, Eq, Structural, Hash)]
pub enum Button {
    Key(u32),
    ScanCode(u32),
    Mouse(u32),
}

/// The keys and buttons that are held down.
pub struct InputState {
    /// The keys that are down, by their code.
    keys: HashSet<u32>,
    /// The keys that are down, by their scan code.
    scan_codes: HashSet<u32>,
    /// The buttons of the pointer that are down.
    mouse_buttons: HashSet<u32>,
}

/// What is held down, as three sets.
pub struct InputView {
    pub keys: Set<u32>,
    pub scan_codes: Set<u32>,
    pub mouse_buttons: Set<u32>,
}

impl InputView {
    /// Whether `button` is down.
    pub open spec fn down(self, button: Button) -> bool {
        match button {
            Button::Key(key) => self.keys.contains(key),
            Button::ScanCode(scan_code) => self.scan_codes.contains(scan_code),
            Button::Mouse(button) => self.mouse_buttons.contains(button),
        }
    }

    /// Whether every button of `binding` is down.
    pub open spec fn binding_down(self, binding: Seq<Button>) -> bool {
        forall|i: int| 0 <= i < binding.len() ==> self.down(#[trigger] binding[i])
    }

    /// Whether one of `bindings` has all its buttons down.
    pub open spec fn action_down(self, bindings: Seq<Vec<Button>>) -> bool {
        exists|i: int| 0 <= i < bindings.len() && self.binding_down((#[trigger] bindings[i])@)
    }

    /// The number that an axis emulated by two buttons shows: 1 if only the
    /// button of its positive end is down, -1 if only that of its negative
    /// end is, 0 if both or none are.
    pub open spec fn emulated_axis(self, pos: Button, neg: Button) -> int {
        if self.down(pos) && !self.down(neg) {
            1
        } else if !self.down(pos) && self.down(neg) {
            -1
        } else {
            0
        }
    }
}

impl View for InputState {
    type V = InputView;

    closed spec fn view(&self) -> InputView {
        InputView {
            keys: self.keys@,
            scan_codes: self.scan_codes@,
            mouse_buttons: self.mouse_buttons@,
        }
    }
}

impl InputState {
    /// Nothing is held down.
    pub fn new() -> (state: InputState)
        ensures
            state@.keys == Set::<u32>::empty(),
            state@.scan_codes == Set::<u32>::empty(),
            state@.mouse_buttons == Set::<u32>::empty(),
    {
        InputState { keys: HashSet::new(), scan_codes: HashSet::new(), mouse_buttons: HashSet::new() }
    }

    /// A key went down or up: its code and its scan code are held down from
    /// now on, or no longer.
    pub fn key_event(&mut self, key_code: u32, scan_code: u32, pressed: bool)
        ensures
            final(self)@ == (InputView {
                keys: if pressed {
                    old(self)@.keys.insert(key_code)
                } else {
                    old(self)@.keys.remove(key_code)
                },
                scan_codes: if pressed {
                    old(self)@.scan_codes.insert(scan_code)
                } else {
                    old(self)@.scan_codes.remove(scan_code)
                },
                ..old(self)@
            }),
    {
        if pressed {
            self.keys.insert(key_code);
            self.scan_codes.insert(scan_code);
        } else {
            self.keys.remove(&key_code);
            self.scan_codes.remove(&scan_code);
        }
    }

    /// A button of the pointer went down or up.
    pub fn mouse_event(&mut self, button: u32, pressed: bool)
        ensures
            final(self)@ == (InputView {
                mouse_buttons: if pressed {
                    old(self)@.mouse_buttons.insert(button)
                } else {
                    old(self)@.mouse_buttons.remove(button)
                },
                ..old(self)@
            }),
    {
        if pressed {
            self.mouse_buttons.insert(button);
        } else {
            self.mouse_buttons.remove(&button);
        }
    }

    /// The window lost the focus: nothing is held down any more.
    pub fn focus_lost(&mut self)
        ensures
            final(self)@ == (InputView {
                keys: Set::empty(),
                scan_codes: Set::empty(),
                mouse_buttons: Set::empty(),
            }),
    {
        self.keys.clear();
        self.scan_codes.clear();
        self.mouse_buttons.clear();
    }

    pub fn is_key_down(&self, key: u32) -> (down: bool)
        ensures
            down == self@.keys.contains(key),
    {
        self.keys.contains(&key)
    }

    pub fn is_scan_code_down(&self, scan_code: u32) -> (down: bool)
        ensures
            down == self@.scan_codes.contains(scan_code),
    {
        self.scan_codes.contains(&scan_code)
    }

    pub fn is_mouse_button_down(&self, button: u32) -> (down: bool)
        ensures
            down == self@.mouse_buttons.contains(button),
    {
        self.mouse_buttons.contains(&button)
    }

    pub fn is_button_down(&self, button: Button) -> (down: bool)
        ensures
            down == self@.down(button),
    {
        match button {
            Button::Key(key) => self.is_key_down(key),
            Button::ScanCode(scan_code) => self.is_scan_code_down(scan_code),
            Button::Mouse(button) => self.is_mouse_button_down(button),
        }
    }

    /// Whether every button of `binding` is down.
    pub fn is_binding_down(&self, binding: &Vec<Button>) -> (down: bool)
        ensures
            down == self@.binding_down(binding@),
    {
        let mut i: usize = 0;
        while i < binding.len()
            invariant
                i <= binding@.len(),
                forall|j: int| 0 <= j < i ==> self@.down(#[trigger] binding@[j]),
            decreases binding@.len() - i,
        {
            if !self.is_button_down(binding[i]) {
                return false;
            }
            i += 1;
        }
        true
    }

    /// Whether one of `bindings`, the bindings of an action, has all its
    /// buttons down.
    pub fn is_action_down(&self, bindings: &Vec<Vec<Button>>) -> (down: bool)
        ensures
            down == self@.action_down(bindings@),
    {
        let mut i: usize = 0;
        while i < bindings.len()
            invariant
                i <= bindings@.len(),
                forall|j: int| 0 <= j < i ==> !self@.binding_down((#[trigger] bindings@[j])@),
            decreases bindings@.len() - i,
        {
            if self.is_binding_down(&bindings[i]) {
                return true;
            }
            i += 1;
        }
        false
    }

    /// The number that an axis emulated by two buttons shows.
    pub fn emulated_axis_value(&self, pos: Button, neg: Button) -> (value: i8)
        ensures
            value == self@.emulated_axis(pos, neg),
    {
        match (self.is_button_down(pos), self.is_button_down(neg)) {
            (true, false) => 1,
            (false, true) => -1,
            _ => 0,
        }
    }
}

} // verus!
