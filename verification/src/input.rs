//! Buttons, the keys that drive them, and the input that a key amounts to.

use vstd::prelude::*;

verus! {

/// One of the two buttons a player has.
#[derive(Clone, Copy, PartialEq, Eq, Structural, Debug)]
pub enum Button {
    One,
    Two,
}

/// A button changing state: pressed (`is_down`) or released.
#[derive(Clone, Copy, PartialEq, Eq, Structural, Debug)]
pub struct InputEvent {
    pub button: Button,
    pub is_down: bool,
}

/// Which key drives which button. Keys are named by the numeric code that
/// the windowing layer gives them.
#[derive(Clone, Copy, PartialEq, Eq, Structural, Debug)]
pub struct KeyMapping {
    pub button_one: u32,
    pub button_two: u32,
}

impl KeyMapping {
    /// The button that `keycode` drives, if any. A key bound to both buttons
    /// drives the second.
    pub open spec fn spec_button(self, keycode: u32) -> Option<Button> {
        if keycode == self.button_two {
            Some(Button::Two)
        } else if keycode == self.button_one {
            Some(Button::One)
        } else {
            None
        }
    }

    /// The button that `keycode` drives, if any.
    pub fn button(&self, keycode: u32) -> (b: Option<Button>)
        ensures
            b == self.spec_button(keycode),
    {
        if keycode == self.button_two {
            Some(Button::Two)
        } else if keycode == self.button_one {
            Some(Button::One)
        } else {
            None
        }
    }
}

/// The mapping that binds key `btn1` to the first button and key `btn2` to the second.
pub fn new_key_mapping(btn1: u32, btn2: u32) -> (m: KeyMapping)
    ensures
        m.button_one == btn1,
        m.button_two == btn2,
{
    KeyMapping { button_one: btn1, button_two: btn2 }
}

/// The input event, if any, that a key going down or up amounts to: none for
/// an unbound key, and none for the repeats that a held key keeps sending.
pub open spec fn spec_key_event(
    mapping: KeyMapping,
    keycode: u32,
    is_down: bool,
    repeat: bool,
) -> Option<InputEvent> {
    if is_down && repeat {
        None
    } else {
        match mapping.spec_button(keycode) {
            Some(button) => Some(InputEvent { button, is_down }),
            None => None,
        }
    }
}

/// The input event, if any, that a key going down or up amounts to.
pub fn key_event(mapping: &KeyMapping, keycode: u32, is_down: bool, repeat: bool) -> (e: Option<
    InputEvent,
>)
    ensures
        e == spec_key_event(*mapping, keycode, is_down, repeat),
{
    if is_down && repeat {
        return None;
    }
    match mapping.button(keycode) {
        Some(button) => Some(InputEvent { button, is_down }),
        None => None,
    }
}

} // verus!
