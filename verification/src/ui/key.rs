//! The keys of the interface, read from key presses.

use vstd::prelude::*;
use crate::ui::input::{alt_only, control_only, input_of_key, is_alt_only, is_control_only, Input, KeyCode, KeyPress};

verus! {

/// A key of the interface.
#[derive(Debug, PartialEq, Eq, Structural, Clone, Copy)]
pub enum Key {
    Enter,
    Left,
    Right,
    Up,
    Down,
    PageUp,
    PageDown,
    Esc,
    Char(char),
    Ctrl(char),
    Alt(char),
    Unknown,
}

/// The key a key press stands for, by the same rule as for inputs.
pub open spec fn key_of_press(k: KeyPress) -> Key {
    match k.code {
        KeyCode::Enter => Key::Enter,
        KeyCode::Left => Key::Left,
        KeyCode::Right => Key::Right,
        KeyCode::Up => Key::Up,
        KeyCode::Down => Key::Down,
        KeyCode::PageUp => Key::PageUp,
        KeyCode::PageDown => Key::PageDown,
        KeyCode::Esc => Key::Esc,
        KeyCode::Char(c) => if alt_only(k.modifiers) {
            Key::Alt(c)
        } else if control_only(k.modifiers) {
            Key::Ctrl(c)
        } else {
            Key::Char(c)
        },
        _ => Key::Unknown,
    }
}

/// Each named key stands for the input and the key of the same name, whatever
/// the modifiers; a character stands for itself with Alt, with Control, or
/// plain, by which of Alt alone or Control alone is held; every other key is
/// unknown.
pub proof fn lemma_key_press_meaning(k: KeyPress)
    ensures
        k.code == KeyCode::Enter ==> input_of_key(k) == Input::Enter && key_of_press(k) == Key::Enter,
        k.code == KeyCode::Left ==> input_of_key(k) == Input::Left && key_of_press(k) == Key::Left,
        k.code == KeyCode::Right ==> input_of_key(k) == Input::Right && key_of_press(k) == Key::Right,
        k.code == KeyCode::Up ==> input_of_key(k) == Input::Up && key_of_press(k) == Key::Up,
        k.code == KeyCode::Down ==> input_of_key(k) == Input::Down && key_of_press(k) == Key::Down,
        k.code == KeyCode::PageUp ==> input_of_key(k) == Input::PageUp && key_of_press(k)
            == Key::PageUp,
        k.code == KeyCode::PageDown ==> input_of_key(k) == Input::PageDown && key_of_press(k)
            == Key::PageDown,
        k.code == KeyCode::Esc ==> input_of_key(k) == Input::Esc && key_of_press(k) == Key::Esc,
        forall|c: char|
            k.code == KeyCode::Char(c) && k.modifiers.alt && !k.modifiers.control && !k.modifiers.shift
                ==> input_of_key(k) == Input::Alt(c) && key_of_press(k) == Key::Alt(c),
        forall|c: char|
            k.code == KeyCode::Char(c) && k.modifiers.control && !k.modifiers.alt && !k.modifiers.shift
                ==> input_of_key(k) == Input::Ctrl(c) && key_of_press(k) == Key::Ctrl(c),
        forall|c: char|
            k.code == KeyCode::Char(c) && !(k.modifiers.alt && !k.modifiers.control
                && !k.modifiers.shift) && !(k.modifiers.control && !k.modifiers.alt
                && !k.modifiers.shift) ==> input_of_key(k) == Input::Char(c) && key_of_press(k)
                == Key::Char(c),
        (k.code is Backspace || k.code is Home || k.code is End || k.code is Tab || k.code is BackTab
            || k.code is Delete || k.code is Insert || k.code is F || k.code is Null) ==> input_of_key(k)
            == Input::Unknown && key_of_press(k) == Key::Unknown,
{
}

impl From<KeyPress> for Key {
    fn from(key_event: KeyPress) -> (r: Self) {
        match key_event.code {
            KeyCode::Enter => Key::Enter,
            KeyCode::Left => Key::Left,
            KeyCode::Right => Key::Right,
            KeyCode::Up => Key::Up,
            KeyCode::Down => Key::Down,
            KeyCode::PageUp => Key::PageUp,
            KeyCode::PageDown => Key::PageDown,
            KeyCode::Esc => Key::Esc,
            KeyCode::Char(c) => {
                if is_alt_only(key_event.modifiers) {
                    Key::Alt(c)
                } else if is_control_only(key_event.modifiers) {
                    Key::Ctrl(c)
                } else {
                    Key::Char(c)
                }
            },
            _ => Key::Unknown,
        }
    }
}

impl vstd::std_specs::convert::FromSpecImpl<KeyPress> for Key {
    open spec fn obeys_from_spec() -> bool {
        true
    }

    open spec fn from_spec(v: KeyPress) -> Key {
        key_of_press(v)
    }
}

} // verus!
