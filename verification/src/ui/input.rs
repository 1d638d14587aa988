//! Key presses as the terminal reports them, and the inputs they stand for.

use vstd::prelude::*;

verus! {

/// The key of a key press, as the terminal names it.
#[derive(Debug, PartialEq, Eq, Structural, Clone, Copy)]
pub enum KeyCode {
    Backspace,
    Enter,
    Left,
    Right,
    Up,
    Down,
    Home,
    End,
    PageUp,
    PageDown,
    Tab,
    BackTab,
    Delete,
    Insert,
    F(u8),
    Char(char),
    Null,
    Esc,
}

/// The modifier keys held during a key press.
#[derive(Debug, PartialEq, Eq, Structural, Clone, Copy)]
pub struct Modifiers {
    pub shift: bool,
    pub control: bool,
    pub alt: bool,
}

/// A key press: the key and the modifiers held with it.
#[derive(Debug, PartialEq, Eq, Structural, Clone, Copy)]
pub struct KeyPress {
    pub code: KeyCode,
    pub modifiers: Modifiers,
}

/// Alt is held, and no other modifier.
pub open spec fn alt_only(m: Modifiers) -> bool {
    m.alt && !m.control && !m.shift
}

/// Control is held, and no other modifier.
pub open spec fn control_only(m: Modifiers) -> bool {
    m.control && !m.alt && !m.shift
}

pub(crate) fn is_alt_only(m: Modifiers) -> (b: bool)
    ensures
        b == alt_only(m),
{
    m.alt && !m.control && !m.shift
}

pub(crate) fn is_control_only(m: Modifiers) -> (b: bool)
    ensures
        b == control_only(m),
{
    m.control && !m.alt && !m.shift
}

/// An input of the interface.
#[derive(Debug, PartialEq, Eq, Structural, Clone, Copy)]
pub enum Input {
    Enter,
    Left,
    Right,
    Up,
    Down,
    PageUp,
    PageDown,
    Esc,
    Char(char),
    Ctrl(char),
    Alt(char),
    Unknown,
}

/// The input a key press stands for: the named keys whatever the modifiers,
/// a character with Alt alone or Control alone as such, any other character
/// as itself, and every other key as unknown.
pub open spec fn input_of_key(k: KeyPress) -> Input {
    match k.code {
        KeyCode::Enter => Input::Enter,
        KeyCode::Left => Input::Left,
        KeyCode::Right => Input::Right,
        KeyCode::Up => Input::Up,
        KeyCode::Down => Input::Down,
        KeyCode::PageUp => Input::PageUp,
        KeyCode::PageDown => Input::PageDown,
        KeyCode::Esc => Input::Esc,
        KeyCode::Char(c) => if alt_only(k.modifiers) {
            Input::Alt(c)
        } else if control_only(k.modifiers) {
            Input::Ctrl(c)
        } else {
            Input::Char(c)
        },
        _ => Input::Unknown,
    }
}

impl From<KeyPress> for Input {
    fn from(key_event: KeyPress) -> (r: Self) {
        match key_event.code {
            KeyCode::Enter => Input::Enter,
            KeyCode::Left => Input::Left,
            KeyCode::Right => Input::Right,
            KeyCode::Up => Input::Up,
            KeyCode::Down => Input::Down,
            KeyCode::PageUp => Input::PageUp,
            KeyCode::PageDown => Input::PageDown,
            KeyCode::Esc => Input::Esc,
            KeyCode::Char(c) => {
                if is_alt_only(key_event.modifiers) {
                    Input::Alt(c)
                } else if is_control_only(key_event.modifiers) {
                    Input::Ctrl(c)
                } else {
                    Input::Char(c)
                }
            },
            _ => Input::Unknown,
        }
    }
}

impl vstd::std_specs::convert::FromSpecImpl<KeyPress> for Input {
    open spec fn obeys_from_spec() -> bool {
        true
    }

    open spec fn from_spec(v: KeyPress) -> Input {
        input_of_key(v)
    }
}

} // verus!
