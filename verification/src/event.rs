//! Input events the application reacts to.
use vstd::prelude::*;

verus! {

/// The key that was pressed, as far as the editor tells keys apart.
#[derive(Debug, Clone, Copy, PartialEq, Eq, Structural)]
pub enum KeyCode {
    Char(char),
    Esc,
    Enter,
    Up,
    Down,
    Left,
    Right,
    Tab,
    BackTab,
    Backspace,
    /// Any other key; the editor ignores it.
    Other,
}

/// A key-down event.
#[derive(Debug, Clone, Copy, PartialEq, Eq, Structural)]
pub struct KeyEvent {
    pub code: KeyCode,
}

impl KeyEvent {
    pub fn new(code: KeyCode) -> (r: Self)
        ensures
            r.code == code,
    {
        KeyEvent { code }
    }
}

/// A normalized event the app reacts to.
#[derive(Debug, Clone, Copy, PartialEq, Eq, Structural)]
pub enum AppEvent {
    /// A key-down event.
    Key(KeyEvent),
    /// The terminal was resized.
    Resize(u16, u16),
    /// No input arrived within the poll window (drives redraws).
    Tick,
}

impl AppEvent {
    /// The key pressed by an [`AppEvent::Key`], if any.
    pub fn key(&self) -> (r: Option<KeyEvent>)
        ensures
            r == (match *self {
                AppEvent::Key(k) => Some(k),
                _ => None,
            }),
    {
        match self {
            AppEvent::Key(k) => Some(*k),
            _ => None,
        }
    }
}

} // verus!
