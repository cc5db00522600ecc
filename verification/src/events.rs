use vstd::prelude::*;

verus! {

/// A key press, as far as the viewer tells keys apart.
#[derive(Clone, Copy, Debug, PartialEq, Eq, Structural)]
pub enum KeyInput {
    Esc,
    Enter,
    Backspace,
    Char(char),
    Down,
    Up,
    Left,
    Right,
    Other,
}

/// What the input source reported in one turn of the interactive loop.
#[derive(Clone, Copy, Debug, PartialEq, Eq, Structural)]
pub enum InputEvent {
    /// A key was pressed.
    Key(KeyInput),
    /// The mouse wheel turned down.
    ScrollDown,
    /// The mouse wheel turned up.
    ScrollUp,
    /// The left mouse button went down on the screen row `row`.
    LeftClick { row: u16 },
    /// Anything else.
    Other,
}

} // verus!
