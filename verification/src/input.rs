//! Keys pressed in the terminal interfaces, as the interfaces read them.
use vstd::prelude::*;

verus! {

/// A key, reduced to what the interfaces tell apart.
#[derive(Clone, Copy, Debug, PartialEq, Eq, Structural)]
pub enum KeyInput {
    Char(char),
    Esc,
    Tab,
    BackTab,
    Down,
    Up,
    /// any key the interfaces do not react to
    Other,
}

/// A key press: the key, and whether Control was the only modifier held.
#[derive(Clone, Copy, Debug, PartialEq, Eq, Structural)]
pub struct KeyPress {
    pub code: KeyInput,
    pub control_only: bool,
}

} // verus!
