//! The state that the terminal presentation keeps between keypresses: the
//! mode of the screen, the list cursors, and the key hints.  These are pure
//! state machines; reading keys and drawing frames live with the binary.

use vstd::prelude::*;

pub mod app_state;
pub mod item_list;
pub mod key_hints;
pub mod lists;
pub mod ui;

verus! {

/// One keyboard event, reduced to what the state machines react to.
#[derive(Clone, Copy, Debug, PartialEq, Eq, Structural)]
pub enum Key {
    Char(char),
    Enter,
    Esc,
    Tab,
    Up,
    Down,
    Other,
}

} // verus!
