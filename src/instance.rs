//! Input as the world sees it.
use vstd::prelude::*;

verus! {

/// A key event, by scancode, as published to the entities.
#[derive(Clone, Copy, Debug, PartialEq)]
pub enum InputEvent {
    KeyDown(u32),
    KeyUp(u32),
}

} // verus!
