//! The palette of the pixel canvas.
use vstd::prelude::*;

verus! {

#[derive(Debug, Clone, Copy, PartialEq, Eq, Structural)]
pub enum Color {
    White,
    Black,
    Gray,
    Brown,
    Blue,
    Green,
    Teal,
    Pink,
    Purple,
    Red,
    Yellow,
    Indigo,
    DarkGray,
    DarkBrown,
    DarkBlue,
    DarkGreen,
    DarkTeal,
    DarkPink,
    DarkPurple,
    DarkRed,
    DarkYellow,
    DarkIndigo,
    LightGray,
    LightBrown,
    LightBlue,
    LightGreen,
    LightTeal,
    LightPink,
    LightPurple,
    LightRed,
    LightYellow,
    LightIndigo,
}

} // verus!
