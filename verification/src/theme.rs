use vstd::prelude::*;

verus! {

/// Accent color of the interface.
#[derive(Debug, Clone, Copy, PartialEq, Eq, Structural, Default)]
pub enum ThemeAccent {
    #[default]
    Blue,
    Red,
    Orange,
    Purple,
    Pink,
}

} // verus!
