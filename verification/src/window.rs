//! Window tiling positions.

use vstd::prelude::*;

verus! {

/// The places a focused window can be tiled to on its screen.
#[derive(Debug, Clone, Copy, PartialEq, Eq, Structural)]
pub enum TilePosition {
    LeftHalf,
    RightHalf,
    TopHalf,
    BottomHalf,
    TopLeft,
    TopRight,
    BottomLeft,
    BottomRight,
    LeftThird,
    CenterThird,
    RightThird,
    Maximize,
}

} // verus!
