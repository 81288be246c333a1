//! Placement data of block definitions: how the build menu places a block.

use vstd::prelude::*;

verus! {

/// How a click places the block.
#[derive(Clone, Copy, Debug, PartialEq, Eq)]
pub enum ClickMode {
    Simple,
    /// Placed without a click (`none` in block definitions).
    NoClick,
    OnWall,
    OnFurniture,
    MultiTile,
}

impl Default for ClickMode {
    /// A plain click placement.
    fn default() -> (m: ClickMode)
        ensures
            m == ClickMode::Simple,
    {
        ClickMode::Simple
    }
}

/// Shape that dragging the mouse places.
#[derive(Clone, Copy, Debug, PartialEq, Eq)]
pub enum DragShape {
    HollowRect,
    FilledRect,
    Line,
    DiagonalLine,
    /// No drag placement (`none` in block definitions).
    NoDrag,
}

/// Build-menu placement of a block: menu category, icon and label, click and drag
/// behaviour, the height byte placed, rotation, whether the tool stays selected, and
/// extra flag bits.
#[derive(Clone, Debug)]
pub struct PlacementDef {
    pub category: String,
    pub icon: String,
    pub label: String,
    pub click: ClickMode,
    pub place_height: u8,
    pub drag: Option<DragShape>,
    pub rotatable: bool,
    pub stays_selected: bool,
    pub extra_flags: u8,
}

} // verus!
