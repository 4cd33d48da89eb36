//! Reversi actions.
use crate::disk::DiskColor;
use crate::position::Position;
use vstd::prelude::*;

verus! {

/// A configuration of the put action.
#[derive(Clone, Copy, Debug, PartialEq, Eq, Structural)]
pub struct PutConfig {
    /// A color of the disk.
    color: DiskColor,
    /// A position of the square in the board.
    position: Position,
}

impl PutConfig {
    /// The color of the disk to put.
    pub closed spec fn color_of(self) -> DiskColor {
        self.color
    }

    /// The position to put the disk on.
    pub closed spec fn position_of(self) -> Position {
        self.position
    }

    /// The configuration that puts a disk of `color` on `position`.
    pub closed spec fn spec_new(color: DiskColor, position: Position) -> Self {
        PutConfig { color, position }
    }

    /// Creates a new [`PutConfig`].
    pub fn new(color: DiskColor, position: Position) -> (res: Self)
        ensures
            res == Self::spec_new(color, position),
            res.color_of() == color,
            res.position_of() == position,
    {
        Self { color, position }
    }

    /// Returns the color of this [`PutConfig`].
    pub fn color(&self) -> (res: DiskColor)
        ensures
            res == self.color_of(),
    {
        self.color
    }

    /// Returns a reference to the position of this [`PutConfig`].
    pub fn position(&self) -> (res: &Position)
        ensures
            *res == self.position_of(),
    {
        &self.position
    }
}

/// Reversi actions.
#[derive(Clone, Copy, Debug, PartialEq, Eq, Structural)]
pub enum Action {
    /// Put a disk to the square.
    PutDisk(PutConfig),
    /// Pass the turn.
    PassTurn(DiskColor),
}

} // verus!
