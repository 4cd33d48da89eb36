//! The result of a finished game.
use crate::disk::DiskColor;
use vstd::prelude::*;

verus! {

/// A judge of the game.
#[derive(Copy, Clone, PartialEq, Eq, Structural, Debug)]
pub enum Winner {
    /// A winner.
    Win(DiskColor),
    /// Draw result.
    Draw,
}

/// A result of the game.
#[derive(Copy, Clone, PartialEq, Eq, Structural, Debug)]
pub struct JudgeResult {
    /// A number of dark disks on the board.
    dark_count: u8,
    /// A number of light disks on the board.
    light_count: u8,
    /// A winner of the game.
    winner: Winner,
}

impl JudgeResult {
    /// The number of dark disks.
    pub closed spec fn dark_count_of(self) -> u8 {
        self.dark_count
    }

    /// The number of light disks.
    pub closed spec fn light_count_of(self) -> u8 {
        self.light_count
    }

    /// The winner.
    pub closed spec fn winner_of(self) -> Winner {
        self.winner
    }

    /// Creates a new [`JudgeResult`].
    pub fn new(dark_count: u8, light_count: u8, winner: Winner) -> (res: Self)
        ensures
            res.dark_count_of() == dark_count,
            res.light_count_of() == light_count,
            res.winner_of() == winner,
    {
        Self { dark_count, light_count, winner }
    }

    /// Returns the winner of this [`JudgeResult`].
    pub fn winner(&self) -> (res: Winner)
        ensures
            res == self.winner_of(),
    {
        self.winner
    }

    /// Returns the number of dark disks.
    pub fn dark_count(&self) -> (res: u8)
        ensures
            res == self.dark_count_of(),
    {
        self.dark_count
    }

    /// Returns the number of light disks.
    pub fn light_count(&self) -> (res: u8)
        ensures
            res == self.light_count_of(),
    {
        self.light_count
    }
}

} // verus!
