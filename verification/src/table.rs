//! The state of a game table.
use crate::action::Action;
use crate::board::{initial_dark, initial_light, Bitboard};
use crate::disk::DiskColor;
use vstd::prelude::*;

verus! {

/// A state of a game table.
#[derive(Clone, Debug)]
pub struct Table {
    /// A board of Reversi.
    board: Bitboard,
    /// A color of the next turn.
    turn: DiskColor,
    /// A sequence of actions in the game history.
    history: Vec<Action>,
}

impl Table {
    /// The board of this table.
    pub closed spec fn board_of(self) -> Bitboard {
        self.board
    }

    /// The color whose turn it is.
    pub closed spec fn turn_of(self) -> DiskColor {
        self.turn
    }

    /// The actions played so far, oldest first.
    pub closed spec fn history_of(self) -> Seq<Action> {
        self.history@
    }

    /// Creates a table from its parts.
    pub fn from_parts(board: Bitboard, turn: DiskColor, history: Vec<Action>) -> (res: Self)
        ensures
            res.board_of() == board,
            res.turn_of() == turn,
            res.history_of() == history@,
    {
        Self { board, turn, history }
    }

    /// Returns a reference to the board of this [`Table`].
    pub fn board(&self) -> (res: &Bitboard)
        ensures
            *res == self.board_of(),
    {
        &self.board
    }

    /// Sets the board of this [`Table`].
    pub fn set_board(&mut self, board: Bitboard)
        ensures
            final(self).board_of() == board,
            final(self).turn_of() == old(self).turn_of(),
            final(self).history_of() == old(self).history_of(),
    {
        self.board = board;
    }

    /// Returns a mutable reference to the board of this [`Table`].
    pub fn board_mut(&mut self) -> (res: &mut Bitboard)
        ensures
            *res == old(self).board_of(),
            final(self).board_of() == *final(res),
            final(self).turn_of() == old(self).turn_of(),
            final(self).history_of() == old(self).history_of(),
    {
        &mut self.board
    }

    /// Returns the turn of this [`Table`].
    pub fn turn(&self) -> (res: DiskColor)
        ensures
            res == self.turn_of(),
    {
        self.turn
    }

    /// Sets the turn of this [`Table`].
    pub fn set_turn(&mut self, turn: DiskColor)
        ensures
            final(self).turn_of() == turn,
            final(self).board_of() == old(self).board_of(),
            final(self).history_of() == old(self).history_of(),
    {
        self.turn = turn;
    }

    /// Returns a reference to the history of this [`Table`].
    pub fn history(&self) -> (res: &Vec<Action>)
        ensures
            res@ == self.history_of(),
    {
        &self.history
    }

    /// Pushes an action to the history of this [`Table`].
    pub fn push_history(&mut self, action: Action)
        ensures
            final(self).history_of() == old(self).history_of().push(action),
            final(self).board_of() == old(self).board_of(),
            final(self).turn_of() == old(self).turn_of(),
    {
        self.history.push(action);
    }
}

impl Default for Table {
    fn default() -> (res: Self)
        ensures
            res.board_of().dark() == initial_dark(),
            res.board_of().light() == initial_light(),
            res.turn_of() == DiskColor::Dark,
            res.history_of() == Seq::<Action>::empty(),
    {
        Self { board: Bitboard::default(), turn: DiskColor::Dark, history: Vec::new() }
    }
}

/// A copy of `table`.
pub(crate) fn copy_table(table: &Table) -> (res: Table)
    ensures
        res.board_of() == table.board_of(),
        res.turn_of() == table.turn_of(),
        res.history_of() == table.history_of(),
{
    let history = table.history().clone();
    proof {
        assert(history@ =~= table.history_of());
    }
    Table::from_parts(*table.board(), table.turn(), history)
}

} // verus!
