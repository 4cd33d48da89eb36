//! The state of a game as the first tree search saw it: a board and whose
//! turn it is, where an action that cannot be played leaves it unchanged and
//! no pass is played for the next player; the game ends when neither color
//! can move.
use crate::action::{Action, PutConfig};
use crate::board::Bitboard;
use crate::disk::{opposite_color, DiskColor};
use crate::controller::{game_over, Controller};
use crate::game_state::{action_column, action_row};
use crate::position::{Column, Position, Row};
use crate::rules::{
    get_puttable_positions, has_legal_move, lemma_squares_in_legal, legal_squares, lists_squares,
    put_accepted, put_result, can_put,
};
use crate::bits::{at, square_index};
use crate::table::Table;
use vstd::prelude::*;

verus! {

/// `after` is `before` once the put of the player to move on the square with
/// index `action_idx` has been applied: the board as the put leaves it and
/// the other player to move, or `before` itself if the put is not accepted.
pub open spec fn state_applied(before: State, action_idx: usize, after: State) -> bool {
    let r = action_row(action_idx);
    let c = action_column(action_idx);
    if put_accepted(before.board_of(), before.turn_of(), r, c) {
        &&& put_result(before.board_of(), after.board_of(), before.turn_of(), r, c)
        &&& after.turn_of() == opposite_color(before.turn_of())
    } else {
        after == before
    }
}

/// State of the game.
#[derive(PartialEq, Eq, Structural, Hash, Clone, Copy, Debug)]
pub struct State {
    /// A board of the game.
    board: Bitboard,
    /// A current turn color.
    turn: DiskColor,
}

impl State {
    /// The board of this state.
    pub closed spec fn board_of(self) -> Bitboard {
        self.board
    }

    /// The color to move.
    pub closed spec fn turn_of(self) -> DiskColor {
        self.turn
    }

    /// Creates a new [`State`].
    pub fn new(board: Bitboard, turn: DiskColor) -> (res: Self)
        ensures
            res.board_of() == board,
            res.turn_of() == turn,
    {
        Self { board, turn }
    }

    /// Returns the board.
    pub fn board(&self) -> (res: &Bitboard)
        ensures
            *res == self.board_of(),
    {
        &self.board
    }

    /// Returns the current turn.
    pub fn turn(&self) -> (res: DiskColor)
        ensures
            res == self.turn_of(),
    {
        self.turn
    }

    /// Returns a list of legal actions: the indices (row by row from the
    /// top-left square) of the squares the player to move can put a disk on,
    /// in increasing order.
    pub fn legal_actions(&self) -> (res: Vec<usize>)
        ensures
            res@.len() == legal_squares(self.board_of(), self.turn_of(), 64).len(),
            forall|k: int|
                0 <= k < res@.len() ==> #[trigger] res@[k] as int == legal_squares(
                    self.board_of(),
                    self.turn_of(),
                    64,
                )[k],
    {
        let puttable = get_puttable_positions(&self.board, self.turn);
        let positions = puttable.to_vec();
        let mut actions: Vec<usize> = Vec::new();
        let mut i: usize = 0;
        while i < positions.len()
            invariant
                i <= positions@.len(),
                lists_squares(positions@, puttable.0),
                actions@.len() == i,
                forall|k: int|
                    0 <= k < i ==> #[trigger] actions@[k] as int == square_index(
                        positions@[k].r(),
                        positions@[k].c(),
                    ),
            decreases positions@.len() - i,
        {
            actions.push(usize::from(positions[i]));
            i = i + 1;
        }
        proof {
            lemma_squares_in_legal(puttable.0, self.board_of(), self.turn_of(), 64);
        }
        actions
    }

    /// Applies an action and returns the new state. An action that cannot be
    /// played leaves the state as it is.
    pub fn apply(&self, action_idx: usize) -> (res: State)
        requires
            action_row(action_idx) < 8,
        ensures
            state_applied(*self, action_idx, res),
    {
        let mut table = Table::default();
        table.set_board(self.board);
        table.set_turn(self.turn);

        let row = Row::from_u8((action_idx / 8) as u8).unwrap();
        let col = Column::from_u8((action_idx % 8) as u8).unwrap();
        let position = Position::new(row, col);
        let action = Action::PutDisk(PutConfig::new(self.turn, position));
        proof {
            crate::position::lemma_position_in_board(position);
        }

        let _ = Controller::step(&mut table, action);

        State { board: *table.board(), turn: table.turn() }
    }

    /// Checks if the state is terminal: neither color can put a disk.
    pub fn is_terminal(&self) -> (res: bool)
        ensures
            res == game_over(self.board_of()),
    {
        let dark = get_puttable_positions(&self.board, DiskColor::Dark);
        let light = get_puttable_positions(&self.board, DiskColor::Light);
        proof {
            if has_legal_move(self.board, DiskColor::Dark) {
                let (r, c) = choose|r: int, c: int| #[trigger] can_put(self.board, DiskColor::Dark, r, c);
                assert(at(dark.0, r, c));
            }
            if has_legal_move(self.board, DiskColor::Light) {
                let (r, c) = choose|r: int, c: int| #[trigger] can_put(self.board, DiskColor::Light, r, c);
                assert(at(light.0, r, c));
            }
        }
        dark.is_empty() && light.is_empty()
    }
}

} // verus!
