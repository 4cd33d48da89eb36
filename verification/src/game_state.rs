//! The state of a game as the tree search sees it: a board and whose turn it is.
use crate::action::{Action, PutConfig};
use crate::bits::{at, in_board};
use crate::board::Bitboard;
use crate::controller::{count_disks, disk_count, game_over, Controller};
use crate::disk::{opposite_color, DiskColor};
use crate::position::{Column, Position, Row};
use crate::bits::square_index;
use crate::rules::{
    can_put, get_puttable_positions, has_legal_move, lemma_squares_in_legal, legal_squares,
    lists_squares, opponent_plane, player_plane, put_accepted, put_result,
};
use crate::table::Table;
use vstd::prelude::*;
use vstd::string::StringExecFns;

verus! {

/// State of the game.
#[derive(PartialEq, Eq, Structural, Hash, Clone, Copy, Debug)]
pub struct State {
    /// A board of the game.
    board: Bitboard,
    /// A current turn color.
    turn: DiskColor,
}

/// The row and column that an action index stands for: the index counts the
/// squares row by row from the top-left square; the row number is taken as a
/// byte, as the index is converted.
pub open spec fn action_row(action_idx: usize) -> int {
    ((action_idx / 8) as u8) as int
}

/// The column that an action index stands for.
pub open spec fn action_column(action_idx: usize) -> int {
    (action_idx % 8) as int
}

/// `after` is `before` once the player to move has put a disk on `(r, c)` and,
/// if the next player then has no move, that player has passed.
pub open spec fn applied_with_pass(before: State, r: int, c: int, after: State) -> bool {
    exists|board: Bitboard|
        #[trigger] put_result(before.board_of(), board, before.turn_of(), r, c) && after.board_of()
            == board && if has_legal_move(board, opposite_color(before.turn_of())) {
            after.turn_of() == opposite_color(before.turn_of())
        } else {
            after.turn_of() == before.turn_of()
        }
}

/// The outcome of the game on `board` for `turn`: `1` if `turn` has more
/// disks, `-1` if fewer, `0` on equal counts.
pub open spec fn terminal_outcome(board: Bitboard, turn: DiskColor) -> i8 {
    let dark = disk_count(board.dark());
    let light = disk_count(board.light());
    let dark_value: int = if dark > light {
        1
    } else if dark < light {
        -1
    } else {
        0
    };
    if turn == DiskColor::Dark {
        dark_value as i8
    } else {
        (-dark_value) as i8
    }
}

impl State {
    /// The board of this state.
    pub closed spec fn board_of(self) -> Bitboard {
        self.board
    }

    /// The color to move.
    pub closed spec fn turn_of(self) -> DiskColor {
        self.turn
    }

    /// Creates a new [`State`].
    pub fn new(board: Bitboard, turn: DiskColor) -> (res: Self)
        ensures
            res.board_of() == board,
            res.turn_of() == turn,
    {
        Self { board, turn }
    }

    /// Returns the board.
    pub fn board(&self) -> (res: &Bitboard)
        ensures
            *res == self.board_of(),
    {
        &self.board
    }

    /// Returns the current turn.
    pub fn turn(&self) -> (res: DiskColor)
        ensures
            res == self.turn_of(),
    {
        self.turn
    }

    /// Returns a list of legal actions: the indices (row by row from the
    /// top-left square) of the squares the player to move can put a disk on,
    /// in increasing order.
    pub fn legal_actions(&self) -> (res: Vec<usize>)
        ensures
            res@.len() == legal_squares(self.board_of(), self.turn_of(), 64).len(),
            forall|k: int|
                0 <= k < res@.len() ==> #[trigger] res@[k] as int == legal_squares(
                    self.board_of(),
                    self.turn_of(),
                    64,
                )[k],
    {
        let puttable = get_puttable_positions(&self.board, self.turn);
        let positions = puttable.to_vec();
        let mut actions: Vec<usize> = Vec::new();
        let mut i: usize = 0;
        while i < positions.len()
            invariant
                i <= positions@.len(),
                lists_squares(positions@, puttable.0),
                actions@.len() == i,
                forall|k: int|
                    0 <= k < i ==> #[trigger] actions@[k] as int == square_index(
                        positions@[k].r(),
                        positions@[k].c(),
                    ),
            decreases positions@.len() - i,
        {
            actions.push(usize::from(positions[i]));
            i = i + 1;
        }
        proof {
            lemma_squares_in_legal(puttable.0, self.board_of(), self.turn_of(), 64);
        }
        actions
    }

    /// Applies an action and returns the new state.
    ///
    /// If the next player has no legal moves after the action, a pass (turn skip)
    /// is automatically applied.
    pub fn apply(&self, action_idx: usize) -> (res: State)
        requires
            action_row(action_idx) < 8,
            put_accepted(
                self.board_of(),
                self.turn_of(),
                action_row(action_idx),
                action_column(action_idx),
            ),
        ensures
            applied_with_pass(*self, action_row(action_idx), action_column(action_idx), res),
    {
        let mut table = Table::default();
        table.set_board(self.board);
        table.set_turn(self.turn);

        let row_of_idx = Row::from_u8((action_idx / 8) as u8).unwrap();
        let col_of_idx = Column::from_u8((action_idx % 8) as u8).unwrap();
        let position = Position::new(row_of_idx, col_of_idx);
        let action = Action::PutDisk(PutConfig::new(self.turn, position));
        proof {
            crate::position::lemma_position_in_board(position);
        }
        let step_result = match Controller::step(&mut table, action) {
            Ok(step_result) => step_result,
            Err(_) => {
                proof {
                    assert(false);
                }
                return *self;
            },
        };
        let ghost board1 = table.board_of();

        // Auto-skip: if the next player has no legal moves, pass the turn
        if step_result.puttable_positions.is_empty() {
            let turn = table.turn();
            proof {
                if has_legal_move(board1, turn) {
                    let (r, c) = choose|r: int, c: int| #[trigger] can_put(board1, turn, r, c);
                    if !game_over(board1) {
                        assert(at(step_result.puttable_positions.0, r, c));
                    }
                }
            }
            let _ = Controller::step(&mut table, Action::PassTurn(turn));
        } else {
            proof {
                let (r, c) = choose|r: int, c: int|
                    in_board(r, c) && #[trigger] at(step_result.puttable_positions.0, r, c);
                assert(can_put(board1, table.turn_of(), r, c));
            }
        }

        State { board: *table.board(), turn: table.turn() }
    }

    /// The value of a finished game for the player to move, as `1` for a
    /// win, `-1` for a loss and `0` for a draw (by disk count); an error if
    /// the game is not over.
    pub fn terminal_value(&self) -> (res: Result<i8, String>)
        ensures
            res is Ok <==> game_over(self.board_of()),
            res matches Err(e) ==> e@ == "State is not terminal"@,
            res matches Ok(v) ==> v == terminal_outcome(self.board_of(), self.turn_of()),
            res matches Ok(v) ==> v == (if disk_count(player_plane(self.board_of(), self.turn_of()))
                > disk_count(opponent_plane(self.board_of(), self.turn_of())) {
                1i8
            } else if disk_count(player_plane(self.board_of(), self.turn_of())) < disk_count(
                opponent_plane(self.board_of(), self.turn_of()),
            ) {
                -1i8
            } else {
                0i8
            }),
    {
        proof {
            crate::laws::law_terminal_value_by_counts(self.board_of(), self.turn_of());
        }
        if !self.is_terminal() {
            return Err(String::from_str("State is not terminal"));
        }

        let dark_count = count_disks(self.board.dark_plane());
        let light_count = count_disks(self.board.light_plane());

        let winner_value: i8 = if dark_count > light_count {
            1 // Dark wins
        } else if dark_count < light_count {
            -1 // Light wins
        } else {
            0
        };

        if self.turn == DiskColor::Dark {
            Ok(winner_value)
        } else {
            Ok(-winner_value)
        }
    }

    /// Checks if the state is terminal: neither color can put a disk.
    pub fn is_terminal(&self) -> (res: bool)
        ensures
            res == game_over(self.board_of()),
    {
        let dark = get_puttable_positions(&self.board, DiskColor::Dark);
        let light = get_puttable_positions(&self.board, DiskColor::Light);
        proof {
            if has_legal_move(self.board, DiskColor::Dark) {
                let (r, c) = choose|r: int, c: int| #[trigger] can_put(self.board, DiskColor::Dark, r, c);
                assert(at(dark.0, r, c));
            }
            if has_legal_move(self.board, DiskColor::Light) {
                let (r, c) = choose|r: int, c: int| #[trigger] can_put(self.board, DiskColor::Light, r, c);
                assert(at(light.0, r, c));
            }
        }
        dark.is_empty() && light.is_empty()
    }
}

} // verus!
