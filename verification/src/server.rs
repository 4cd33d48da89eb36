//! The game endpoint: the state of a new game, and the state of a game
//! once a step has been taken.
use crate::action::Action;
use crate::bits::{at, in_board, square_index};
use crate::board::Bitboard;
use crate::controller::{game_over, judged, Controller};
use crate::judge::JudgeResult;
use crate::message::{StateResponseMessage, StepRequestMessage};
use crate::position::Position;
use crate::rules::{
    check_error, executed, get_puttable_positions, lemma_squares_in_legal, legal_squares,
};
use crate::disk::DiskColor;
use crate::environment::is_initial_table;
use crate::table::{copy_table, Table};
use vstd::prelude::*;

verus! {

/// `positions` lists the squares on which `turn` can put a disk on `board`,
/// row by row from the top-left square.
pub open spec fn lists_legal(positions: Seq<Position>, board: Bitboard, turn: DiskColor) -> bool {
    &&& positions.len() == legal_squares(board, turn, 64).len()
    &&& forall|k: int|
        0 <= k < positions.len() ==> square_index(#[trigger] positions[k].r(), positions[k].c())
            == legal_squares(board, turn, 64)[k]
}

/// A state response message as the game endpoint answers it.
pub struct StateResponseMessageExt(pub StateResponseMessage);

impl StateResponseMessageExt {
    /// Creates a new [`StateResponseMessageExt`].
    pub fn new(
        table: Table,
        puttable_positions: Vec<Position>,
        judge_result: Option<JudgeResult>,
    ) -> (res: Self)
        ensures
            res.0.table_of() == table,
            res.0.puttable_positions_of() == puttable_positions@,
            res.0.player_colors_of() is None,
            res.0.judge_result_of() == judge_result,
    {
        Self(StateResponseMessage::new(table, puttable_positions, None, judge_result))
    }
}

/// The squares on which `turn` can put a disk on `board`, row by row.
fn puttable_list(board: &Bitboard, turn: DiskColor) -> (res: Vec<Position>)
    ensures
        lists_legal(res@, *board, turn),
{
    let puttable = get_puttable_positions(board, turn);
    let positions = puttable.to_vec();
    proof {
        lemma_squares_in_legal(puttable.0, *board, turn, 64);
    }
    positions
}

/// The state of a new game: the initial table and the squares on which dark
/// can put a disk.
pub fn create_new_table() -> (res: StateResponseMessageExt)
    ensures
        is_initial_table(res.0.table_of()),
        lists_legal(
            res.0.puttable_positions_of(),
            res.0.table_of().board_of(),
            res.0.table_of().turn_of(),
        ),
        res.0.player_colors_of() is None,
        res.0.judge_result_of() is None,
{
    let table = Table::default();
    let puttable_positions = puttable_list(table.board(), table.turn());
    StateResponseMessageExt::new(table, puttable_positions, None)
}

/// What the game endpoint answers once `before` has been stepped into the
/// table of `result`: the judge if the game is over, otherwise the squares
/// on which the next player can put a disk.
pub open spec fn stepped_state(before: Table, action: Action, result: StateResponseMessage) -> bool {
    let after = result.table_of();
    let board = after.board_of();
    &&& executed(action, before, after)
    &&& result.player_colors_of() is None
    &&& if game_over(board) {
        &&& result.judge_result_of() matches Some(j) && judged(board, j)
        &&& result.puttable_positions_of().len() == 0
    } else {
        &&& result.judge_result_of() is None
        &&& lists_legal(result.puttable_positions_of(), board, after.turn_of())
    }
}

/// Steps the table of `message` with its action and answers the new state,
/// or the reason why the action cannot be executed.
pub fn step_table(message: StepRequestMessage) -> (res: Result<StateResponseMessageExt, String>)
    ensures
        res is Ok <==> check_error(message.action_of(), message.table_of()) is None,
        res matches Err(e) ==> check_error(message.action_of(), message.table_of()) == Some(e@),
        res matches Ok(r) ==> stepped_state(message.table_of(), message.action_of(), r.0),
{
    let mut table = copy_table(message.table());
    let action = *message.action();
    let step_result = Controller::step(&mut table, action);

    match step_result {
        Ok(step_result) => {
            let puttable_positions = step_result.puttable_positions.to_vec();
            proof {
                let board = table.board_of();
                let x = step_result.puttable_positions.0;
                if game_over(board) {
                    crate::bits::lemma_zero_iff_no_square(x);
                    assert(crate::rules::squares_in(x, 64).len() == 0) by {
                        lemma_no_squares(x, 64);
                    }
                } else {
                    lemma_squares_in_legal(x, board, table.turn_of(), 64);
                }
            }
            Ok(
                StateResponseMessageExt::new(
                    table,
                    puttable_positions,
                    step_result.judge_result,
                ),
            )
        },
        Err(err) => Err(err),
    }
}

/// A plane with no disk lists no square.
proof fn lemma_no_squares(x: u64, n: int)
    requires
        0 <= n <= 64,
        forall|r: int, c: int| in_board(r, c) ==> !#[trigger] at(x, r, c),
    ensures
        crate::rules::squares_in(x, n).len() == 0,
    decreases n,
{
    if n > 0 {
        assert(in_board((n - 1) / 8, (n - 1) % 8));
        lemma_no_squares(x, n - 1);
    }
}

} // verus!
