//! Runs a game: executes actions, detects the end of the game and judges it.
use crate::action::Action;
use crate::bits::{at, square_bit};
use crate::board::Bitboard;
use crate::disk::DiskColor;
use crate::judge::{JudgeResult, Winner};
use crate::rules::{
    check_error, executed, get_puttable_positions, has_legal_move, can_put, ActionExt,
    PuttablePositions,
};
use crate::table::Table;
use crate::bits::in_board;
use vstd::prelude::*;

verus! {

/// The number of disks of plane `x` among the first `n` squares (counted row
/// by row from the top-left square).
pub open spec fn count_squares(x: u64, n: int) -> nat
    decreases n,
{
    if n <= 0 {
        0
    } else {
        count_squares(x, n - 1) + if at(x, (n - 1) / 8, (n - 1) % 8) {
            1nat
        } else {
            0nat
        }
    }
}

/// The number of disks of plane `x`.
pub open spec fn disk_count(x: u64) -> nat {
    count_squares(x, 64)
}

/// Nobody can put a disk on `board`.
pub open spec fn game_over(board: Bitboard) -> bool {
    !has_legal_move(board, DiskColor::Dark) && !has_legal_move(board, DiskColor::Light)
}

/// The winner of a game ending with `dark` dark disks and `light` light disks.
pub open spec fn winner_by_count(dark: int, light: int) -> Winner {
    if dark < light {
        Winner::Win(DiskColor::Light)
    } else if dark == light {
        Winner::Draw
    } else {
        Winner::Win(DiskColor::Dark)
    }
}

/// `result` is the judge of `board`: the disk counts and the color with more disks.
pub open spec fn judged(board: Bitboard, result: JudgeResult) -> bool {
    &&& result.dark_count_of() == disk_count(board.dark())
    &&& result.light_count_of() == disk_count(board.light())
    &&& result.winner_of() == winner_by_count(
        disk_count(board.dark()) as int,
        disk_count(board.light()) as int,
    )
}

/// The result of the action execution.
pub struct StepResult {
    pub judge_result: Option<JudgeResult>,
    pub puttable_positions: PuttablePositions,
}

/// What [`Controller::step`] answers once `table` has been stepped: the judge
/// if the game is over, otherwise the squares the next player can put on.
pub open spec fn step_answer(table: Table, result: StepResult) -> bool {
    let board = table.board_of();
    if game_over(board) {
        &&& result.judge_result matches Some(j) && judged(board, j)
        &&& result.puttable_positions.0 == 0
    } else {
        &&& result.judge_result is None
        &&& forall|r: int, c: int|
            in_board(r, c) ==> (#[trigger] at(result.puttable_positions.0, r, c) <==> can_put(
                board,
                table.turn_of(),
                r,
                c,
            ))
    }
}

/// Counts the disks of a plane.
pub(crate) fn count_disks(x: u64) -> (res: u32)
    ensures
        res == disk_count(x),
        res <= 64,
{
    let mut count: u32 = 0;
    let mut i: u32 = 0;
    while i < 64
        invariant
            i <= 64,
            count == count_squares(x, i as int),
            count <= i,
        decreases 64 - i,
    {
        let ghost ii = i as int;
        assert(square_bit(ii / 8, ii % 8) == (63 - i) as u64);
        if (x >> (63 - i) as u64) & 1 == 1 {
            count = count + 1;
        }
        i = i + 1;
    }
    count
}

/// The controller of the game.
pub struct Controller;

impl Controller {
    /// Execute an action.
    ///
    /// # Arguments
    ///
    /// * `table` - A table of the game. This table will be modified by the action.
    /// * `action` - An action to execute.
    ///
    /// # Returns
    ///
    /// The result of the action execution. If the game is over after the action, judge result is returned.
    /// Otherwise, next puttable positions are returned. `Err(String)` if the action is invalid.
    pub fn step(table: &mut Table, action: Action) -> (res: Result<StepResult, String>)
        ensures
            res is Ok <==> check_error(action, *old(table)) is None,
            res matches Err(e) ==> check_error(action, *old(table)) == Some(e@) && *final(table)
                == *old(table),
            res matches Ok(result) ==> executed(action, *old(table), *final(table)) && step_answer(
                *final(table),
                result,
            ),
    {
        action.execute(table)?;

        if Controller::is_game_over(table) {
            Ok(
                StepResult {
                    judge_result: Some(Controller::judge(table)),
                    puttable_positions: PuttablePositions(0),
                },
            )
        } else {
            Ok(
                StepResult {
                    judge_result: None,
                    puttable_positions: get_puttable_positions(table.board(), table.turn()),
                },
            )
        }
    }

    /// Check if the game is over.
    ///
    /// # Arguments
    ///
    /// * `table` - A table of the game.
    ///
    /// # Returns
    ///
    /// `true` if the game is over, otherwise `false`.
    pub fn is_game_over(table: &Table) -> (res: bool)
        ensures
            res == game_over(table.board_of()),
    {
        // Nobody can put a disk
        let dark = get_puttable_positions(table.board(), DiskColor::Dark);
        let light = get_puttable_positions(table.board(), DiskColor::Light);
        proof {
            let board = table.board_of();
            if has_legal_move(board, DiskColor::Dark) {
                let (r, c) = choose|r: int, c: int| #[trigger] can_put(board, DiskColor::Dark, r, c);
                assert(at(dark.0, r, c));
            }
            if has_legal_move(board, DiskColor::Light) {
                let (r, c) = choose|r: int, c: int| #[trigger] can_put(board, DiskColor::Light, r, c);
                assert(at(light.0, r, c));
            }
        }
        dark.is_empty() && light.is_empty()
    }

    /// Judge the winner of the game. Assumes that the game is over.
    ///
    /// # Arguments
    ///
    /// * `table` - A table of the game.
    ///
    /// # Returns
    ///
    /// The winner of the game and the number of disks of each color.
    pub fn judge(table: &Table) -> (res: JudgeResult)
        requires
            game_over(table.board_of()),
        ensures
            judged(table.board_of(), res),
    {
        let dark_count = count_disks(table.board().dark_plane());
        let light_count = count_disks(table.board().light_plane());

        let winner = if dark_count < light_count {
            Winner::Win(DiskColor::Light)
        } else if dark_count == light_count {
            Winner::Draw
        } else {
            Winner::Win(DiskColor::Dark)
        };

        JudgeResult::new(dark_count as u8, light_count as u8, winner)
    }
}

} // verus!
