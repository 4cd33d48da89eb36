//! A batch of games played side by side, as a learning agent plays them: each
//! move is followed by a pass when the next player has no move.
use crate::action::{Action, PutConfig};
use crate::board::{initial_dark, initial_light};
use crate::controller::{game_over, Controller};
use crate::disk::DiskColor;
use crate::position::{Column, Position, Row};
use crate::rules::{check_error, executed, has_legal_move, can_put};
use crate::bits::{at, in_board};
use crate::board::Bitboard;
use crate::rules::get_puttable_positions;
use crate::table::Table;
use vstd::prelude::*;
use vstd::string::StringExecFns;

verus! {

/// `t` is a table as a new game starts.
pub open spec fn is_initial_table(t: Table) -> bool {
    &&& t.board_of().dark() == initial_dark()
    &&& t.board_of().light() == initial_light()
    &&& t.turn_of() == DiskColor::Dark
    &&& t.history_of() == Seq::<Action>::empty()
}

/// `after` is `before` once the player to move has put a disk on `position`
/// (accepted) and, if the next player then has no move, that player has passed.
pub open spec fn put_then_pass(before: Table, position: Position, after: Table) -> bool {
    exists|mid: Table|
        #[trigger] executed(
            Action::PutDisk(PutConfig::spec_new(before.turn_of(), position)),
            before,
            mid,
        ) && if has_legal_move(mid.board_of(), mid.turn_of()) {
            after == mid
        } else {
            executed(Action::PassTurn(mid.turn_of()), mid, after)
        }
}

/// The put of the player to move on `position`.
pub open spec fn put_of_turn(table: Table, position: Position) -> Action {
    Action::PutDisk(PutConfig::spec_new(table.turn_of(), position))
}

proof fn lemma_empty_puttable(table: Table, result: crate::controller::StepResult)
    requires
        crate::controller::step_answer(table, result),
    ensures
        (result.puttable_positions.0 == 0) == !has_legal_move(table.board_of(), table.turn_of()),
{
    crate::bits::lemma_zero_iff_no_square(result.puttable_positions.0);
    if has_legal_move(table.board_of(), table.turn_of()) {
        let (r, c) = choose|r: int, c: int| #[trigger] can_put(table.board_of(), table.turn_of(), r, c);
        if !game_over(table.board_of()) {
            assert(at(result.puttable_positions.0, r, c));
        }
    } else if !game_over(table.board_of()) {
        assert forall|r: int, c: int| crate::bits::in_board(r, c) implies !#[trigger] at(result.puttable_positions.0, r, c) by {
            if at(result.puttable_positions.0, r, c) {
                assert(can_put(table.board_of(), table.turn_of(), r, c));
            }
        }
    }
}

/// Why the step of one game of a batch fails, or `None` if it does not: a
/// game that is done is never stepped.
pub open spec fn game_error(table: Table, done: bool, position: Position) -> Option<Seq<char>> {
    if done {
        None
    } else {
        check_error(put_of_turn(table, position), table)
    }
}

/// One game of a batch, `(table, done)` before and `(table2, done2)` after the
/// step that puts a disk on `position`: a game that is done or whose put is
/// refused stays as it is; otherwise the put (and the pass that may follow) is
/// played and the game is done once nobody can move.
pub open spec fn game_stepped(
    table: Table,
    done: bool,
    position: Position,
    table2: Table,
    done2: bool,
) -> bool {
    if done || check_error(put_of_turn(table, position), table) is Some {
        table2 == table && done2 == done
    } else {
        put_then_pass(table, position, table2) && done2 == game_over(table2.board_of())
    }
}

/// Plays the put of the player to move on `position` in one game of the
/// batch, then a pass if the next player has no move; a game that is done is
/// left as it is. Returns whether the game is done.
pub fn step_game(table: &mut Table, done: &mut bool, position: Position) -> (res: Result<bool, String>)
    ensures
        game_stepped(*old(table), *old(done), position, *final(table), *final(done)),
        match game_error(*old(table), *old(done), position) {
            Some(e) => (res matches Err(msg) && msg@ == e),
            None => res == Ok::<bool, String>(*final(done)),
        },
{
    if *done {
        return Ok(true);
    }

    let turn = table.turn();
    let action = Action::PutDisk(PutConfig::new(turn, position));
    proof {
        assert(action == put_of_turn(*old(table), position));
    }
    let ghost before = *table;

    // Apply the chosen action to the game board.
    match Controller::step(table, action) {
        Ok(step_result) => {
            let ghost mid = *table;
            proof {
                lemma_empty_puttable(mid, step_result);
            }
            // Check if the game has ended and update the `done` flag.
            if step_result.judge_result.is_some() {
                *done = true;
            }
            if step_result.puttable_positions.is_empty() {
                let next_turn = table.turn();
                match Controller::step(table, Action::PassTurn(next_turn)) {
                    Ok(step_result) => {
                        if step_result.judge_result.is_some() {
                            *done = true;
                        }
                    },
                    Err(err) => {
                        proof {
                            assert(false);
                        }
                        return Err(err);
                    },
                }
                proof {
                    assert(table.board_of() == mid.board_of());
                    assert(put_then_pass(before, position, *table));
                }
            } else {
                proof {
                    assert(put_then_pass(before, position, *table));
                }
            }
            Ok(*done)
        },
        Err(err) => Err(err),
    }
}

/// The error for an action index off the board.
pub open spec fn action_out_of_range_text() -> Seq<char> {
    "Action must be between 0 and 63"@
}

/// `table` is a new game table with the planes `dark` and `light` and
/// `turn` to move.
pub open spec fn planes_table(table: Table, dark: u64, light: u64, turn: DiskColor) -> bool {
    &&& table.board_of().dark() == dark
    &&& table.board_of().light() == light
    &&& table.turn_of() == turn
    &&& table.history_of() == Seq::<Action>::empty()
}

/// The value at `c` (`0 <= c < 256`) of the encoding of a board with `turn`
/// to move: four channels of the 64 squares (row by row from the top-left
/// square): the dark disks, the light disks, the player to move (1 for dark,
/// -1 for light) and the squares on which that player can put a disk.
pub open spec fn board_value(board: Bitboard, turn: DiskColor, c: int) -> i8 {
    let ch = c / 64;
    let i = c % 64;
    if ch == 0 {
        if at(board.dark(), i / 8, i % 8) {
            1
        } else {
            0
        }
    } else if ch == 1 {
        if at(board.light(), i / 8, i % 8) {
            1
        } else {
            0
        }
    } else if ch == 2 {
        if turn == DiskColor::Dark {
            1i8
        } else {
            -1i8
        }
    } else {
        if can_put(board, turn, i / 8, i % 8) {
            1
        } else {
            0
        }
    }
}

/// The value at `c` (`0 <= c < 256`) of the encoding of `table`: that of its
/// board with its player to move (see [`board_value`]).
pub open spec fn state_value(table: Table, c: int) -> i8 {
    board_value(table.board_of(), table.turn_of(), c)
}

pub(crate) proof fn lemma_split_index(b: int, c: int, n: int)
    by (nonlinear_arith)
    requires
        0 <= b,
        0 <= c < n,
        0 < n,
    ensures
        (b * n + c) / n == b,
        (b * n + c) % n == c,
{
}

/// Appends to `out` the 256 values of the encoding of `board` with `turn` to
/// move (see [`board_value`]).
pub(crate) fn push_board_values(out: &mut Vec<i8>, board: &Bitboard, turn: DiskColor)
    requires
        old(out)@.len() + 256 <= usize::MAX,
    ensures
        final(out)@.len() == old(out)@.len() + 256,
        forall|j: int| 0 <= j < old(out)@.len() ==> #[trigger] final(out)@[j] == old(out)@[j],
        forall|c: int|
            0 <= c < 256 ==> #[trigger] final(out)@[old(out)@.len() + c] == board_value(
                *board,
                turn,
                c,
            ),
{
    let ghost start = out@.len();
    let puttable_positions = get_puttable_positions(board, turn);
    let turn_val: i8 = if turn == DiskColor::Dark {
        1
    } else {
        -1
    };
    let dark_plane = board.dark_plane();
    let light_plane = board.light_plane();
    let mut c: usize = 0;
    while c < 256
        invariant
            c <= 256,
            start == old(out)@.len(),
            start + 256 <= usize::MAX,
            dark_plane == board.dark(),
            light_plane == board.light(),
            turn_val == (if turn == DiskColor::Dark {
                1i8
            } else {
                -1i8
            }),
            forall|r: int, col: int|
                in_board(r, col) ==> (#[trigger] at(puttable_positions.0, r, col) <==> can_put(
                    *board,
                    turn,
                    r,
                    col,
                )),
            out@.len() == start + c,
            forall|j: int| 0 <= j < start ==> #[trigger] out@[j] == old(out)@[j],
            forall|k: int| 0 <= k < c ==> #[trigger] out@[start + k] == board_value(*board, turn, k),
        decreases 256 - c,
    {
        let ch = c / 64;
        let i = c % 64;
        let shift = (63 - i) as u64;
        let ghost ii = i as int;
        proof {
            assert(in_board(ii / 8, ii % 8));
            assert(crate::bits::square_bit(ii / 8, ii % 8) == shift);
        }
        let value: i8 = if ch == 0 {
            if (dark_plane >> shift) & 1 == 1 {
                1
            } else {
                0
            }
        } else if ch == 1 {
            if (light_plane >> shift) & 1 == 1 {
                1
            } else {
                0
            }
        } else if ch == 2 {
            turn_val
        } else {
            if (puttable_positions.0 >> shift) & 1 == 1 {
                1
            } else {
                0
            }
        };
        proof {
            assert(ch as int == (c as int) / 64 && ii == (c as int) % 64);
            assert(at(dark_plane, ii / 8, ii % 8) == ((dark_plane >> shift) & 1 == 1));
            assert(at(light_plane, ii / 8, ii % 8) == ((light_plane >> shift) & 1 == 1));
            assert(at(puttable_positions.0, ii / 8, ii % 8) == ((puttable_positions.0 >> shift) & 1 == 1));
            if ch == 3 {
                assert(can_put(*board, turn, ii / 8, ii % 8) == at(puttable_positions.0, ii / 8, ii % 8));
            }
            assert(value == board_value(*board, turn, c as int));
        }
        let ghost prev = out@;
        out.push(value);
        proof {
            assert forall|k: int| 0 <= k < c + 1 implies #[trigger] out@[start + k] == board_value(
                *board,
                turn,
                k,
            ) by {
                if k < c {
                    assert(out@[start + k] == prev[start + k]);
                }
            }
        }
        c = c + 1;
    }
}

/// A batch of parallel Reversi games for reinforcement learning.
pub struct ReversiEnvironment {
    /// A vector of `Table`s, each representing the state of a single Reversi game.
    tables: Vec<Table>,
    /// A vector of booleans, where `true` indicates that the game at the corresponding index has finished.
    dones: Vec<bool>,
    /// The number of games in the batch.
    batch_size: usize,
    /// A seed value used to determine actions stochastically.
    seed: u64,
}

impl ReversiEnvironment {
    /// The tables of the games.
    pub closed spec fn tables_of(self) -> Seq<Table> {
        self.tables@
    }

    /// Which games are done.
    pub closed spec fn dones_of(self) -> Seq<bool> {
        self.dones@
    }

    /// The number of games.
    pub closed spec fn batch_size_of(self) -> usize {
        self.batch_size
    }

    /// The seed for the next stochastic step.
    pub closed spec fn seed_of(self) -> u64 {
        self.seed
    }

    /// There is a table and a done flag for each game.
    pub open spec fn wf(self) -> bool {
        &&& self.tables_of().len() == self.batch_size_of()
        &&& self.dones_of().len() == self.batch_size_of()
    }

    /// Every game is at its start and not done.
    pub open spec fn all_initial(self) -> bool {
        forall|i: int|
            0 <= i < self.batch_size_of() ==> is_initial_table(#[trigger] self.tables_of()[i])
                && !self.dones_of()[i]
    }

    fn initial_games(batch_size: usize) -> (res: (Vec<Table>, Vec<bool>))
        ensures
            res.0@.len() == batch_size,
            res.1@.len() == batch_size,
            forall|i: int| 0 <= i < batch_size ==> is_initial_table(#[trigger] res.0@[i]) && !res.1@[i],
    {
        let mut tables: Vec<Table> = Vec::new();
        let mut dones: Vec<bool> = Vec::new();
        let mut i: usize = 0;
        while i < batch_size
            invariant
                i <= batch_size,
                tables@.len() == i,
                dones@.len() == i,
                forall|k: int| 0 <= k < i ==> is_initial_table(#[trigger] tables@[k]) && !dones@[k],
            decreases batch_size - i,
        {
            tables.push(Table::default());
            dones.push(false);
            i = i + 1;
        }
        (tables, dones)
    }

    /// Creates a new `ReversiEnvironment` with a specified batch size.
    pub fn new(batch_size: usize, seed: u64) -> (res: Self)
        ensures
            res.wf(),
            res.batch_size_of() == batch_size,
            res.seed_of() == seed,
            res.all_initial(),
    {
        let (tables, dones) = Self::initial_games(batch_size);
        ReversiEnvironment { tables, dones, batch_size, seed }
    }

    /// The number of games in the batch.
    pub fn batch_size(&self) -> (res: usize)
        ensures
            res == self.batch_size_of(),
    {
        self.batch_size
    }

    /// Returns the seed of the next stochastic step and advances it.
    pub fn next_seed(&mut self) -> (res: u64)
        requires
            old(self).seed_of() < u64::MAX,
        ensures
            res == old(self).seed_of(),
            final(self).seed_of() == old(self).seed_of() + 1,
            final(self).tables_of() == old(self).tables_of(),
            final(self).dones_of() == old(self).dones_of(),
            final(self).batch_size_of() == old(self).batch_size_of(),
    {
        let seed = self.seed;
        self.seed = self.seed + 1;
        seed
    }

    /// Returns a reference to the tables of the games.
    pub fn tables(&self) -> (res: &Vec<Table>)
        ensures
            res@ == self.tables_of(),
    {
        &self.tables
    }

    /// Resets all games in the environment to their initial state.
    pub fn reset(&mut self)
        ensures
            final(self).wf(),
            final(self).batch_size_of() == old(self).batch_size_of(),
            final(self).seed_of() == old(self).seed_of(),
            final(self).all_initial(),
    {
        let (tables, dones) = Self::initial_games(self.batch_size);
        self.tables = tables;
        self.dones = dones;
    }

    /// Resets games specified by `indices` to their initial state; indices
    /// off the batch are ignored.
    #[verifier::spinoff_prover]
    pub fn reset_indices(&mut self, indices: Vec<usize>)
        requires
            old(self).wf(),
        ensures
            final(self).wf(),
            final(self).batch_size_of() == old(self).batch_size_of(),
            final(self).seed_of() == old(self).seed_of(),
            forall|i: int|
                0 <= i < old(self).batch_size_of() ==> if indices@.contains(i as usize) {
                    is_initial_table(#[trigger] final(self).tables_of()[i]) && !final(self).dones_of()[i]
                } else {
                    final(self).tables_of()[i] == old(self).tables_of()[i] && final(self).dones_of()[i]
                        == old(self).dones_of()[i]
                },
    {
        let mut j: usize = 0;
        while j < indices.len()
            invariant
                j <= indices@.len(),
                old(self).wf(),
                self.wf(),
                self.batch_size_of() == old(self).batch_size_of(),
                self.seed_of() == old(self).seed_of(),
                forall|i: int|
                    0 <= i < old(self).batch_size_of() ==> if indices@.subrange(0, j as int).contains(
                        i as usize,
                    ) {
                        is_initial_table(#[trigger] self.tables_of()[i]) && !self.dones_of()[i]
                    } else {
                        self.tables_of()[i] == old(self).tables_of()[i] && self.dones_of()[i]
                            == old(self).dones_of()[i]
                    },
            decreases indices@.len() - j,
        {
            let index = indices[j];
            proof {
                assert forall|x: usize| #[trigger] indices@.subrange(0, j as int + 1).contains(x) <==> (
                indices@.subrange(0, j as int).contains(x) || x == index) by {
                    if indices@.subrange(0, j as int + 1).contains(x) {
                        let k = choose|k: int| 0 <= k < j + 1 && #[trigger] indices@.subrange(0, j as int + 1)[k] == x;
                        if k < j {
                            assert(indices@.subrange(0, j as int)[k] == x);
                        }
                    }
                    if indices@.subrange(0, j as int).contains(x) {
                        let k = choose|k: int| 0 <= k < j && #[trigger] indices@.subrange(0, j as int)[k] == x;
                        assert(indices@.subrange(0, j as int + 1)[k] == x);
                    }
                    if x == index {
                        assert(indices@.subrange(0, j as int + 1)[j as int] == x);
                    }
                }
            }
            let ghost prev = *self;
            if index < self.batch_size {
                self.tables.set(index, Table::default());
                self.dones.set(index, false);
            }
            proof {
                assert forall|i: int| 0 <= i < old(self).batch_size_of() implies if indices@.subrange(0, j as int + 1).contains(
                        i as usize,
                    ) {
                        is_initial_table(#[trigger] self.tables_of()[i]) && !self.dones_of()[i]
                    } else {
                        self.tables_of()[i] == old(self).tables_of()[i] && self.dones_of()[i]
                            == old(self).dones_of()[i]
                    } by {
                    if i != index as int {
                        assert(self.tables_of()[i] == prev.tables_of()[i]);
                        assert(self.dones_of()[i] == prev.dones_of()[i]);
                        assert((i as usize) != index);
                    }
                }
            }
            j = j + 1;
        }
        proof {
            assert(indices@.subrange(0, indices@.len() as int) =~= indices@);
        }
    }

    /// Encodes the games: for each table in turn, the 256 values of
    /// [`state_value`].
    pub fn get_state_vec(tables: &Vec<Table>) -> (res: Vec<i8>)
        requires
            tables@.len() * 256 <= usize::MAX,
        ensures
            res@.len() == tables@.len() * 256,
            forall|j: int|
                0 <= j < res@.len() ==> #[trigger] res@[j] == state_value(tables@[j / 256], j % 256),
    {
        let mut state_vec: Vec<i8> = Vec::new();
        let mut b: usize = 0;
        while b < tables.len()
            invariant
                b <= tables@.len(),
                tables@.len() * 256 <= usize::MAX,
                state_vec@.len() == b * 256,
                forall|j: int|
                    0 <= j < state_vec@.len() ==> #[trigger] state_vec@[j] == state_value(
                        tables@[j / 256],
                        j % 256,
                    ),
            decreases tables@.len() - b,
        {
            let table = &tables[b];
            let ghost before = state_vec@;
            push_board_values(&mut state_vec, table.board(), table.turn());
            proof {
                assert forall|j: int| 0 <= j < state_vec@.len() implies #[trigger] state_vec@[j]
                    == state_value(tables@[j / 256], j % 256) by {
                    if j >= before.len() {
                        let c = j - before.len();
                        lemma_split_index(b as int, c, 256);
                        assert(state_vec@[before.len() + c] == board_value(
                            table.board_of(),
                            table.turn_of(),
                            c,
                        ));
                    } else {
                        assert(state_vec@[j] == before[j]);
                    }
                }
            }
            b = b + 1;
        }
        state_vec
    }

    /// Computes the next state of a single game: the game with the planes
    /// `dark_plane` and `light_plane` and `turn` to move, once the player to
    /// move has put a disk on the square with index `action` (row by row from
    /// the top-left square), followed by a pass if the next player has no move.
    pub fn get_next_state(dark_plane: u64, light_plane: u64, turn: DiskColor, action: usize) -> (res:
        Result<Table, String>)
        ensures
            action >= 64 ==> (res matches Err(e) && e@ == action_out_of_range_text()),
            action < 64 ==> exists|start: Table, position: Position|
                #![trigger planes_table(start, dark_plane, light_plane, turn), crate::bits::square_index(position.r(), position.c())]
                planes_table(start, dark_plane, light_plane, turn) && crate::bits::square_index(
                    position.r(),
                    position.c(),
                ) == action && match check_error(put_of_turn(start, position), start) {
                    Some(e) => (res matches Err(msg) && msg@ == e),
                    None => (res matches Ok(t) && put_then_pass(start, position, t)),
                },
    {
        // Create a new table with the given position
        let mut table = Table::default();
        table.set_turn(turn);
        table.set_board(Bitboard::new(dark_plane, light_plane));
        let ghost start = table;

        // Validate the action is within bounds (0-63)
        if action >= 64 {
            return Err(String::from_str("Action must be between 0 and 63"));
        }

        // Apply the action, then a pass if the next player cannot move.
        let row = Row::from_u8((action / 8) as u8).unwrap();
        let column = Column::from_u8((action % 8) as u8).unwrap();
        let position = Position::new(row, column);
        let mut done = false;
        let res = step_game(&mut table, &mut done, position);
        proof {
            assert(crate::bits::square_index(position.r(), position.c()) == action);
            assert(planes_table(start, dark_plane, light_plane, turn));
        }
        match res {
            Ok(_) => Ok(table),
            Err(err) => Err(err),
        }
    }


    /// Steps every game of the batch by one move: the player to move in game
    /// `i` puts a disk on `positions[i]` (games that are done are skipped),
    /// followed by a pass when the next player has no move. Returns whether
    /// each game is done, or the error of the first game whose put is refused.
    #[verifier::spinoff_prover]
    #[verifier::rlimit(40)]
    pub fn step_batch(&mut self, positions: &Vec<Position>) -> (res: Result<Vec<bool>, String>)
        requires
            old(self).wf(),
            positions@.len() == old(self).batch_size_of(),
        ensures
            final(self).wf(),
            final(self).batch_size_of() == old(self).batch_size_of(),
            final(self).seed_of() == old(self).seed_of(),
            forall|i: int|
                0 <= i < old(self).batch_size_of() ==> game_stepped(
                    old(self).tables_of()[i],
                    old(self).dones_of()[i],
                    positions@[i],
                    #[trigger] final(self).tables_of()[i],
                    final(self).dones_of()[i],
                ),
            res is Ok <==> forall|i: int|
                0 <= i < old(self).batch_size_of() ==> #[trigger] game_error(
                    old(self).tables_of()[i],
                    old(self).dones_of()[i],
                    positions@[i],
                ) is None,
            res matches Ok(dones) ==> dones@ == final(self).dones_of(),
            res matches Err(e) ==> exists|i: int|
                0 <= i < old(self).batch_size_of() && #[trigger] game_error(
                    old(self).tables_of()[i],
                    old(self).dones_of()[i],
                    positions@[i],
                ) == Some(e@) && forall|k: int|
                    0 <= k < i ==> #[trigger] game_error(
                        old(self).tables_of()[k],
                        old(self).dones_of()[k],
                        positions@[k],
                    ) is None,
    {
        let n = self.batch_size;
        let mut first_error: Option<String> = None;
        let ghost mut err_at: int = 0;
        let mut i: usize = 0;
        while i < n
            invariant
                i <= n,
                n == old(self).batch_size_of(),
                old(self).wf(),
                positions@.len() == n,
                self.wf(),
                self.batch_size_of() == n,
                self.seed_of() == old(self).seed_of(),
                forall|k: int|
                    0 <= k < i ==> game_stepped(
                        old(self).tables_of()[k],
                        old(self).dones_of()[k],
                        positions@[k],
                        #[trigger] self.tables_of()[k],
                        self.dones_of()[k],
                    ),
                forall|k: int|
                    i <= k < n ==> #[trigger] self.tables_of()[k] == old(self).tables_of()[k]
                        && self.dones_of()[k] == old(self).dones_of()[k],
                first_error is None <==> forall|k: int|
                    0 <= k < i ==> #[trigger] game_error(
                        old(self).tables_of()[k],
                        old(self).dones_of()[k],
                        positions@[k],
                    ) is None,
                first_error matches Some(e) ==> 0 <= err_at < i && game_error(
                    old(self).tables_of()[err_at],
                    old(self).dones_of()[err_at],
                    positions@[err_at],
                ) == Some(e@) && forall|k: int|
                    0 <= k < err_at ==> #[trigger] game_error(
                        old(self).tables_of()[k],
                        old(self).dones_of()[k],
                        positions@[k],
                    ) is None,
            decreases n - i,
        {
            let ghost before = *self;
            let mut done = self.dones[i];
            let result = step_game(&mut self.tables[i], &mut done, positions[i]);
            self.dones.set(i, done);
            proof {
                assert forall|k: int| 0 <= k < i + 1 implies game_stepped(
                    old(self).tables_of()[k],
                    old(self).dones_of()[k],
                    positions@[k],
                    #[trigger] self.tables_of()[k],
                    self.dones_of()[k],
                ) by {
                    if k < i {
                        assert(self.tables_of()[k] == before.tables_of()[k]);
                        assert(self.dones_of()[k] == before.dones_of()[k]);
                    }
                }
                assert forall|k: int| i + 1 <= k < n implies #[trigger] self.tables_of()[k] == old(self).tables_of()[k]
                        && self.dones_of()[k] == old(self).dones_of()[k] by {
                    assert(self.tables_of()[k] == before.tables_of()[k]);
                    assert(self.dones_of()[k] == before.dones_of()[k]);
                }
            }
            match result {
                Err(e) => {
                    if first_error.is_none() {
                        proof {
                            err_at = i as int;
                        }
                        first_error = Some(e);
                    }
                },
                Ok(_) => {},
            }
            proof {
                assert(game_error(old(self).tables_of()[i as int], old(self).dones_of()[i as int], positions@[i as int]) is None <==> result is Ok);
            }
            i = i + 1;
        }
        match first_error {
            Some(e) => Err(e),
            None => {
                let mut dones: Vec<bool> = Vec::new();
                let mut k: usize = 0;
                while k < n
                    invariant
                        k <= n,
                        self.wf(),
                        self.batch_size_of() == n,
                        dones@ == self.dones_of().subrange(0, k as int),
                    decreases n - k,
                {
                    dones.push(self.dones[k]);
                    k = k + 1;
                    proof {
                        assert(dones@ =~= self.dones_of().subrange(0, k as int));
                    }
                }
                proof {
                    assert(dones@ =~= self.dones_of());
                }
                Ok(dones)
            },
        }
    }
}

} // verus!
