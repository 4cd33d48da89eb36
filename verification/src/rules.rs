//! The rules of Reversi on bitboards: which squares a player may put a disk
//! on, which disks a move flips, and how a move changes the board.
use crate::bits::{
    at, in_board, lemma_at_ops_all, lemma_long_walk_leaves, lemma_opposite_dir, lemma_zero_iff_no_square,
    lemma_at_nonzero, lemma_single, single,
    opposite_dir, shift_dir, step_c, step_r,
};
use crate::action::Action;
use crate::board::Bitboard;
use crate::disk::{opposite_color, DiskColorExt};
use crate::messages::{
    cannot_put_message, cannot_put_text, non_empty_square_message, non_empty_square_text,
    pass_with_moves_message, pass_with_moves_text, wrong_turn_pass_message, wrong_turn_pass_text,
    wrong_turn_put_message, wrong_turn_put_text,
};
use crate::table::Table;
use crate::position::{lemma_position_in_board, BitPosition, Column, Position, Row};
use crate::disk::DiskColor;
use vstd::prelude::*;

verus! {

/// Walking from `(r, c)` in direction `d`, the squares after `1..=k` steps hold
/// disks of plane `o` and the square after `k + 1` steps holds a disk of plane
/// `p`: a disk put on `(r, c)` by the owner of `p` brackets `k` disks of `o`.
pub open spec fn bracket(p: u64, o: u64, r: int, c: int, d: int, k: int) -> bool {
    &&& 1 <= k
    &&& forall|j: int| 1 <= j <= k ==> #[trigger] at(o, step_r(d, r, j), step_c(d, c, j))
    &&& at(p, step_r(d, r, k + 1), step_c(d, c, k + 1))
}

/// A disk put on `(r, c)` by the owner of `p` brackets disks of `o` in direction `d`.
pub open spec fn captures_in_dir(p: u64, o: u64, r: int, c: int, d: int) -> bool {
    exists|k: int| #[trigger] bracket(p, o, r, c, d, k)
}

/// The owner of plane `p` may put a disk on `(r, c)` against the owner of
/// plane `o`: the square is empty and the disk brackets at least one disk of
/// `o` in some direction.
pub open spec fn is_legal_move(p: u64, o: u64, r: int, c: int) -> bool {
    &&& in_board(r, c)
    &&& !at(p, r, c)
    &&& !at(o, r, c)
    &&& exists|d: int| 0 <= d < 8 && #[trigger] captures_in_dir(p, o, r, c, d)
}

/// The plane of the player whose turn it is and the plane of the opponent.
pub open spec fn player_plane(board: Bitboard, turn: DiskColor) -> u64 {
    match turn {
        DiskColor::Dark => board.dark(),
        DiskColor::Light => board.light(),
    }
}

/// The plane of the opponent of the player whose turn it is.
pub open spec fn opponent_plane(board: Bitboard, turn: DiskColor) -> u64 {
    match turn {
        DiskColor::Dark => board.light(),
        DiskColor::Light => board.dark(),
    }
}

/// `turn` may put a disk on `(r, c)` of `board`.
pub open spec fn can_put(board: Bitboard, turn: DiskColor, r: int, c: int) -> bool {
    is_legal_move(player_plane(board, turn), opponent_plane(board, turn), r, c)
}

/// `turn` has at least one square to put a disk on.
pub open spec fn has_legal_move(board: Bitboard, turn: DiskColor) -> bool {
    exists|r: int, c: int| #[trigger] can_put(board, turn, r, c)
}

/// Walking backwards from `(r, c)` against direction `d`: the squares after
/// `0..t` steps hold disks of `o` and the square after `t` steps a disk of `p`.
spec fn chain(p: u64, o: u64, r: int, c: int, d: int, t: int) -> bool {
    &&& 1 <= t
    &&& forall|j: int| 0 <= j < t ==> #[trigger] at(o, step_r(d, r, -j), step_c(d, c, -j))
    &&& at(p, step_r(d, r, -t), step_c(d, c, -t))
}

proof fn lemma_chain_step(p: u64, o: u64, r: int, c: int, d: int, t: int)
    requires
        0 <= d < 8,
        1 <= t,
    ensures
        chain(p, o, r, c, d, t + 1) <==> (at(o, r, c) && chain(
            p,
            o,
            step_r(d, r, -1),
            step_c(d, c, -1),
            d,
            t,
        )),
{
    let r1 = step_r(d, r, -1);
    let c1 = step_c(d, c, -1);
    if chain(p, o, r, c, d, t + 1) {
        assert(at(o, step_r(d, r, -0), step_c(d, c, -0)));
        assert forall|j: int| 0 <= j < t implies #[trigger] at(
            o,
            step_r(d, r1, -j),
            step_c(d, c1, -j),
        ) by {
            assert(at(o, step_r(d, r, -(j + 1)), step_c(d, c, -(j + 1))));
        }
    }
    if at(o, r, c) && chain(p, o, r1, c1, d, t) {
        assert forall|j: int| 0 <= j < t + 1 implies #[trigger] at(
            o,
            step_r(d, r, -j),
            step_c(d, c, -j),
        ) by {
            if j > 0 {
                assert(at(o, step_r(d, r1, -(j - 1)), step_c(d, c1, -(j - 1))));
            }
        }
    }
}

proof fn lemma_chain_bracket(p: u64, o: u64, r: int, c: int, d: int, t: int)
    requires
        0 <= d < 8,
        1 <= t,
    ensures
        chain(p, o, step_r(d, r, -1), step_c(d, c, -1), d, t) <==> bracket(
            p,
            o,
            r,
            c,
            opposite_dir(d),
            t,
        ),
{
    let e = opposite_dir(d);
    let r1 = step_r(d, r, -1);
    let c1 = step_c(d, c, -1);
    if chain(p, o, r1, c1, d, t) {
        assert forall|j: int| 1 <= j <= t implies #[trigger] at(
            o,
            step_r(e, r, j),
            step_c(e, c, j),
        ) by {
            lemma_opposite_dir(d, r, c, j);
            assert(at(o, step_r(d, r1, -(j - 1)), step_c(d, c1, -(j - 1))));
        }
        lemma_opposite_dir(d, r, c, t + 1);
    }
    if bracket(p, o, r, c, e, t) {
        assert forall|j: int| 0 <= j < t implies #[trigger] at(
            o,
            step_r(d, r1, -j),
            step_c(d, c1, -j),
        ) by {
            lemma_opposite_dir(d, r, c, j + 1);
            assert(at(o, step_r(e, r, j + 1), step_c(e, c, j + 1)));
        }
        lemma_opposite_dir(d, r, c, t + 1);
    }
}

/// A bracket never holds more than six disks.
proof fn lemma_bracket_short(p: u64, o: u64, r: int, c: int, d: int, k: int)
    requires
        0 <= d < 8,
        in_board(r, c),
        bracket(p, o, r, c, d, k),
    ensures
        k <= 6,
{
    if k >= 7 {
        lemma_long_walk_leaves(d, r, c, k + 1);
    }
}

/// A bitboard that represents positions on the board that can be put.
pub struct PuttablePositions(pub u64);

/// Returns a list of positions that can be put.
///
/// # Arguments
///
/// * `board` - A board of the game.
/// * `turn` - A current turn color.
///
/// # Returns
///
/// A list of positions that can be put.
pub fn get_puttable_positions(board: &Bitboard, turn: DiskColor) -> (res: PuttablePositions)
    ensures
        forall|r: int, c: int|
            in_board(r, c) ==> (#[trigger] at(res.0, r, c) <==> can_put(*board, turn, r, c)),
{
    let (player_board, opponent_board) = match turn {
        DiskColor::Dark => (board.dark_plane(), board.light_plane()),
        DiskColor::Light => (board.light_plane(), board.dark_plane()),
    };
    let empty_board = !(player_board | opponent_board);
    let ghost p = player_board;
    let ghost o = opponent_board;

    let mut legal_moves: u64 = 0;
    let mut d: u8 = 0;
    proof {
        lemma_zero_iff_no_square(0);
    }
    while d < 8
        invariant
            d <= 8,
            p == player_board,
            o == opponent_board,
            forall|r: int, c: int|
                in_board(r, c) ==> (#[trigger] at(legal_moves, r, c) <==> exists|dd: int, t: int|
                    0 <= dd < d && 1 <= t <= 6 && #[trigger] bracket(p, o, r, c, opposite_dir(dd), t)),
        decreases 8 - d,
    {
        let shifted = shift_dir(player_board, d);
        let mut rev = shifted & opponent_board;
        proof {
            lemma_at_ops_all(shifted, opponent_board);
            assert forall|r: int, c: int| in_board(r, c) implies (#[trigger] at(rev, r, c)
                <==> exists|t: int| 1 <= t <= 1 && #[trigger] chain(p, o, r, c, d as int, t)) by {
                assert(step_r(d as int, r, -0) == r && step_c(d as int, c, -0) == c);
                if at(rev, r, c) {
                    assert(chain(p, o, r, c, d as int, 1));
                }
                if exists|t: int| 1 <= t <= 1 && #[trigger] chain(p, o, r, c, d as int, t) {
                    assert(chain(p, o, r, c, d as int, 1));
                    assert(at(o, step_r(d as int, r, -0), step_c(d as int, c, -0)));
                }
            }
        }
        let mut k: u8 = 0;
        while k < 5
            invariant
                k <= 5,
                d < 8,
                p == player_board,
                o == opponent_board,
                forall|r: int, c: int|
                    in_board(r, c) ==> (#[trigger] at(rev, r, c) <==> exists|t: int|
                        1 <= t <= k + 1 && #[trigger] chain(p, o, r, c, d as int, t)),
            decreases 5 - k,
        {
            let moved = shift_dir(rev, d);
            let next = rev | (moved & opponent_board);
            proof {
                lemma_at_ops_all(moved, opponent_board);
                lemma_at_ops_all(rev, moved & opponent_board);
                assert forall|r: int, c: int| in_board(r, c) implies (#[trigger] at(next, r, c)
                    <==> exists|t: int| 1 <= t <= k + 2 && #[trigger] chain(p, o, r, c, d as int, t))
                    by {
                    let r1 = step_r(d as int, r, -1);
                    let c1 = step_c(d as int, c, -1);
                    if at(next, r, c) {
                        if !at(rev, r, c) {
                            assert(at(rev, r1, c1) && at(o, r, c));
                            let t = choose|t: int|
                                1 <= t <= k + 1 && #[trigger] chain(p, o, r1, c1, d as int, t);
                            lemma_chain_step(p, o, r, c, d as int, t);
                            assert(chain(p, o, r, c, d as int, t + 1));
                        }
                    }
                    if exists|t: int| 1 <= t <= k + 2 && #[trigger] chain(p, o, r, c, d as int, t) {
                        let t = choose|t: int|
                            1 <= t <= k + 2 && #[trigger] chain(p, o, r, c, d as int, t);
                        if t >= 2 {
                            lemma_chain_step(p, o, r, c, d as int, t - 1);
                            if in_board(r1, c1) {
                                assert(chain(p, o, r1, c1, d as int, t - 1));
                                assert(at(rev, r1, c1));
                            } else {
                                assert(at(o, step_r(d as int, r, -1), step_c(d as int, c, -1)));
                            }
                        }
                    }
                }
            }
            rev = next;
            k = k + 1;
        }
        let captured = shift_dir(rev, d);
        let acc = legal_moves | captured;
        proof {
            lemma_at_ops_all(legal_moves, captured);
            assert forall|r: int, c: int| in_board(r, c) implies (#[trigger] at(acc, r, c)
                <==> exists|dd: int, t: int|
                0 <= dd < d + 1 && 1 <= t <= 6 && #[trigger] bracket(
                    p,
                    o,
                    r,
                    c,
                    opposite_dir(dd),
                    t,
                )) by {
                let r1 = step_r(d as int, r, -1);
                let c1 = step_c(d as int, c, -1);
                if at(captured, r, c) {
                    assert(at(rev, r1, c1));
                    let t = choose|t: int| 1 <= t <= 6 && #[trigger] chain(p, o, r1, c1, d as int, t);
                    lemma_chain_bracket(p, o, r, c, d as int, t);
                    assert(bracket(p, o, r, c, opposite_dir(d as int), t));
                }
                if exists|dd: int, t: int|
                    0 <= dd < d + 1 && 1 <= t <= 6 && #[trigger] bracket(
                        p,
                        o,
                        r,
                        c,
                        opposite_dir(dd),
                        t,
                    ) {
                    let (dd, t) = choose|dd: int, t: int|
                        0 <= dd < d + 1 && 1 <= t <= 6 && #[trigger] bracket(
                            p,
                            o,
                            r,
                            c,
                            opposite_dir(dd),
                            t,
                        );
                    if dd == d {
                        lemma_chain_bracket(p, o, r, c, d as int, t);
                        assert(chain(p, o, r1, c1, d as int, t));
                        assert(at(o, step_r(d as int, r1, -0), step_c(d as int, c1, -0)));
                        assert(at(rev, r1, c1));
                    }
                }
            }
        }
        legal_moves = acc;
        d = d + 1;
    }
    let res = legal_moves & empty_board;
    proof {
        lemma_at_ops_all(legal_moves, empty_board);
        lemma_at_ops_all(player_board | opponent_board, 0);
        lemma_at_ops_all(player_board, opponent_board);
        assert forall|r: int, c: int| in_board(r, c) implies (#[trigger] at(res, r, c)
            <==> can_put(*board, turn, r, c)) by {
            if at(res, r, c) {
                let (dd, t) = choose|dd: int, t: int|
                    0 <= dd < 8 && 1 <= t <= 6 && #[trigger] bracket(
                        p,
                        o,
                        r,
                        c,
                        opposite_dir(dd),
                        t,
                    );
                lemma_opposite_dir(dd, r, c, 0);
                assert(captures_in_dir(p, o, r, c, opposite_dir(dd)));
            }
            if can_put(*board, turn, r, c) {
                let e = choose|e: int| 0 <= e < 8 && #[trigger] captures_in_dir(p, o, r, c, e);
                let t = choose|t: int| #[trigger] bracket(p, o, r, c, e, t);
                lemma_bracket_short(p, o, r, c, e, t);
                lemma_opposite_dir(e, r, c, 0);
                assert(bracket(p, o, r, c, opposite_dir(opposite_dir(e)), t));
            }
        }
    }
    PuttablePositions(res)
}

/// Walking from `(r, c)` in direction `d`, exactly the squares after `1..=k`
/// steps hold disks of `o`, and the first square after them holds a disk of
/// `p` (and none of `o`): a disk put on `(r, c)` flips those `k` disks.
pub open spec fn capture(p: u64, o: u64, r: int, c: int, d: int, k: int) -> bool {
    &&& bracket(p, o, r, c, d, k)
    &&& !at(o, step_r(d, r, k + 1), step_c(d, c, k + 1))
}

/// A disk put on `(r, c)` by the owner of `p` flips the disk on `(r2, c2)` in
/// direction `d`.
pub open spec fn flips_in_dir(p: u64, o: u64, r: int, c: int, d: int, r2: int, c2: int) -> bool {
    exists|k: int, t: int|
        #![trigger capture(p, o, r, c, d, k), step_r(d, r, t)]
        capture(p, o, r, c, d, k) && 1 <= t <= k && r2 == step_r(d, r, t) && c2 == step_c(
            d,
            c,
            t,
        )
}

/// A disk put on `(r, c)` by the owner of `p` flips the disk on `(r2, c2)`.
pub open spec fn flips(p: u64, o: u64, r: int, c: int, r2: int, c2: int) -> bool {
    exists|d: int| 0 <= d < 8 && #[trigger] flips_in_dir(p, o, r, c, d, r2, c2)
}

/// A disk of `turn` put on `(r, c)` of `board` flips the disk on `(r2, c2)`.
pub open spec fn flipped_by(
    board: Bitboard,
    turn: DiskColor,
    r: int,
    c: int,
    r2: int,
    c2: int,
) -> bool {
    flips(player_plane(board, turn), opponent_plane(board, turn), r, c, r2, c2)
}

/// At most one run length in a direction is a capture.
proof fn lemma_capture_unique(p: u64, o: u64, r: int, c: int, d: int, k1: int, k2: int)
    requires
        capture(p, o, r, c, d, k1),
        capture(p, o, r, c, d, k2),
    ensures
        k1 == k2,
{
    if k1 < k2 {
        assert(at(o, step_r(d, r, k1 + 1), step_c(d, c, k1 + 1)));
    }
    if k2 < k1 {
        assert(at(o, step_r(d, r, k2 + 1), step_c(d, c, k2 + 1)));
    }
}

/// A bitboard that represents positions on the board that can be flipped.
pub struct FlipPositions(pub u64);

impl FlipPositions {
    /// Checks if there are no positions that can be flipped.
    pub fn is_empty(&self) -> (res: bool)
        ensures
            res == (self.0 == 0),
            res == forall|r: int, c: int| in_board(r, c) ==> !#[trigger] at(self.0, r, c),
    {
        proof {
            lemma_zero_iff_no_square(self.0);
        }
        self.0 == 0
    }
}

impl PuttablePositions {
    /// Checks if there are no puttable positions.
    pub fn is_empty(&self) -> (res: bool)
        ensures
            res == (self.0 == 0),
            res == forall|r: int, c: int| in_board(r, c) ==> !#[trigger] at(self.0, r, c),
    {
        proof {
            lemma_zero_iff_no_square(self.0);
        }
        self.0 == 0
    }
}

/// Scans from `(r, c)` in direction `d` and returns the disks a disk put on
/// `(r, c)` flips in that direction.
fn flip_line(scan_start: u64, player_board: u64, opponent_board: u64, d: u8, Ghost(r): Ghost<int>, Ghost(c): Ghost<int>) -> (res: u64)
    requires
        d < 8,
        in_board(r, c),
        scan_start == single(r, c),
    ensures
        forall|r2: int, c2: int|
            in_board(r2, c2) ==> (#[trigger] at(res, r2, c2) <==> flips_in_dir(
                player_board,
                opponent_board,
                r,
                c,
                d as int,
                r2,
                c2,
            )),
{
    let ghost p = player_board;
    let ghost o = opponent_board;
    let ghost dd = d as int;
    let mut line: u64 = 0;
    let mut scanner = scan_start;
    let ghost mut t: int = 0;
    proof {
        lemma_single(r, c);
        lemma_zero_iff_no_square(0);
        assert(step_r(dd, r, 0) == r && step_c(dd, c, 0) == c);
    }
    loop
        invariant_except_break
            0 <= t <= 7,
            in_board(step_r(dd, r, t), step_c(dd, c, t)),
            forall|r2: int, c2: int|
                #[trigger] at(scanner, r2, c2) <==> (r2 == step_r(dd, r, t) && c2 == step_c(dd, c, t)),
        invariant
            d < 8,
            dd == d as int,
            in_board(r, c),
            p == player_board,
            o == opponent_board,
            forall|j: int| 1 <= j <= t ==> #[trigger] at(o, step_r(dd, r, j), step_c(dd, c, j)),
            forall|r2: int, c2: int|
                in_board(r2, c2) ==> (#[trigger] at(line, r2, c2) <==> exists|j: int|
                    1 <= j <= t && r2 == #[trigger] step_r(dd, r, j) && c2 == step_c(dd, c, j)),
        ensures
            0 <= t <= 7,
            forall|r2: int, c2: int|
                #[trigger] at(scanner, r2, c2) <==> (in_board(r2, c2) && r2 == step_r(dd, r, t + 1)
                    && c2 == step_c(dd, c, t + 1)),
            !at(o, step_r(dd, r, t + 1), step_c(dd, c, t + 1)),
        decreases 7 - t,
    {
        let ghost prev = scanner;
        scanner = shift_dir(scanner, d);
        proof {
            assert forall|r2: int, c2: int|
                #[trigger] at(scanner, r2, c2) <==> (in_board(r2, c2) && r2 == step_r(dd, r, t + 1)
                    && c2 == step_c(dd, c, t + 1)) by {
                if in_board(r2, c2) {
                    assert(at(scanner, r2, c2) == at(prev, step_r(dd, r2, -1), step_c(dd, c2, -1)));
                }
            }
            lemma_zero_iff_no_square(scanner);
            lemma_at_ops_all(scanner, o);
            lemma_zero_iff_no_square(scanner & o);
        }
        if scanner == 0 || (scanner & opponent_board) == 0 {
            proof {
                let rn = step_r(dd, r, t + 1);
                let cn = step_c(dd, c, t + 1);
                if in_board(rn, cn) {
                    assert(at(scanner, rn, cn));
                    lemma_at_nonzero(scanner, rn, cn);
                    if at(o, rn, cn) {
                        assert(at(scanner & o, rn, cn));
                        lemma_at_nonzero(scanner & o, rn, cn);
                    }
                }
            }
            break;
        }
        let ghost prev_line = line;
        line = line | scanner;
        proof {
            let rn = step_r(dd, r, t + 1);
            let cn = step_c(dd, c, t + 1);
            if !in_board(rn, cn) {
                assert forall|r2: int, c2: int| in_board(r2, c2) implies !#[trigger] at(scanner, r2, c2) by {}
                assert(false);
            }
            assert(at(scanner, rn, cn));
            if !at(o, rn, cn) {
                assert forall|r2: int, c2: int| in_board(r2, c2) implies !#[trigger] at(scanner & o, r2, c2) by {}
                assert(false);
            }
            lemma_at_ops_all(prev_line, scanner);
            assert forall|r2: int, c2: int|
                in_board(r2, c2) implies (#[trigger] at(line, r2, c2) <==> exists|j: int|
                    1 <= j <= t + 1 && r2 == #[trigger] step_r(dd, r, j) && c2 == step_c(dd, c, j)) by {
                if at(line, r2, c2) && !at(prev_line, r2, c2) {
                    assert(r2 == step_r(dd, r, t + 1) && c2 == step_c(dd, c, t + 1));
                }
                if exists|j: int| 1 <= j <= t + 1 && r2 == #[trigger] step_r(dd, r, j) && c2 == step_c(dd, c, j) {
                    let j = choose|j: int| 1 <= j <= t + 1 && r2 == #[trigger] step_r(dd, r, j) && c2 == step_c(dd, c, j);
                    if j <= t {
                        assert(at(prev_line, r2, c2));
                    }
                }
            }
            if t + 1 > 7 {
                lemma_long_walk_leaves(dd, r, c, t + 1);
            }
            t = t + 1;
        }
    }
    let ghost k = t;
    let ghost rn = step_r(dd, r, k + 1);
    let ghost cn = step_c(dd, c, k + 1);
    proof {
        lemma_zero_iff_no_square(line);
        lemma_at_ops_all(scanner, player_board);
        lemma_zero_iff_no_square(scanner & player_board);
        if k >= 1 {
            assert(at(o, step_r(dd, r, 1), step_c(dd, c, 1)));
            assert(at(line, step_r(dd, r, 1), step_c(dd, c, 1)));
        }
    }
    if line != 0 && (scanner & player_board) != 0 {
        proof {
            if k == 0 {
                assert forall|r2: int, c2: int| in_board(r2, c2) implies !#[trigger] at(line, r2, c2) by {}
                assert(false);
            }
            if !at(p, rn, cn) {
                assert forall|r2: int, c2: int| in_board(r2, c2) implies !#[trigger] at(scanner & player_board, r2, c2) by {}
                assert(false);
            }
            assert(capture(p, o, r, c, dd, k));
            assert forall|r2: int, c2: int| in_board(r2, c2) implies (#[trigger] at(line, r2, c2) <==> flips_in_dir(p, o, r, c, dd, r2, c2)) by {
                if at(line, r2, c2) {
                    let j = choose|j: int| 1 <= j <= k && r2 == #[trigger] step_r(dd, r, j) && c2 == step_c(dd, c, j);
                    assert(capture(p, o, r, c, dd, k) && 1 <= j <= k && r2 == step_r(dd, r, j) && c2 == step_c(dd, c, j));
                }
                if flips_in_dir(p, o, r, c, dd, r2, c2) {
                    let (k2, j) = choose|k2: int, j: int|
                        #![trigger capture(p, o, r, c, dd, k2), step_r(dd, r, j)]
                        capture(p, o, r, c, dd, k2) && 1 <= j <= k2 && r2 == step_r(dd, r, j) && c2 == step_c(dd, c, j);
                    lemma_capture_unique(p, o, r, c, dd, k, k2);
                }
            }
        }
        line
    } else {
        proof {
            assert forall|r2: int, c2: int| in_board(r2, c2) implies (#[trigger] at(0u64, r2, c2) <==> flips_in_dir(p, o, r, c, dd, r2, c2)) by {
                if flips_in_dir(p, o, r, c, dd, r2, c2) {
                    let (k2, j) = choose|k2: int, j: int|
                        #![trigger capture(p, o, r, c, dd, k2), step_r(dd, r, j)]
                        capture(p, o, r, c, dd, k2) && 1 <= j <= k2 && r2 == step_r(dd, r, j) && c2 == step_c(dd, c, j);
                    assert(forall|jj: int| 1 <= jj <= k2 ==> #[trigger] at(o, step_r(dd, r, jj), step_c(dd, c, jj)));
                    if k2 < k {
                        assert(at(o, step_r(dd, r, k2 + 1), step_c(dd, c, k2 + 1)));
                    }
                    if k2 > k {
                        assert(at(o, step_r(dd, r, k + 1), step_c(dd, c, k + 1)));
                    }
                    assert(k2 == k);
                    assert(at(scanner & p, rn, cn));
                    assert(at(line, step_r(dd, r, 1), step_c(dd, c, 1)));
                }
            }
        }
        0
    }
}

/// Returns a list of positions that can be flipped.
///
/// # Arguments
///
/// * `board` - A board of the game.
/// * `turn` - A current turn color.
/// * `position` - A position to put the disk.
///
/// # Returns
///
/// A list of positions that can be flipped.
pub fn get_flip_positions(board: &Bitboard, turn: DiskColor, position: BitPosition) -> (res: FlipPositions)
    requires
        position.wf(),
    ensures
        forall|r: int, c: int|
            #[trigger] position.is_square(r, c) ==> forall|r2: int, c2: int|
                in_board(r2, c2) ==> (#[trigger] at(res.0, r2, c2) <==> flipped_by(
                    *board,
                    turn,
                    r,
                    c,
                    r2,
                    c2,
                )),
{
    let (player_board, opponent_board) = match turn {
        DiskColor::Dark => (board.dark_plane(), board.light_plane()),
        DiskColor::Light => (board.light_plane(), board.dark_plane()),
    };
    let ghost p = player_board;
    let ghost o = opponent_board;
    let ghost (r, c) = choose|r: int, c: int| #[trigger] position.is_square(r, c);
    let mut flipped: u64 = 0;
    let mut d: u8 = 0;
    proof {
        lemma_zero_iff_no_square(0);
    }
    while d < 8
        invariant
            d <= 8,
            position.is_square(r, c),
            p == player_board,
            o == opponent_board,
            forall|r2: int, c2: int|
                in_board(r2, c2) ==> (#[trigger] at(flipped, r2, c2) <==> exists|dd: int|
                    0 <= dd < d && #[trigger] flips_in_dir(p, o, r, c, dd, r2, c2)),
        decreases 8 - d,
    {
        let line = flip_line(position.0, player_board, opponent_board, d, Ghost(r), Ghost(c));
        let acc = flipped | line;
        proof {
            lemma_at_ops_all(flipped, line);
            assert forall|r2: int, c2: int| in_board(r2, c2) implies (#[trigger] at(acc, r2, c2)
                <==> exists|dd: int| 0 <= dd < d + 1 && #[trigger] flips_in_dir(p, o, r, c, dd, r2, c2)) by {
                if at(line, r2, c2) {
                    assert(flips_in_dir(p, o, r, c, d as int, r2, c2));
                }
            }
        }
        flipped = acc;
        d = d + 1;
    }
    proof {
        assert forall|r1: int, c1: int| #[trigger] position.is_square(r1, c1) implies forall|r2: int, c2: int|
            in_board(r2, c2) ==> (#[trigger] at(flipped, r2, c2) <==> flipped_by(*board, turn, r1, c1, r2, c2)) by {
            lemma_single(r, c);
            lemma_single(r1, c1);
            assert(at(single(r1, c1), r1, c1));
            assert(r1 == r && c1 == c);
        }
    }
    FlipPositions(flipped)
}

/// Flips all opponent's disks between the newly placed disk and existing disks of the same color.
///
/// Takes the current `board` state and flips all disks at `flip_positions` to match the `player_color`.
/// The `flip_positions` should contain only the positions of the opponent's disks that are between
/// the newly placed player's disk and an existing player's disk. Returns a new [`Bitboard`] with
/// the captured disks flipped to the player's color.
pub fn flip_disks(board: &Bitboard, flip_positions: FlipPositions, player_color: DiskColor) -> (res: Bitboard)
    ensures
        player_color == DiskColor::Dark ==> res.dark() == board.dark() | flip_positions.0
            && res.light() == board.light() ^ flip_positions.0,
        player_color == DiskColor::Light ==> res.dark() == board.dark() ^ flip_positions.0
            && res.light() == board.light() | flip_positions.0,
{
    match player_color {
        DiskColor::Dark => Bitboard::new(
            board.dark_plane() | flip_positions.0,
            board.light_plane() ^ flip_positions.0,
        ),
        DiskColor::Light => Bitboard::new(
            board.dark_plane() ^ flip_positions.0,
            board.light_plane() | flip_positions.0,
        ),
    }
}

/// Places a new disk of the specified color on the board at the given position.
///
/// Returns a new [`Bitboard`] with the disk of `color` placed at `position`. The position
/// must be empty, and the function does not perform any validation.
pub fn place_disk(board: &Bitboard, position: BitPosition, color: DiskColor) -> (res: Bitboard)
    ensures
        color == DiskColor::Dark ==> res.dark() == board.dark() | position.0 && res.light()
            == board.light(),
        color == DiskColor::Light ==> res.dark() == board.dark() && res.light() == board.light()
            | position.0,
{
    match color {
        DiskColor::Dark => Bitboard::new(board.dark_plane() | position.0, board.light_plane()),
        DiskColor::Light => Bitboard::new(board.dark_plane(), board.light_plane() | position.0),
    }
}

/// A disk of `turn` put on `(r, c)` of `board` flips at least one disk.
pub open spec fn flips_any(board: Bitboard, turn: DiskColor, r: int, c: int) -> bool {
    exists|r2: int, c2: int| in_board(r2, c2) && #[trigger] flipped_by(board, turn, r, c, r2, c2)
}

/// Why `action` cannot be executed on `table`, or `None` if it can.
pub open spec fn check_error(action: Action, table: Table) -> Option<Seq<char>> {
    let board = table.board_of();
    let turn = table.turn_of();
    match action {
        Action::PutDisk(config) => {
            let pos = config.position_of();
            if config.color_of() != turn {
                Some(wrong_turn_put_text(turn, config.color_of()))
            } else if at(board.dark(), pos.r(), pos.c()) || at(board.light(), pos.r(), pos.c()) {
                Some(non_empty_square_text(pos))
            } else if !flips_any(board, turn, pos.r(), pos.c()) {
                Some(cannot_put_text(pos))
            } else {
                None
            }
        },
        Action::PassTurn(color) => {
            if color != turn {
                Some(wrong_turn_pass_text(turn, color))
            } else if has_legal_move(board, turn) {
                Some(pass_with_moves_text())
            } else {
                None
            }
        },
    }
}

/// `after` is `before` once `turn` has put a disk on `(r, c)`: the player's
/// plane gains `(r, c)` and every flipped disk, and the opponent's plane
/// toggles every flipped square.
pub open spec fn put_result(before: Bitboard, after: Bitboard, turn: DiskColor, r: int, c: int) -> bool {
    forall|r2: int, c2: int|
        in_board(r2, c2) ==> {
            &&& #[trigger] at(player_plane(after, turn), r2, c2) == (at(
                player_plane(before, turn),
                r2,
                c2,
            ) || (r2 == r && c2 == c) || flipped_by(before, turn, r, c, r2, c2))
            &&& at(opponent_plane(after, turn), r2, c2) == (at(opponent_plane(before, turn), r2, c2)
                != flipped_by(before, turn, r, c, r2, c2))
        }
}

/// `after` is `before` once `action` has been executed: the board changed by
/// the put (if any), the action appended to the history, and the turn passed
/// to the other color.
pub open spec fn executed(action: Action, before: Table, after: Table) -> bool {
    &&& after.history_of() == before.history_of().push(action)
    &&& after.turn_of() == opposite_color(before.turn_of())
    &&& match action {
        Action::PutDisk(config) => put_result(
            before.board_of(),
            after.board_of(),
            before.turn_of(),
            config.position_of().r(),
            config.position_of().c(),
        ),
        Action::PassTurn(_) => after.board_of() == before.board_of(),
    }
}

/// A trait which provides an extension method for the [`Action`].
pub trait ActionExt {
    /// Executes the action.
    ///
    /// # Arguments
    ///
    /// * `table` - A table of the game.
    ///
    /// # Returns
    ///
    /// `Ok(())` if the action is executed successfully, `Err(String)` if the action is invalid.
    fn execute(&self, table: &mut Table) -> Result<(), String>;

    /// Checks if the action can be executed.
    ///
    /// # Arguments
    ///
    /// * `table` - A table of the game.
    ///
    /// # Returns
    ///
    /// `Ok(())` if the action can be executed, `Err(String)` if the action is invalid.
    fn check_inputs(&self, table: &Table) -> Result<(), String>;
}

impl ActionExt for Action {
    fn execute(&self, table: &mut Table) -> (res: Result<(), String>)
        ensures
            res is Ok <==> check_error(*self, *old(table)) is None,
            res matches Err(e) ==> check_error(*self, *old(table)) == Some(e@) && *final(table)
                == *old(table),
            res is Ok ==> executed(*self, *old(table), *final(table)),
    {
        self.check_inputs(table)?;
        let ghost before = *table;

        // Update the board
        match self {
            Action::PutDisk(config) => {
                let bit_position = BitPosition::from(*config.position());
                let flip_positions = get_flip_positions(table.board(), table.turn(), bit_position);
                let ghost fl = flip_positions.0;
                let mut new_board = place_disk(table.board(), bit_position, config.color());
                let ghost placed = new_board;
                new_board = flip_disks(&new_board, flip_positions, config.color());
                proof {
                    let pos = config.position_of();
                    let r = pos.r();
                    let c = pos.c();
                    let b = before.board_of();
                    crate::position::lemma_position_in_board(pos);
                    assert(bit_position.is_square(r, c));
                    lemma_single(r, c);
                    lemma_at_ops_all(b.dark(), bit_position.0);
                    lemma_at_ops_all(b.light(), bit_position.0);
                    lemma_at_ops_all(placed.dark(), fl);
                    lemma_at_ops_all(placed.light(), fl);
                    assert(put_result(b, new_board, before.turn_of(), r, c));
                }
                table.set_board(new_board);
            },
            Action::PassTurn(_) => {},
        }

        // Update the history
        table.push_history(self.clone());

        // Update the turn
        table.set_turn(table.turn().opposite());

        Ok(())
    }

    fn check_inputs(&self, table: &Table) -> (res: Result<(), String>)
        ensures
            res is Ok <==> check_error(*self, *table) is None,
            res matches Err(e) ==> check_error(*self, *table) == Some(e@),
    {
        match self {
            Action::PutDisk(config) => {
                // Check whether the turn is correct.
                if config.color() != table.turn() {
                    return Err(wrong_turn_put_message(table.turn(), config.color()));
                }
                // Check whether the square is empty.
                let bit_position = BitPosition::from(*config.position());
                let dark_plane = table.board().dark_plane();
                let light_plane = table.board().light_plane();
                proof {
                    let pos = config.position_of();
                    crate::position::lemma_position_in_board(pos);
                    lemma_single(pos.r(), pos.c());
                    lemma_at_ops_all(dark_plane, bit_position.0);
                    lemma_at_ops_all(light_plane, bit_position.0);
                    lemma_zero_iff_no_square(dark_plane & bit_position.0);
                    lemma_zero_iff_no_square(light_plane & bit_position.0);
                    if at(dark_plane, pos.r(), pos.c()) {
                        assert(at(dark_plane & bit_position.0, pos.r(), pos.c()));
                    }
                    if at(light_plane, pos.r(), pos.c()) {
                        assert(at(light_plane & bit_position.0, pos.r(), pos.c()));
                    }
                }
                if (dark_plane & bit_position.0 != 0) || (light_plane & bit_position.0 != 0) {
                    return Err(non_empty_square_message(config.position()));
                }
                // Check whether the disk can be put.
                let flips = get_flip_positions(table.board(), table.turn(), bit_position);
                proof {
                    let pos = config.position_of();
                    assert(bit_position.is_square(pos.r(), pos.c()));
                    if flips_any(table.board_of(), table.turn_of(), pos.r(), pos.c()) {
                        let (r2, c2) = choose|r2: int, c2: int|
                            in_board(r2, c2) && #[trigger] flipped_by(
                                table.board_of(),
                                table.turn_of(),
                                pos.r(),
                                pos.c(),
                                r2,
                                c2,
                            );
                        assert(at(flips.0, r2, c2));
                        lemma_at_nonzero(flips.0, r2, c2);
                    }
                    lemma_zero_iff_no_square(flips.0);
                }
                if flips.is_empty() {
                    return Err(cannot_put_message(config.position()));
                }
                proof {
                    let pos = config.position_of();
                    let (r2, c2) = choose|r2: int, c2: int| in_board(r2, c2) && #[trigger] at(flips.0, r2, c2);
                    assert(flipped_by(table.board_of(), table.turn_of(), pos.r(), pos.c(), r2, c2));
                    assert(flips_any(table.board_of(), table.turn_of(), pos.r(), pos.c()));
                    assert(!at(table.board_of().dark(), pos.r(), pos.c()));
                    assert(!at(table.board_of().light(), pos.r(), pos.c()));
                    assert(config.color_of() == table.turn_of());
                }
                Ok(())
            },
            Action::PassTurn(color) => {
                // Check the turn is correct.
                if *color != table.turn() {
                    return Err(wrong_turn_pass_message(table.turn(), *color));
                }
                // Check whether the disk cannot be put.
                let puttable = get_puttable_positions(table.board(), table.turn());
                if !puttable.is_empty() {
                    return Err(pass_with_moves_message());
                }
                proof {
                    if has_legal_move(table.board_of(), table.turn_of()) {
                        let (r, c) = choose|r: int, c: int| #[trigger] can_put(table.board_of(), table.turn_of(), r, c);
                        assert(at(puttable.0, r, c));
                    }
                }
                Ok(())
            },
        }
    }
}

/// The indices (row by row from the top-left square) of the first `n` squares
/// on which plane `x` has a disk, in increasing order.
pub open spec fn squares_in(x: u64, n: int) -> Seq<int>
    decreases n,
{
    if n <= 0 {
        Seq::empty()
    } else if at(x, (n - 1) / 8, (n - 1) % 8) {
        squares_in(x, n - 1).push(n - 1)
    } else {
        squares_in(x, n - 1)
    }
}

/// `positions` lists the squares of plane `x`, row by row from the top-left square.
pub open spec fn lists_squares(positions: Seq<Position>, x: u64) -> bool {
    &&& positions.len() == squares_in(x, 64).len()
    &&& forall|k: int|
        0 <= k < positions.len() ==> crate::bits::square_index(#[trigger] positions[k].r(), positions[k].c())
            == squares_in(x, 64)[k]
}

impl PuttablePositions {
    /// Returns a list of positions that can be put.
    pub fn to_vec(&self) -> (res: Vec<Position>)
        ensures
            lists_squares(res@, self.0),
    {
        let mut positions: Vec<Position> = Vec::new();
        let mut idx: u8 = 0;
        while idx < 64
            invariant
                idx <= 64,
                positions@.len() == squares_in(self.0, idx as int).len(),
                forall|k: int|
                    0 <= k < positions@.len() ==> crate::bits::square_index(
                        #[trigger] positions@[k].r(),
                        positions@[k].c(),
                    ) == squares_in(self.0, idx as int)[k],
            decreases 64 - idx,
        {
            let ghost i = idx as int;
            assert(crate::bits::square_bit(i / 8, i % 8) == (63 - idx) as u64);
            let mask = 1u64 << (63 - idx) as u64;
            proof {
                assert(mask == single(i / 8, i % 8));
                assert(in_board(i / 8, i % 8));
                crate::bits::lemma_single(i / 8, i % 8);
                crate::bits::lemma_at_ops_all(self.0, mask);
                lemma_zero_iff_no_square(self.0 & mask);
                if at(self.0, i / 8, i % 8) {
                    assert(at(self.0 & mask, i / 8, i % 8));
                }
            }
            if self.0 & mask != 0 {
                let position = Position::from((Row::from_u8(idx / 8).unwrap(), Column::from_u8(idx % 8).unwrap()));
                positions.push(position);
                proof {
                    if !at(self.0, i / 8, i % 8) {
                        let (r2, c2) = choose|r2: int, c2: int| in_board(r2, c2) && #[trigger] at(self.0 & mask, r2, c2);
                        assert(false);
                    }
                }
            }
            idx = idx + 1;
        }
        positions
    }
}

/// The indices (row by row from the top-left square) of the first `n`
/// squares on which `turn` can put a disk, in increasing order.
pub open spec fn legal_squares(board: Bitboard, turn: DiskColor, n: int) -> Seq<int>
    decreases n,
{
    if n <= 0 {
        Seq::empty()
    } else if can_put(board, turn, (n - 1) / 8, (n - 1) % 8) {
        legal_squares(board, turn, n - 1).push(n - 1)
    } else {
        legal_squares(board, turn, n - 1)
    }
}

/// A plane that holds exactly the squares `turn` can put on lists them in
/// the same order.
pub proof fn lemma_squares_in_legal(x: u64, board: Bitboard, turn: DiskColor, n: int)
    requires
        0 <= n <= 64,
        forall|r: int, c: int| in_board(r, c) ==> (#[trigger] at(x, r, c) <==> can_put(board, turn, r, c)),
    ensures
        squares_in(x, n) == legal_squares(board, turn, n),
    decreases n,
{
    if n > 0 {
        lemma_squares_in_legal(x, board, turn, n - 1);
        assert(in_board((n - 1) / 8, (n - 1) % 8));
    }
}

/// The listed squares are indices of the first `n` squares.
pub proof fn lemma_legal_squares_bound(board: Bitboard, turn: DiskColor, n: int)
    ensures
        forall|k: int|
            0 <= k < legal_squares(board, turn, n).len() ==> 0 <= #[trigger] legal_squares(
                board,
                turn,
                n,
            )[k] < n,
    decreases n,
{
    if n > 0 {
        lemma_legal_squares_bound(board, turn, n - 1);
        let prev = legal_squares(board, turn, n - 1);
        assert forall|k: int| 0 <= k < legal_squares(board, turn, n).len() implies 0
            <= #[trigger] legal_squares(board, turn, n)[k] < n by {
            if k < prev.len() {
                assert(legal_squares(board, turn, n)[k] == prev[k]);
            }
        }
    }
}

/// A disk of `turn` may be put on `(r, c)`: the square is empty and the disk
/// flips at least one disk.
pub open spec fn put_accepted(board: Bitboard, turn: DiskColor, r: int, c: int) -> bool {
    &&& in_board(r, c)
    &&& !at(board.dark(), r, c)
    &&& !at(board.light(), r, c)
    &&& flips_any(board, turn, r, c)
}

} // verus!
