//! Properties of the game that hold across its operations.
use crate::action::Action;
use crate::arena::{child_added, lemma_sibling_chain_agree, sibling_chain, Arena};
use crate::node::{Node, NodeId};
use crate::search::scan_children;
use crate::bits::{
    at, in_board, lemma_at_ops_all, lemma_planes_eq, lemma_zero_iff_no_square, square_index, step_c,
    step_r,
};
use crate::board::{disk_at, disk_set, lemma_bitboard_ext, Bitboard};
use crate::controller::{count_squares, disk_count, game_over};
use crate::disk::{opposite_color, DiskColor};
use crate::environment::put_then_pass;
use crate::game_state::{applied_with_pass, State};
use crate::position::Position;
use crate::rules::{
    bracket, capture, captures_in_dir, can_put, check_error, executed, flipped_by, flips,
    flips_any, flips_in_dir, has_legal_move, opponent_plane, player_plane, put_accepted,
    put_result, squares_in, legal_squares,
};
use crate::gateway::{decimal_digits, password_data, ConnectionId, PlayerId};
use crate::environment::board_value;
use crate::game_state::terminal_outcome;
use crate::search::SecondMoveInfo;
use crate::session::{
    disconnected, joined, manager_step, role_in, roles_from, without, Command, GameSessionManager, Reply,
};
use crate::table::Table;
use vstd::prelude::*;

verus! {

/// A board is valid exactly when no square holds a disk of each color.
proof fn lemma_valid_squares(board: Bitboard)
    ensures
        board.valid() <==> forall|r: int, c: int|
            in_board(r, c) ==> !(#[trigger] at(board.dark(), r, c) && at(board.light(), r, c)),
{
    let both = board.dark() & board.light();
    lemma_at_ops_all(board.dark(), board.light());
    lemma_zero_iff_no_square(both);
    if board.valid() {
        assert forall|r: int, c: int| in_board(r, c) implies !(#[trigger] at(board.dark(), r, c)
            && at(board.light(), r, c)) by {
            assert(!at(both, r, c));
        }
    }
    if forall|r: int, c: int|
        in_board(r, c) ==> !(#[trigger] at(board.dark(), r, c) && at(board.light(), r, c)) {
        assert forall|r: int, c: int| in_board(r, c) implies !#[trigger] at(both, r, c) by {
            assert(!(at(board.dark(), r, c) && at(board.light(), r, c)));
        }
    }
}

/// Every disk that a move flips is a disk of the opponent, on another square
/// than the one played.
pub proof fn law_flipped_disks_are_opponents(
    board: Bitboard,
    turn: DiskColor,
    r: int,
    c: int,
    r2: int,
    c2: int,
)
    requires
        flipped_by(board, turn, r, c, r2, c2),
    ensures
        in_board(r2, c2),
        at(opponent_plane(board, turn), r2, c2),
        !(r2 == r && c2 == c),
{
    let p = player_plane(board, turn);
    let o = opponent_plane(board, turn);
    let d = choose|d: int| 0 <= d < 8 && #[trigger] flips_in_dir(p, o, r, c, d, r2, c2);
    let (k, t) = choose|k: int, t: int|
        #![trigger capture(p, o, r, c, d, k), step_r(d, r, t)]
        capture(p, o, r, c, d, k) && 1 <= t <= k && r2 == step_r(d, r, t) && c2 == step_c(d, c, t);
    assert(at(o, step_r(d, r, t), step_c(d, c, t)));
}

/// On a valid board, the squares listed as puttable for the player to move
/// are exactly the squares on which a put of that player is accepted: an
/// empty square from which the disk flips at least one disk.
pub proof fn law_puttable_iff_accepted(board: Bitboard, turn: DiskColor, r: int, c: int)
    requires
        board.valid(),
    ensures
        can_put(board, turn, r, c) == put_accepted(board, turn, r, c),
{
    let p = player_plane(board, turn);
    let o = opponent_plane(board, turn);
    lemma_valid_squares(board);
    if put_accepted(board, turn, r, c) {
        let (r2, c2) = choose|r2: int, c2: int|
            in_board(r2, c2) && #[trigger] flipped_by(board, turn, r, c, r2, c2);
        assert(flips(p, o, r, c, r2, c2));
        let d = choose|d: int| 0 <= d < 8 && #[trigger] flips_in_dir(p, o, r, c, d, r2, c2);
        let (k, t) = choose|k: int, t: int|
            #![trigger capture(p, o, r, c, d, k), step_r(d, r, t)]
            capture(p, o, r, c, d, k) && 1 <= t <= k && r2 == step_r(d, r, t) && c2 == step_c(
                d,
                c,
                t,
            );
        assert(bracket(p, o, r, c, d, k));
        assert(captures_in_dir(p, o, r, c, d));
    }
    if can_put(board, turn, r, c) {
        let d = choose|d: int| 0 <= d < 8 && #[trigger] captures_in_dir(p, o, r, c, d);
        let k = choose|k: int| #[trigger] bracket(p, o, r, c, d, k);
        let rn = step_r(d, r, k + 1);
        let cn = step_c(d, c, k + 1);
        assert(at(p, rn, cn));
        assert(!at(o, rn, cn)) by {
            assert(in_board(rn, cn));
            assert(!(at(board.dark(), rn, cn) && at(board.light(), rn, cn)));
        }
        assert(capture(p, o, r, c, d, k));
        let r2 = step_r(d, r, 1);
        let c2 = step_c(d, c, 1);
        assert(at(o, step_r(d, r, 1), step_c(d, c, 1)));
        assert(flips_in_dir(p, o, r, c, d, r2, c2));
        assert(flips(p, o, r, c, r2, c2));
        assert(flipped_by(board, turn, r, c, r2, c2));
        assert(in_board(r2, c2));
        assert(flips_any(board, turn, r, c));
    }
}

/// On a valid board, a pass is accepted exactly when it comes from the
/// player to move and no put of that player would be accepted.
pub proof fn law_pass_iff_no_accepted_put(table: Table, color: DiskColor)
    requires
        table.board_of().valid(),
    ensures
        check_error(Action::PassTurn(color), table) is None <==> (color == table.turn_of()
            && forall|r: int, c: int|
            !#[trigger] put_accepted(table.board_of(), table.turn_of(), r, c)),
{
    let board = table.board_of();
    let turn = table.turn_of();
    if has_legal_move(board, turn) {
        let (r, c) = choose|r: int, c: int| #[trigger] can_put(board, turn, r, c);
        law_puttable_iff_accepted(board, turn, r, c);
    }
    if exists|r: int, c: int| #[trigger] put_accepted(board, turn, r, c) {
        let (r, c) = choose|r: int, c: int| #[trigger] put_accepted(board, turn, r, c);
        law_puttable_iff_accepted(board, turn, r, c);
        assert(can_put(board, turn, r, c));
    }
}

/// An accepted action keeps a valid board valid: no square ever holds a disk
/// of each color.
pub proof fn law_execute_keeps_board_valid(action: Action, before: Table, after: Table)
    requires
        before.board_of().valid(),
        check_error(action, before) is None,
        executed(action, before, after),
    ensures
        after.board_of().valid(),
{
    let b0 = before.board_of();
    let b1 = after.board_of();
    let turn = before.turn_of();
    lemma_valid_squares(b0);
    lemma_valid_squares(b1);
    match action {
        Action::PutDisk(config) => {
            let pos = config.position_of();
            let r = pos.r();
            let c = pos.c();
            assert(put_result(b0, b1, turn, r, c));
            assert forall|r2: int, c2: int| in_board(r2, c2) implies !(#[trigger] at(
                b1.dark(),
                r2,
                c2,
            ) && at(b1.light(), r2, c2)) by {
                if flipped_by(b0, turn, r, c, r2, c2) {
                    law_flipped_disks_are_opponents(b0, turn, r, c, r2, c2);
                }
                assert(at(player_plane(b1, turn), r2, c2) == (at(player_plane(b0, turn), r2, c2)
                    || (r2 == r && c2 == c) || flipped_by(b0, turn, r, c, r2, c2)));
                assert(at(opponent_plane(b1, turn), r2, c2) == (at(opponent_plane(b0, turn), r2, c2)
                    != flipped_by(b0, turn, r, c, r2, c2)));
                assert(!(at(b0.dark(), r2, c2) && at(b0.light(), r2, c2)));
            }
        },
        Action::PassTurn(_) => {},
    }
}

/// The number of squares among the first `n` (row by row from the top-left
/// square) whose disk a disk of `turn` put on `(r, c)` of `board` flips.
pub open spec fn flip_count(board: Bitboard, turn: DiskColor, r: int, c: int, n: int) -> nat
    decreases n,
{
    if n <= 0 {
        0
    } else {
        flip_count(board, turn, r, c, n - 1) + if flipped_by(
            board,
            turn,
            r,
            c,
            (n - 1) / 8,
            (n - 1) % 8,
        ) {
            1nat
        } else {
            0nat
        }
    }
}

proof fn lemma_put_counts_prefix(
    b0: Bitboard,
    b1: Bitboard,
    turn: DiskColor,
    r: int,
    c: int,
    n: int,
)
    requires
        b0.valid(),
        put_accepted(b0, turn, r, c),
        put_result(b0, b1, turn, r, c),
        0 <= n <= 64,
    ensures
        count_squares(player_plane(b1, turn), n) == count_squares(player_plane(b0, turn), n) + (if square_index(r, c) < n {
            1int
        } else {
            0int
        }) + flip_count(b0, turn, r, c, n),
        count_squares(opponent_plane(b1, turn), n) + flip_count(b0, turn, r, c, n) == count_squares(
            opponent_plane(b0, turn),
            n,
        ),
    decreases n,
{
    if n > 0 {
        lemma_put_counts_prefix(b0, b1, turn, r, c, n - 1);
        let i = n - 1;
        let r2 = i / 8;
        let c2 = i % 8;
        assert(in_board(r2, c2));
        assert((r2 == r && c2 == c) <==> i == square_index(r, c));
        lemma_valid_squares(b0);
        assert(!(at(b0.dark(), r2, c2) && at(b0.light(), r2, c2)));
        if flipped_by(b0, turn, r, c, r2, c2) {
            law_flipped_disks_are_opponents(b0, turn, r, c, r2, c2);
        }
        assert(at(player_plane(b1, turn), r2, c2) == (at(player_plane(b0, turn), r2, c2) || (r2 == r
            && c2 == c) || flipped_by(b0, turn, r, c, r2, c2)));
        assert(at(opponent_plane(b1, turn), r2, c2) == (at(opponent_plane(b0, turn), r2, c2)
            != flipped_by(b0, turn, r, c, r2, c2)));
    }
}

proof fn lemma_flip_count_positive(
    board: Bitboard,
    turn: DiskColor,
    r: int,
    c: int,
    r2: int,
    c2: int,
    n: int,
)
    requires
        in_board(r2, c2),
        flipped_by(board, turn, r, c, r2, c2),
        square_index(r2, c2) < n,
    ensures
        flip_count(board, turn, r, c, n) >= 1,
    decreases n,
{
    if n - 1 == square_index(r2, c2) {
        assert((n - 1) / 8 == r2 && (n - 1) % 8 == c2);
    } else {
        lemma_flip_count_positive(board, turn, r, c, r2, c2, n - 1);
    }
}

/// An accepted put on a valid board flips at least one disk; the player gains
/// the disk put and every flipped disk, the opponent loses every flipped disk,
/// and the board holds exactly one disk more than before.
pub proof fn law_put_counts(before: Bitboard, after: Bitboard, turn: DiskColor, r: int, c: int)
    requires
        before.valid(),
        put_accepted(before, turn, r, c),
        put_result(before, after, turn, r, c),
    ensures
        flip_count(before, turn, r, c, 64) >= 1,
        disk_count(player_plane(after, turn)) == disk_count(player_plane(before, turn)) + 1
            + flip_count(before, turn, r, c, 64),
        disk_count(opponent_plane(after, turn)) + flip_count(before, turn, r, c, 64) == disk_count(
            opponent_plane(before, turn),
        ),
        disk_count(after.dark()) + disk_count(after.light()) == disk_count(before.dark())
            + disk_count(before.light()) + 1,
{
    lemma_put_counts_prefix(before, after, turn, r, c, 64);
    let (r2, c2) = choose|r2: int, c2: int|
        in_board(r2, c2) && #[trigger] flipped_by(before, turn, r, c, r2, c2);
    lemma_flip_count_positive(before, turn, r, c, r2, c2, 64);
}

proof fn lemma_disjoint_count(a: u64, b: u64, n: int)
    requires
        0 <= n <= 64,
        forall|r: int, c: int| in_board(r, c) ==> !(#[trigger] at(a, r, c) && at(b, r, c)),
    ensures
        count_squares(a, n) + count_squares(b, n) <= n,
    decreases n,
{
    if n > 0 {
        lemma_disjoint_count(a, b, n - 1);
        assert(in_board((n - 1) / 8, (n - 1) % 8));
        assert(!(at(a, (n - 1) / 8, (n - 1) % 8) && at(b, (n - 1) / 8, (n - 1) % 8)));
    }
}

/// A valid board never holds more disks than it has squares.
pub proof fn law_disks_fit_board(board: Bitboard)
    requires
        board.valid(),
    ensures
        disk_count(board.dark()) + disk_count(board.light()) <= 64,
{
    lemma_valid_squares(board);
    lemma_disjoint_count(board.dark(), board.light(), 64);
}

/// Executing the same action on the same table always gives the same board,
/// turn and history.
pub proof fn law_execute_is_deterministic(
    action: Action,
    before: Table,
    after1: Table,
    after2: Table,
)
    requires
        executed(action, before, after1),
        executed(action, before, after2),
    ensures
        after1.board_of() == after2.board_of(),
        after1.turn_of() == after2.turn_of(),
        after1.history_of() == after2.history_of(),
{
    match action {
        Action::PutDisk(config) => {
            let turn = before.turn_of();
            let b1 = after1.board_of();
            let b2 = after2.board_of();
            assert forall|r: int, c: int| in_board(r, c) implies #[trigger] at(
                player_plane(b1, turn),
                r,
                c,
            ) == at(player_plane(b2, turn), r, c) && at(opponent_plane(b1, turn), r, c) == at(
                opponent_plane(b2, turn),
                r,
                c,
            ) by {}
            lemma_planes_eq(player_plane(b1, turn), player_plane(b2, turn));
            assert forall|r: int, c: int| in_board(r, c) implies #[trigger] at(
                opponent_plane(b1, turn),
                r,
                c,
            ) == at(opponent_plane(b2, turn), r, c) by {
                assert(at(player_plane(b1, turn), r, c) == at(player_plane(b2, turn), r, c));
            }
            lemma_planes_eq(opponent_plane(b1, turn), opponent_plane(b2, turn));
            lemma_bitboard_ext(b1, b2);
        },
        Action::PassTurn(_) => {},
    }
}

/// After a move of the tree search's state, the player to move has a legal
/// move unless the game is over: a player left without one passes.
pub proof fn law_apply_leaves_mover_a_move(before: State, r: int, c: int, after: State)
    requires
        applied_with_pass(before, r, c, after),
    ensures
        has_legal_move(after.board_of(), after.turn_of()) || game_over(after.board_of()),
{
    let board = after.board_of();
    let turn = before.turn_of();
    if !has_legal_move(board, opposite_color(turn)) {
        assert(after.turn_of() == turn);
        match turn {
            DiskColor::Dark => {},
            DiskColor::Light => {},
        }
    }
}

/// After a move of the learning environment (a put, followed by a pass when
/// the next player has no move), the player to move has a legal move unless
/// the game is over.
pub proof fn law_put_then_pass_leaves_mover_a_move(before: Table, position: Position, after: Table)
    requires
        put_then_pass(before, position, after),
    ensures
        has_legal_move(after.board_of(), after.turn_of()) || game_over(after.board_of()),
{
    let mid = choose|mid: Table|
        #[trigger] executed(
            Action::PutDisk(crate::action::PutConfig::spec_new(before.turn_of(), position)),
            before,
            mid,
        ) && if has_legal_move(mid.board_of(), mid.turn_of()) {
            after == mid
        } else {
            executed(Action::PassTurn(mid.turn_of()), mid, after)
        };
    if !has_legal_move(mid.board_of(), mid.turn_of()) {
        assert(after.board_of() == mid.board_of());
        assert(after.turn_of() == opposite_color(mid.turn_of()));
        match mid.turn_of() {
            DiskColor::Dark => {},
            DiskColor::Light => {},
        }
    }
}

/// Adding a child to a node of a well-formed arena puts the new child first
/// among the node's children (children come out newest first), links the
/// child to its parent, and leaves the children of every other node as they
/// were.
pub proof fn law_add_child_prepends(
    before: Arena,
    after: Arena,
    parent_id: NodeId,
    child: Node,
    child_id: NodeId,
)
    requires
        before.wf(),
        parent_id < before.nodes_of().len(),
        child_added(before, after, parent_id, child, child_id),
    ensures
        after.children_of(parent_id) == seq![child_id] + before.children_of(parent_id),
        after.nodes_of()[child_id as int].parent == Some(parent_id),
        forall|i: NodeId|
            i < before.nodes_of().len() && i != parent_id ==> #[trigger] after.children_of(i)
                == before.children_of(i),
{
    let n0 = before.nodes_of();
    let n1 = after.nodes_of();
    let bound = n0.len() as int;
    assert forall|i: int| 0 <= i < bound implies #[trigger] n1[i].next_sibling == n0[i].next_sibling by {
        if i != parent_id {
            assert(n1[i] == n0[i]);
        }
    }
    let first = n0[parent_id as int].first_child;
    lemma_sibling_chain_agree(n1, n0, first, bound);
    assert(n1[child_id as int].next_sibling == first);
    assert(after.children_of(parent_id) == sibling_chain(n1, Some(child_id)));
    assert(sibling_chain(n1, Some(child_id)) =~= seq![child_id] + sibling_chain(n1, first));
    assert forall|i: NodeId| i < before.nodes_of().len() && i != parent_id implies #[trigger] after.children_of(
        i,
    ) == before.children_of(i) by {
        assert(n1[i as int] == n0[i as int]);
        lemma_sibling_chain_agree(n1, n0, n0[i as int].first_child, bound);
    }
}

/// A connection that disconnects leaves the members of a table, and every
/// other member stays.
pub proof fn law_disconnect_leaves_table(members: Seq<ConnectionId>, conn: ConnectionId)
    ensures
        !without(members, conn).contains(conn),
        forall|x: ConnectionId| x != conn ==> (#[trigger] without(members, conn).contains(x)
            <==> members.contains(x)),
    decreases members.len(),
{
    if members.len() > 0 {
        let prev = members.drop_last();
        law_disconnect_leaves_table(prev, conn);
        assert forall|x: ConnectionId| x != conn implies (#[trigger] without(members, conn).contains(x)
            <==> members.contains(x)) by {
            if members.contains(x) && !prev.contains(x) {
                let i = choose|i: int| 0 <= i < members.len() && members[i] == x;
                if i < members.len() - 1 {
                    assert(prev[i] == x);
                }
                assert(without(members, conn) == without(prev, conn).push(x));
                assert(without(members, conn)[without(prev, conn).len() as int] == x);
            }
            if without(members, conn).contains(x) && !without(prev, conn).contains(x) {
                assert(members.last() == x);
                assert(members[members.len() - 1] == x);
            }
            if prev.contains(x) {
                let i = choose|i: int| 0 <= i < prev.len() && prev[i] == x;
                assert(members[i] == x);
            }
            if without(prev, conn).contains(x) {
                let i = choose|i: int| 0 <= i < without(prev, conn).len() && without(prev, conn)[i] == x;
                if members.last() != conn {
                    assert(without(members, conn)[i] == x);
                }
            }
        }
        if without(members, conn).contains(conn) {
            let i = choose|i: int| 0 <= i < without(members, conn).len() && without(members, conn)[i]
                == conn;
            if members.last() != conn && i == without(prev, conn).len() {
                assert(false);
            } else {
                assert(without(prev, conn)[i] == conn);
            }
        }
    }
}

/// A connection that joins a table sits at a table of that name afterwards.
pub proof fn law_join_seats_connection(
    before: Seq<(Seq<char>, Seq<ConnectionId>)>,
    after: Seq<(Seq<char>, Seq<ConnectionId>)>,
    name: Seq<char>,
    conn: ConnectionId,
)
    requires
        joined(before, after, name, conn),
    ensures
        exists|k: int| 0 <= k < after.len() && (#[trigger] after[k]).0 == name && after[k].1.contains(conn),
{
    if exists|k: int| 0 <= k < before.len() && #[trigger] before[k].0 == name {
        let k = choose|k: int| 0 <= k < before.len() && #[trigger] before[k].0 == name;
        assert(after[k] == (name, before[k].1.push(conn)));
        assert(after[k].1[before[k].1.len() as int] == conn);
    } else {
        let k = before.len() as int;
        assert(after[k] == (name, seq![conn]));
        assert(after[k].1[0] == conn);
    }
}

/// Among the children of the root, the best child found by the second move
/// heuristic has at least as many visits as the second one and as every child.
pub proof fn law_best_child_most_visited(children: Seq<(NodeId, u32)>)
    ensures
        scan_children(children).second_visits <= scan_children(children).best_visits,
        forall|k: int|
            0 <= k < children.len() ==> #[trigger] children[k].1 <= scan_children(children).best_visits,
    decreases children.len(),
{
    if children.len() > 0 {
        let prev = children.drop_last();
        law_best_child_most_visited(prev);
        assert forall|k: int| 0 <= k < children.len() implies #[trigger] children[k].1 <= scan_children(
            children,
        ).best_visits by {
            if k < children.len() - 1 {
                assert(children[k] == prev[k]);
            }
        }
    }
}

/// Reading a square after a disk was set on it gives the disk set; reading
/// any other square gives what it held before; and a valid board stays
/// valid.
pub proof fn law_get_after_set(
    before: Bitboard,
    after: Bitboard,
    position: Position,
    color: DiskColor,
    other: Position,
)
    requires
        disk_set(before, after, position, color),
    ensures
        disk_at(after, position.r(), position.c()) == Some(color),
        !(other.r() == position.r() && other.c() == position.c()) ==> disk_at(after, other.r(), other.c())
            == disk_at(before, other.r(), other.c()),
        before.valid() ==> after.valid(),
{
    crate::position::lemma_position_in_board(position);
    crate::position::lemma_position_in_board(other);
    lemma_valid_squares(before);
    lemma_valid_squares(after);
    assert(disk_at(after, position.r(), position.c()) == Some(color));
    assert(disk_at(after, other.r(), other.c()) == disk_at(before, other.r(), other.c()) || (
    other.r() == position.r() && other.c() == position.c()));
    if before.valid() {
        assert forall|r: int, c: int| in_board(r, c) implies !(#[trigger] at(after.dark(), r, c) && at(
            after.light(),
            r,
            c,
        )) by {
            if !(r == position.r() && c == position.c()) {
                assert(at(after.dark(), r, c) == at(before.dark(), r, c));
                assert(!(at(before.dark(), r, c) && at(before.light(), r, c)));
            } else {
                match color {
                    DiskColor::Dark => {},
                    DiskColor::Light => {},
                }
            }
        }
    }
}

/// The color of `player` in the last pair that names it.
pub open spec fn last_color(pairs: Seq<(PlayerId, DiskColor)>, player: PlayerId) -> Option<DiskColor>
    decreases pairs.len(),
{
    if pairs.len() == 0 {
        None
    } else if pairs.last().0 == player {
        Some(pairs.last().1)
    } else {
        last_color(pairs.drop_last(), player)
    }
}

/// Roles built from pairs give each player the color of the last pair that
/// names it, and no color to a player that no pair names.
pub proof fn law_roles_keep_last_color(pairs: Seq<(PlayerId, DiskColor)>, player: PlayerId)
    ensures
        role_in(roles_from(pairs), player) == last_color(pairs, player),
    decreases pairs.len(),
{
    if pairs.len() > 0 {
        law_roles_keep_last_color(pairs.drop_last(), player);
        if pairs.last().0 != player {
            assert(pairs.last().0.id != player.id);
        }
    }
}

/// Some command of `commands` satisfies `starts`, and none after it satisfies
/// `ends`.
pub open spec fn since(
    commands: Seq<Command>,
    starts: spec_fn(Command) -> bool,
    ends: spec_fn(Command) -> bool,
) -> bool {
    exists|i: int|
        0 <= i < commands.len() && #[trigger] starts(commands[i]) && forall|j: int|
            i < j < commands.len() ==> !ends(#[trigger] commands[j])
}

/// `command` seats the connection with value `conn` at a table.
pub open spec fn is_join_of(command: Command, conn: u128) -> bool {
    command matches Command::Join { connection_id, .. } && connection_id.id_of() == conn
}

/// `command` seats `conn` at the table named `name`.
pub open spec fn is_join_at(command: Command, name: Seq<char>, conn: ConnectionId) -> bool {
    command matches Command::Join { connection_id, table_id, .. } && connection_id == conn
        && table_id.id_of() == name
}

/// `command` disconnects the connection with value `conn`.
pub open spec fn is_disconnect_of(command: Command, conn: u128) -> bool {
    command matches Command::Disconnect { connection_id, .. } && connection_id.id_of() == conn
}

/// The connection with value `conn` joined a table in some command and did
/// not disconnect in any later one.
pub open spec fn joined_and_stayed(commands: Seq<Command>, conn: u128) -> bool {
    since(commands, |c: Command| is_join_of(c, conn), |c: Command| is_disconnect_of(c, conn))
}

/// `conn` joined the table named `name` in some command and did not
/// disconnect in any later one.
pub open spec fn seated_and_stayed(commands: Seq<Command>, name: Seq<char>, conn: ConnectionId) -> bool {
    since(
        commands,
        |c: Command| is_join_at(c, name, conn),
        |c: Command| is_disconnect_of(c, conn.id_of()),
    )
}

/// `conn` sits at a table named `name` in `tables`.
pub open spec fn sits_at(tables: Seq<(Seq<char>, Seq<ConnectionId>)>, name: Seq<char>, conn: ConnectionId) -> bool {
    exists|k: int| 0 <= k < tables.len() && (#[trigger] tables[k]).0 == name && tables[k].1.contains(conn)
}

/// `managers` is a run of the manager's loop over `commands` with `replies`:
/// each manager is the one before it once the command between them has been
/// handled.
pub open spec fn is_run(managers: Seq<GameSessionManager>, commands: Seq<Command>, replies: Seq<Reply>) -> bool {
    &&& managers.len() == commands.len() + 1
    &&& replies.len() == commands.len()
    &&& forall|i: int|
        0 <= i < commands.len() ==> #[trigger] manager_step(managers[i], commands[i], managers[i + 1], replies[i])
}

/// A prefix of a run is a run.
proof fn lemma_run_prefix(managers: Seq<GameSessionManager>, commands: Seq<Command>, replies: Seq<Reply>, n: int)
    requires
        is_run(managers, commands, replies),
        0 <= n <= commands.len(),
    ensures
        is_run(managers.take(n + 1), commands.take(n), replies.take(n)),
{
    assert forall|i: int| 0 <= i < n implies #[trigger] manager_step(
        managers.take(n + 1)[i],
        commands.take(n)[i],
        managers.take(n + 1)[i + 1],
        replies.take(n)[i],
    ) by {
        assert(manager_step(managers[i], commands[i], managers[i + 1], replies[i]));
    }
}

/// Whether a command since which nothing ended has started, one command more
/// on.
proof fn lemma_since_step(commands: Seq<Command>, starts: spec_fn(Command) -> bool, ends: spec_fn(Command) -> bool)
    requires
        commands.len() > 0,
    ensures
        since(commands, starts, ends) <==> starts(commands.last()) || (!ends(commands.last())
            && since(commands.drop_last(), starts, ends)),
{
    let n = commands.len() - 1;
    let prev = commands.drop_last();
    if since(commands, starts, ends) && !starts(commands.last()) {
        let i = choose|i: int|
            0 <= i < commands.len() && #[trigger] starts(commands[i]) && forall|j: int|
                i < j < commands.len() ==> !ends(#[trigger] commands[j]);
        assert(i != n);
        assert(!ends(commands[n]));
        assert(prev[i] == commands[i]);
        assert forall|j: int| i < j < prev.len() implies !ends(#[trigger] prev[j]) by {
            assert(prev[j] == commands[j]);
        }
        assert(starts(prev[i]));
    }
    if starts(commands.last()) {
        assert(starts(commands[n]));
    }
    if !ends(commands.last()) && since(prev, starts, ends) {
        let i = choose|i: int|
            0 <= i < prev.len() && #[trigger] starts(prev[i]) && forall|j: int|
                i < j < prev.len() ==> !ends(#[trigger] prev[j]);
        assert(commands[i] == prev[i]);
        assert forall|j: int| i < j < commands.len() implies !ends(#[trigger] commands[j]) by {
            if j < n {
                assert(commands[j] == prev[j]);
            }
        }
        assert(starts(commands[i]));
    }
}

/// Over any run of the manager's loop from a manager that authenticates no
/// connection, a connection is authenticated at the end exactly when it
/// joined a table and has not disconnected since.
pub proof fn law_authenticated_after_commands(
    managers: Seq<GameSessionManager>,
    commands: Seq<Command>,
    replies: Seq<Reply>,
    conn: u128,
)
    requires
        is_run(managers, commands, replies),
        managers[0].players_of() == Map::<u128, PlayerId>::empty(),
    ensures
        managers.last().players_of().contains_key(conn) <==> joined_and_stayed(commands, conn),
    decreases commands.len(),
{
    if commands.len() > 0 {
        let n = commands.len() - 1;
        lemma_run_prefix(managers, commands, replies, n);
        assert(managers.take(n + 1)[0] == managers[0]);
        law_authenticated_after_commands(managers.take(n + 1), commands.take(n), replies.take(n), conn);
        assert(commands.take(n) =~= commands.drop_last());
        assert(managers.take(n + 1).last() == managers[n]);
        lemma_since_step(commands, |c: Command| is_join_of(c, conn), |c: Command| is_disconnect_of(c, conn));
        assert(manager_step(managers[n], commands[n], managers[n + 1], replies[n]));
        assert(managers.last() == managers[n + 1]);
        match commands[n] {
            Command::Join { connection_id, .. } => {
                assert(managers[n + 1].players_of() == managers[n].players_of().insert(connection_id.id_of(), commands[n]->player_id));
            },
            Command::Disconnect { connection_id, .. } => {
                assert(managers[n + 1].players_of() == managers[n].players_of().remove(connection_id.id_of()));
            },
            _ => {},
        }
    } else {
        assert(!joined_and_stayed(commands, conn));
    }
}

/// In a run of the manager's loop from a manager that authenticates no
/// connection, a check whether a connection is authenticated is answered
/// yes exactly when the connection joined a table in an earlier command and
/// did not disconnect after that.
pub proof fn law_check_authenticated_answers(
    managers: Seq<GameSessionManager>,
    commands: Seq<Command>,
    replies: Seq<Reply>,
    i: int,
)
    requires
        is_run(managers, commands, replies),
        managers[0].players_of() == Map::<u128, PlayerId>::empty(),
        0 <= i < commands.len(),
        commands[i] is CheckAuthenticated,
    ensures
        replies[i] == Reply::Authenticated(
            joined_and_stayed(commands.take(i), commands[i]->CheckAuthenticated_connection_id.id_of()),
        ),
{
    lemma_run_prefix(managers, commands, replies, i);
    assert(managers.take(i + 1)[0] == managers[0]);
    let conn = commands[i]->CheckAuthenticated_connection_id.id_of();
    law_authenticated_after_commands(managers.take(i + 1), commands.take(i), replies.take(i), conn);
    assert(managers.take(i + 1).last() == managers[i]);
    assert(manager_step(managers[i], commands[i], managers[i + 1], replies[i]));
}

/// Over any run of the manager's loop from a manager with no table, a
/// connection sits at the table of a name at the end exactly when it joined
/// that table and has not disconnected since: joining seats it, and
/// disconnecting takes it from every table. The law is stated for
/// connections whose disconnections come while their session is open; a
/// connection that is disconnected without a session keeps its seats.
pub proof fn law_tables_after_commands(
    managers: Seq<GameSessionManager>,
    commands: Seq<Command>,
    replies: Seq<Reply>,
    name: Seq<char>,
    conn: ConnectionId,
)
    requires
        is_run(managers, commands, replies),
        managers[0].tables_of() == Seq::<(Seq<char>, Seq<ConnectionId>)>::empty(),
        forall|i: int|
            0 <= i < commands.len() && #[trigger] is_disconnect_of(commands[i], conn.id_of())
                ==> managers[i].sessions_of().contains(conn.id_of()),
    ensures
        sits_at(managers.last().tables_of(), name, conn) <==> seated_and_stayed(commands, name, conn),
    decreases commands.len(),
{
    if commands.len() > 0 {
        let n = commands.len() - 1;
        lemma_run_prefix(managers, commands, replies, n);
        assert(managers.take(n + 1)[0] == managers[0]);
        assert forall|i: int|
            0 <= i < commands.take(n).len() && #[trigger] is_disconnect_of(commands.take(n)[i], conn.id_of())
                implies managers.take(n + 1)[i].sessions_of().contains(conn.id_of()) by {
            assert(commands.take(n)[i] == commands[i]);
            assert(is_disconnect_of(commands[i], conn.id_of()));
        }
        law_tables_after_commands(managers.take(n + 1), commands.take(n), replies.take(n), name, conn);
        assert(commands.take(n) =~= commands.drop_last());
        assert(managers.take(n + 1).last() == managers[n]);
        lemma_since_step(
            commands,
            |c: Command| is_join_at(c, name, conn),
            |c: Command| is_disconnect_of(c, conn.id_of()),
        );
        assert(manager_step(managers[n], commands[n], managers[n + 1], replies[n]));
        assert(managers.last() == managers[n + 1]);
        let before = managers[n].tables_of();
        let after = managers[n + 1].tables_of();
        match commands[n] {
            Command::Join { connection_id, table_id, .. } => {
                lemma_join_sits(before, after, table_id.id_of(), connection_id, name, conn);
            },
            Command::Disconnect { connection_id, .. } => {
                if connection_id.id_of() == conn.id_of() {
                    assert(is_disconnect_of(commands[n], conn.id_of()));
                    crate::gateway::lemma_connection_id_ext(connection_id, conn);
                }
                lemma_disconnect_sits(managers[n], managers[n + 1], connection_id, name, conn);
            },
            _ => {
                assert(after == before);
            },
        }
    } else {
        assert(!sits_at(managers.last().tables_of(), name, conn));
    }
}

/// Who sits where once `c` has joined the table named `t`: as before, and `c`
/// at `t`.
proof fn lemma_join_sits(
    before: Seq<(Seq<char>, Seq<ConnectionId>)>,
    after: Seq<(Seq<char>, Seq<ConnectionId>)>,
    t: Seq<char>,
    c: ConnectionId,
    name: Seq<char>,
    conn: ConnectionId,
)
    requires
        joined(before, after, t, c),
    ensures
        sits_at(after, name, conn) <==> sits_at(before, name, conn) || (t == name && c == conn),
{
    if exists|k: int| 0 <= k < before.len() && #[trigger] before[k].0 == t {
        let k0 = choose|k: int| 0 <= k < before.len() && #[trigger] before[k].0 == t;
        if sits_at(after, name, conn) {
            let k = choose|k: int| 0 <= k < after.len() && (#[trigger] after[k]).0 == name && after[k].1.contains(conn);
            if before[k].0 == t {
                assert(after[k] == (t, before[k].1.push(c)));
                let m = choose|m: int| 0 <= m < after[k].1.len() && after[k].1[m] == conn;
                if m < before[k].1.len() {
                    assert(before[k].1[m] == conn);
                }
            } else {
                assert(after[k] == before[k]);
            }
        }
        if sits_at(before, name, conn) {
            let k = choose|k: int| 0 <= k < before.len() && (#[trigger] before[k]).0 == name && before[k].1.contains(conn);
            let m = choose|m: int| 0 <= m < before[k].1.len() && before[k].1[m] == conn;
            if before[k].0 == t {
                assert(after[k] == (t, before[k].1.push(c)));
                assert(after[k].1[m] == conn);
            } else {
                assert(after[k] == before[k]);
            }
            assert(sits_at(after, name, conn));
        }
        if t == name && c == conn {
            assert(after[k0] == (t, before[k0].1.push(c)));
            assert(after[k0].1[before[k0].1.len() as int] == conn);
            assert(sits_at(after, name, conn));
        }
    } else {
        assert(after == before.push((t, seq![c])));
        if sits_at(after, name, conn) {
            let k = choose|k: int| 0 <= k < after.len() && (#[trigger] after[k]).0 == name && after[k].1.contains(conn);
            if k < before.len() {
                assert(after[k] == before[k]);
            } else {
                assert(after[k] == (t, seq![c]));
                assert(after[k].1[0] == c);
            }
        }
        if sits_at(before, name, conn) {
            let k = choose|k: int| 0 <= k < before.len() && (#[trigger] before[k]).0 == name && before[k].1.contains(conn);
            assert(after[k] == before[k]);
            assert(sits_at(after, name, conn));
        }
        if t == name && c == conn {
            let k = before.len() as int;
            assert(after[k] == (t, seq![c]));
            assert(after[k].1[0] == conn);
            assert(sits_at(after, name, conn));
        }
    }
}

/// Who sits where once `c` has disconnected: as before, but for `c` if its
/// session was open.
proof fn lemma_disconnect_sits(
    before: GameSessionManager,
    after: GameSessionManager,
    c: ConnectionId,
    name: Seq<char>,
    conn: ConnectionId,
)
    requires
        disconnected(before, after, c),
    ensures
        sits_at(after.tables_of(), name, conn) <==> sits_at(before.tables_of(), name, conn) && !(
        before.sessions_of().contains(c.id_of()) && conn == c),
{
    let bt = before.tables_of();
    let at = after.tables_of();
    let open = before.sessions_of().contains(c.id_of());
    if sits_at(at, name, conn) {
        let k = choose|k: int| 0 <= k < at.len() && (#[trigger] at[k]).0 == name && at[k].1.contains(conn);
        assert(at[k] == (bt[k].0, if open { without(bt[k].1, c) } else { bt[k].1 }));
        if open {
            law_disconnect_leaves_table(bt[k].1, c);
        }
        assert(sits_at(bt, name, conn));
    }
    if sits_at(bt, name, conn) && !(open && conn == c) {
        let k = choose|k: int| 0 <= k < bt.len() && (#[trigger] bt[k]).0 == name && bt[k].1.contains(conn);
        assert(at[k] == (bt[k].0, if open { without(bt[k].1, c) } else { bt[k].1 }));
        if open {
            law_disconnect_leaves_table(bt[k].1, c);
        }
        assert(sits_at(at, name, conn));
    }
}


/// `info` ranks `children` by visits: its best child is the first child with
/// the most visits (none if no child has a visit), and its second child is a
/// child other than the best with the most visits among the others, the
/// first such (none if none of them has a visit).
pub open spec fn ranks_children(children: Seq<(NodeId, u32)>, info: SecondMoveInfo) -> bool {
    &&& forall|k: int| 0 <= k < children.len() ==> #[trigger] children[k].1 <= info.best_visits
    &&& info.second_visits <= info.best_visits
    &&& (info.best_id is Some <==> info.best_visits > 0)
    &&& (info.second_id is Some <==> info.second_visits > 0)
    &&& info.best_visits > 0 ==> exists|b: int|
        #![trigger children[b]]
        0 <= b < children.len() && info.best_id == Some(children[b].0) && children[b].1
            == info.best_visits && (forall|k: int| 0 <= k < b ==> #[trigger] children[k].1 < info.best_visits)
            && (forall|k: int|
            0 <= k < children.len() && k != b ==> #[trigger] children[k].1 <= info.second_visits) && (
        info.second_visits > 0 ==> exists|s: int|
            #![trigger children[s]]
            0 <= s < children.len() && s != b && info.second_id == Some(children[s].0) && children[s].1
                == info.second_visits && forall|k: int|
                0 <= k < s && k != b ==> #[trigger] children[k].1 < info.second_visits)
}

/// The facts behind [`ranks_children`], with the indices of the best and
/// second children.
proof fn lemma_scan_ranks(children: Seq<(NodeId, u32)>) -> (res: (int, int))
    ensures
        forall|k: int| 0 <= k < children.len() ==> #[trigger] children[k].1 <= scan_children(children).best_visits,
        scan_children(children).second_visits <= scan_children(children).best_visits,
        scan_children(children).best_visits == 0 ==> scan_children(children).best_id is None
            && scan_children(children).second_id is None && scan_children(children).second_visits == 0,
        scan_children(children).best_visits > 0 ==> {
            &&& 0 <= res.0 < children.len()
            &&& scan_children(children).best_id == Some(children[res.0].0)
            &&& children[res.0].1 == scan_children(children).best_visits
            &&& forall|k: int| 0 <= k < res.0 ==> #[trigger] children[k].1 < scan_children(children).best_visits
            &&& forall|k: int|
                0 <= k < children.len() && k != res.0 ==> #[trigger] children[k].1 <= scan_children(
                    children,
                ).second_visits
            &&& scan_children(children).second_visits == 0 ==> scan_children(children).second_id is None
            &&& scan_children(children).second_visits > 0 ==> {
                &&& 0 <= res.1 < children.len()
                &&& res.1 != res.0
                &&& scan_children(children).second_id == Some(children[res.1].0)
                &&& children[res.1].1 == scan_children(children).second_visits
                &&& forall|k: int|
                    0 <= k < res.1 && k != res.0 ==> #[trigger] children[k].1 < scan_children(
                        children,
                    ).second_visits
            }
        },
    decreases children.len(),
{
    if children.len() == 0 {
        (0, 0)
    } else {
        let prev = children.drop_last();
        let (pb, ps) = lemma_scan_ranks(prev);
        let n = children.len() - 1;
        let v = children[n].1;
        assert forall|k: int| 0 <= k < n implies #[trigger] children[k] == prev[k] by {}
        let p = scan_children(prev);
        if v > p.best_visits {
            (n, pb)
        } else if v > p.second_visits {
            (pb, n)
        } else {
            (pb, ps)
        }
    }
}

/// The best and second children found by the second move heuristic rank the
/// children by visits: the best is the first child with the most visits, and
/// the second is another child with the most visits among the rest.
pub proof fn law_second_move_info(children: Seq<(NodeId, u32)>)
    ensures
        ranks_children(children, scan_children(children)),
{
    let (b, s) = lemma_scan_ranks(children);
    let info = scan_children(children);
    if info.best_visits > 0 {
        assert(children[b] == children[b]);
        if info.second_visits > 0 {
            assert(children[s] == children[s]);
        }
    }
}

/// The encoding of a board has four channels of the 64 squares, row by row:
/// the square `i` is 1 in the first channel when it holds a dark disk, in
/// the second when it holds a light disk, and in the last when the player to
/// move can put a disk on it (0 otherwise); the third channel is 1 when dark
/// is to move and -1 when light is.
pub proof fn law_encoding_channels(board: Bitboard, turn: DiskColor, i: int)
    requires
        0 <= i < 64,
    ensures
        board_value(board, turn, i) == (if at(board.dark(), i / 8, i % 8) {
            1i8
        } else {
            0i8
        }),
        board_value(board, turn, 64 + i) == (if at(board.light(), i / 8, i % 8) {
            1i8
        } else {
            0i8
        }),
        board_value(board, turn, 128 + i) == (if turn == DiskColor::Dark {
            1i8
        } else {
            -1i8
        }),
        board_value(board, turn, 192 + i) == (if can_put(board, turn, i / 8, i % 8) {
            1i8
        } else {
            0i8
        }),
{
    assert((64 + i) / 64 == 1 && (64 + i) % 64 == i);
    assert((128 + i) / 64 == 2 && (128 + i) % 64 == i);
    assert((192 + i) / 64 == 3 && (192 + i) % 64 == i);
    assert(i / 64 == 0 && i % 64 == i);
}

/// The number that ASCII decimal digits read as, most significant first.
pub open spec fn decimal_value(digits: Seq<u8>) -> int
    decreases digits.len(),
{
    if digits.len() == 0 {
        0
    } else {
        decimal_value(digits.drop_last()) * 10 + (digits.last() - 48)
    }
}

/// The decimal digits of a number are ASCII digits, at least one, with no
/// leading zero but for zero itself, and they read back as the number.
pub proof fn law_decimal_digits_read_back(n: nat)
    ensures
        decimal_digits(n).len() >= 1,
        forall|k: int| 0 <= k < decimal_digits(n).len() ==> 48 <= #[trigger] decimal_digits(n)[k] <= 57,
        n > 0 ==> decimal_digits(n)[0] != 48u8,
        decimal_value(decimal_digits(n)) == n,
    decreases n,
{
    if n >= 10 {
        law_decimal_digits_read_back(n / 10);
        let d = decimal_digits(n);
        let prev = decimal_digits(n / 10);
        assert(d.drop_last() =~= prev);
        assert(d[0] == prev[0]);
        assert forall|k: int| 0 <= k < d.len() implies 48 <= #[trigger] d[k] <= 57 by {
            if k < prev.len() {
                assert(d[k] == prev[k]);
            }
        }
        assert(n == (n / 10) * 10 + n % 10);
        assert(d.last() == (48 + n % 10) as u8);
        assert(d.last() - 48 == n % 10);
        assert(decimal_value(d) == decimal_value(prev) * 10 + (d.last() - 48));
    } else {
        let d = decimal_digits(n);
        assert(d.drop_last() =~= Seq::<u8>::empty());
        assert(d.last() == (48 + n) as u8);
        assert(d.last() - 48 == n);
        assert(decimal_value(d) == decimal_value(d.drop_last()) * 10 + (d.last() - 48));
    }
}

/// Different salts give different data to hash for the same password: the
/// salt's digits cannot be confused.
pub proof fn law_salt_data_injective(password: Seq<u8>, a: u32, b: u32)
    requires
        password_data(password, a) == password_data(password, b),
    ensures
        a == b,
{
    law_decimal_digits_read_back(a as nat);
    law_decimal_digits_read_back(b as nat);
    let da = decimal_digits(a as nat);
    let db = decimal_digits(b as nat);
    assert(password_data(password, a).subrange(password.len() as int, password_data(password, a).len() as int) =~= da);
    assert(password_data(password, b).subrange(password.len() as int, password_data(password, b).len() as int) =~= db);
}

/// A finished game is worth 1 to the player to move if it has more disks than
/// its opponent, -1 if fewer and 0 on equal counts.
pub proof fn law_terminal_value_by_counts(board: Bitboard, turn: DiskColor)
    ensures
        terminal_outcome(board, turn) == (if disk_count(player_plane(board, turn)) > disk_count(
            opponent_plane(board, turn),
        ) {
            1i8
        } else if disk_count(player_plane(board, turn)) < disk_count(opponent_plane(board, turn)) {
            -1i8
        } else {
            0i8
        }),
{
}

/// The squares of a plane among the first `n`, in increasing order.
proof fn lemma_squares_in_listed(x: u64, n: int)
    requires
        0 <= n <= 64,
    ensures
        squares_in(x, n).len() == count_squares(x, n),
        forall|k: int|
            0 <= k < squares_in(x, n).len() ==> 0 <= #[trigger] squares_in(x, n)[k] < n && at(
                x,
                squares_in(x, n)[k] / 8,
                squares_in(x, n)[k] % 8,
            ),
        forall|i: int| 0 <= i < n && #[trigger] at(x, i / 8, i % 8) ==> squares_in(x, n).contains(i),
        forall|j: int, k: int|
            0 <= j < k < squares_in(x, n).len() ==> #[trigger] squares_in(x, n)[j] < #[trigger] squares_in(
                x,
                n,
            )[k],
    decreases n,
{
    if n > 0 {
        lemma_squares_in_listed(x, n - 1);
        let prev = squares_in(x, n - 1);
        let cur = squares_in(x, n);
        assert forall|k: int| 0 <= k < prev.len() implies #[trigger] cur[k] == prev[k] by {}
        assert forall|i: int| 0 <= i < n && #[trigger] at(x, i / 8, i % 8) implies cur.contains(i) by {
            if i < n - 1 {
                let k = choose|k: int| 0 <= k < prev.len() && prev[k] == i;
                assert(cur[k] == i);
            } else {
                assert(cur[prev.len() as int] == i);
            }
        }
    }
}

/// The squares listed for a plane are exactly the squares it holds, each
/// once and in increasing order, as many as it holds.
pub proof fn law_squares_listed(x: u64)
    ensures
        squares_in(x, 64).len() == disk_count(x),
        forall|k: int|
            0 <= k < squares_in(x, 64).len() ==> 0 <= #[trigger] squares_in(x, 64)[k] < 64 && at(
                x,
                squares_in(x, 64)[k] / 8,
                squares_in(x, 64)[k] % 8,
            ),
        forall|i: int| 0 <= i < 64 && #[trigger] at(x, i / 8, i % 8) ==> squares_in(x, 64).contains(i),
        forall|j: int, k: int|
            0 <= j < k < squares_in(x, 64).len() ==> #[trigger] squares_in(x, 64)[j] < #[trigger] squares_in(
                x,
                64,
            )[k],
{
    lemma_squares_in_listed(x, 64);
}

/// The legal squares among the first `n`, in increasing order.
proof fn lemma_legal_squares_listed(board: Bitboard, turn: DiskColor, n: int)
    requires
        0 <= n <= 64,
    ensures
        forall|k: int|
            0 <= k < legal_squares(board, turn, n).len() ==> 0 <= #[trigger] legal_squares(board, turn, n)[k]
                < n && can_put(
                board,
                turn,
                legal_squares(board, turn, n)[k] / 8,
                legal_squares(board, turn, n)[k] % 8,
            ),
        forall|i: int|
            0 <= i < n && #[trigger] can_put(board, turn, i / 8, i % 8) ==> legal_squares(board, turn, n).contains(i),
        forall|j: int, k: int|
            0 <= j < k < legal_squares(board, turn, n).len() ==> #[trigger] legal_squares(board, turn, n)[j]
                < #[trigger] legal_squares(board, turn, n)[k],
    decreases n,
{
    if n > 0 {
        lemma_legal_squares_listed(board, turn, n - 1);
        let prev = legal_squares(board, turn, n - 1);
        let cur = legal_squares(board, turn, n);
        assert forall|k: int| 0 <= k < prev.len() implies #[trigger] cur[k] == prev[k] by {}
        assert forall|i: int| 0 <= i < n && #[trigger] can_put(board, turn, i / 8, i % 8) implies cur.contains(i) by {
            if i < n - 1 {
                let k = choose|k: int| 0 <= k < prev.len() && prev[k] == i;
                assert(cur[k] == i);
            } else {
                assert(cur[prev.len() as int] == i);
            }
        }
    }
}

/// The legal moves listed for the player to move are exactly the squares it
/// can put a disk on, each once and in increasing order.
pub proof fn law_legal_squares_listed(board: Bitboard, turn: DiskColor)
    ensures
        forall|k: int|
            0 <= k < legal_squares(board, turn, 64).len() ==> 0 <= #[trigger] legal_squares(board, turn, 64)[k]
                < 64 && can_put(
                board,
                turn,
                legal_squares(board, turn, 64)[k] / 8,
                legal_squares(board, turn, 64)[k] % 8,
            ),
        forall|i: int|
            0 <= i < 64 && #[trigger] can_put(board, turn, i / 8, i % 8) ==> legal_squares(board, turn, 64).contains(i),
        forall|j: int, k: int|
            0 <= j < k < legal_squares(board, turn, 64).len() ==> #[trigger] legal_squares(board, turn, 64)[j]
                < #[trigger] legal_squares(board, turn, 64)[k],
{
    lemma_legal_squares_listed(board, turn, 64);
}

} // verus!
