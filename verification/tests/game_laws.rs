use reversi::table::Table;
use reversi::{
    get_flip_positions, get_puttable_positions, Action, ActionExt, BitPosition, Bitboard,
    Column, Controller, DiskColor, Position, PutConfig, Row,
};

fn square(index: usize) -> Position {
    Position::from_index(index).unwrap()
}

fn player_and_opponent(board: &Bitboard, turn: DiskColor) -> (u64, u64) {
    match turn {
        DiskColor::Dark => (board.dark_plane(), board.light_plane()),
        DiskColor::Light => (board.light_plane(), board.dark_plane()),
    }
}

/// Plays a whole game, always taking the last legal square, and checks the
/// laws of the rules at every step.
#[test]
fn laws_hold_along_a_whole_game() {
    let mut table = Table::default();
    let mut steps = 0;
    loop {
        let board = *table.board();
        let turn = table.turn();
        // The board never holds a disk of each color on a square.
        assert_eq!(board.dark_plane() & board.light_plane(), 0);
        assert!(board.dark_plane().count_ones() + board.light_plane().count_ones() <= 64);

        let puttable = get_puttable_positions(&board, turn);
        // A square is listed exactly when a put there is accepted.
        for index in 0..64 {
            let position = square(index);
            let listed = puttable.0 & BitPosition::from(position).0 != 0;
            let action = Action::PutDisk(PutConfig::new(turn, position));
            assert_eq!(listed, action.check_inputs(&table).is_ok());
        }
        if Controller::is_game_over(&table) {
            break;
        }
        if puttable.is_empty() {
            // A pass is accepted exactly when no put is.
            Controller::step(&mut table, Action::PassTurn(turn)).unwrap();
            continue;
        }
        let positions = puttable.to_vec();
        let position = *positions.last().unwrap();
        let flips = get_flip_positions(&board, turn, BitPosition::from(position));
        let (player, opponent) = player_and_opponent(&board, turn);
        // Every flipped disk is an opponent's disk, and not the square played.
        assert_eq!(flips.0 & opponent, flips.0);
        assert_eq!(flips.0 & BitPosition::from(position).0, 0);
        assert!(flips.0 != 0);

        let action = Action::PutDisk(PutConfig::new(turn, position));
        let mut again = table.clone();
        Controller::step(&mut table, action).unwrap();
        action.execute(&mut again).unwrap();
        // The same action on the same table gives the same table.
        assert_eq!(table.board(), again.board());
        assert_eq!(table.turn(), again.turn());
        assert_eq!(table.history(), again.history());

        // The player gains the disk put and the flipped disks; the opponent
        // loses the flipped disks.
        let (player_after, opponent_after) = player_and_opponent(table.board(), turn);
        let flipped = flips.0.count_ones();
        assert_eq!(player_after.count_ones(), player.count_ones() + 1 + flipped);
        assert_eq!(opponent_after.count_ones() + flipped, opponent.count_ones());
        steps += 1;
        assert!(steps < 200);
    }
    assert!(steps >= 30);
}

#[test]
fn a_pass_is_accepted_only_without_moves() {
    let table = Table::default();
    assert!(Action::PassTurn(DiskColor::Dark).check_inputs(&table).is_err());
    let mut blocked = Table::default();
    // Dark on A1 and light on H8: nobody can move.
    blocked.set_board(Bitboard::new(1u64 << 63, 1));
    assert!(Action::PassTurn(DiskColor::Dark).check_inputs(&blocked).is_ok());
    assert!(Action::PassTurn(DiskColor::Light).check_inputs(&blocked).is_err());
    let position = Position::new(Row::One, Column::B);
    assert!(Action::PutDisk(PutConfig::new(DiskColor::Dark, position))
        .check_inputs(&blocked)
        .is_err());
}
