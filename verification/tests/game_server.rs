use reversi::message::StepRequestMessage;
use reversi::server::{create_new_table, step_table};
use reversi::table::Table;
use reversi::{Action, BitPosition, Bitboard, Column, DiskColor, Position, PutConfig, Row};

fn xy_to_bit(row: Row, column: Column) -> u64 {
    let position = Position::new(row, column);
    BitPosition::from(position).0
}

#[test]
fn test_create_new_table() {
    let state = create_new_table().0;
    assert_eq!(state.table().board(), &Bitboard::default());
    assert_eq!(state.table().turn(), DiskColor::Dark);
    assert_eq!(
        state.puttable_positions(),
        &vec![
            Position::new(Row::Three, Column::D),
            Position::new(Row::Four, Column::C),
            Position::new(Row::Five, Column::F),
            Position::new(Row::Six, Column::E),
        ]
    );
    assert!(state.judge_result().is_none());
    assert!(state.player_colors().is_none());
}

#[test]
fn step_test_step_table_put() {
    let res = step_table(StepRequestMessage::new(
        Table::default(),
        Action::PutDisk(PutConfig::new(DiskColor::Dark, Position::new(Row::Three, Column::D))),
    ));
    assert!(res.is_ok());
    let state = res.unwrap().0;
    assert_eq!(state.table().turn(), DiskColor::Light);
    assert_eq!(state.table().history().len(), 1);
    assert_eq!(
        state.puttable_positions(),
        &vec![
            Position::new(Row::Three, Column::C),
            Position::new(Row::Three, Column::E),
            Position::new(Row::Five, Column::C),
        ]
    );
}

#[test]
fn step_test_step_table_invalid() {
    let res = step_table(StepRequestMessage::new(
        Table::default(),
        Action::PutDisk(PutConfig::new(DiskColor::Dark, Position::new(Row::One, Column::A))),
    ));
    assert!(res.is_err());
}

#[test]
fn step_test_step_table_pass() {
    let mut table = Table::default();
    let board = table.board();
    let dark_mask = xy_to_bit(Row::Four, Column::C)
        | xy_to_bit(Row::Four, Column::D)
        | xy_to_bit(Row::Five, Column::E)
        | xy_to_bit(Row::Five, Column::F)
        | xy_to_bit(Row::Five, Column::G)
        | xy_to_bit(Row::Five, Column::H)
        | xy_to_bit(Row::Seven, Column::D)
        | xy_to_bit(Row::Seven, Column::E)
        | xy_to_bit(Row::Seven, Column::F)
        | xy_to_bit(Row::Seven, Column::G);
    let light_mask = xy_to_bit(Row::Six, Column::F)
        | xy_to_bit(Row::Six, Column::H)
        | xy_to_bit(Row::Seven, Column::H)
        | xy_to_bit(Row::Eight, Column::H);
    let new_board = Bitboard::new(
        (board.dark_plane() | dark_mask) & !light_mask,
        (board.light_plane() | light_mask) & !dark_mask,
    );
    table.set_board(new_board);
    table.set_turn(DiskColor::Dark);

    let res = step_table(StepRequestMessage::new(table, Action::PassTurn(DiskColor::Dark)));
    assert!(res.is_ok());
}

#[test]
fn step_test_step_table_invalid_pass() {
    let res = step_table(StepRequestMessage::new(
        Table::default(),
        Action::PassTurn(DiskColor::Dark),
    ));
    assert_eq!(
        res.err(),
        Some(String::from("Tried to pass turn but there are puttable positions"))
    );
}

#[test]
fn step_ends_a_finished_game_with_its_judge() {
    // Dark fills A1 and wins: nobody can move afterwards.
    let mut table = Table::default();
    table.set_board(Bitboard::new(1u64 << 61, 1u64 << 62));
    let res = step_table(StepRequestMessage::new(
        table,
        Action::PutDisk(PutConfig::new(DiskColor::Dark, Position::new(Row::One, Column::A))),
    ))
    .unwrap()
    .0;
    let judge = res.judge_result().unwrap();
    assert_eq!(judge.dark_count(), 3);
    assert_eq!(judge.light_count(), 0);
    assert!(res.puttable_positions().is_empty());
}
