use reversi::table::Table;
use reversi::{Action, Bitboard, Column, DiskColor, Position, PutConfig, Row};

#[test]
fn test_bitboard_default() {
    let bitboard = Bitboard::default();
    assert_eq!(
        bitboard.dark_plane(),
        0b00000000_00000000_00000000_00001000_00010000_00000000_00000000_00000000
    );
    assert_eq!(
        bitboard.light_plane(),
        0b00000000_00000000_00000000_00010000_00001000_00000000_00000000_00000000
    );
}

#[test]
fn test_position_new() {
    let row = Row::Four;
    let column = Column::D;
    let position = Position::new(row, column);
    assert_eq!(position.row(), row);
    assert_eq!(position.column(), column);
}

#[test]
fn test_position_from_row_column() {
    let row = Row::Four;
    let column = Column::D;
    {
        let position: Position = (row, column).into();
        assert_eq!(position.row(), row);
        assert_eq!(position.column(), column);
    }
    {
        let position = Position::from((row, column));
        assert_eq!(position.row(), row);
        assert_eq!(position.column(), column);
    }
}

#[test]
fn test_usize_from_position() {
    for (row, column, expected) in [
        (Row::One, Column::A, 0),
        (Row::Eight, Column::H, 63),
        (Row::One, Column::H, 7),
        (Row::Three, Column::E, 20),
    ] {
        {
            let idx: usize = Position::new(row, column).into();
            assert_eq!(idx, expected);
        }
        {
            let idx = usize::from(Position::new(row, column));
            assert_eq!(idx, expected);
        }
    }
}

#[test]
fn test_position_macro() {
    assert_eq!(
        Position::from((Row::One, Column::A)),
        Position::new(Row::One, Column::A)
    );
    assert_eq!(
        Position::from((Row::Eight, Column::H)),
        Position::new(Row::Eight, Column::H)
    );
}

#[test]
fn test_push_history() {
    let mut table = Table::default();
    let action = Action::PutDisk(PutConfig::new(
        DiskColor::Dark,
        Position::new(Row::Four, Column::C),
    ));

    assert!(table.history().is_empty());

    table.push_history(action.clone());

    assert_eq!(table.history().len(), 1);
    assert_eq!(table.history()[0], action);
}

#[test]
fn test_default_table() {
    let table = Table::default();

    assert_eq!(table.board(), &Bitboard::default());
    assert_eq!(table.turn(), DiskColor::Dark);
    assert!(table.history().is_empty());
}

#[test]
fn row_and_column_from_u8() {
    assert_eq!(Row::from_u8(0), Some(Row::One));
    assert_eq!(Row::from_u8(7), Some(Row::Eight));
    assert_eq!(Row::from_u8(8), None);
    assert_eq!(Column::from_u8(3), Some(Column::D));
    assert_eq!(Column::from_u8(200), None);
    assert_eq!(Position::from_index(20), Some(Position::new(Row::Three, Column::E)));
    assert_eq!(Position::from_index(64), None);
}

#[test]
fn bit_position_is_most_significant_first() {
    let a1 = reversi::BitPosition::from(Position::new(Row::One, Column::A));
    let h8 = reversi::BitPosition::from(Position::new(Row::Eight, Column::H));
    assert_eq!(a1.0, 1u64 << 63);
    assert_eq!(h8.0, 1u64);
}
