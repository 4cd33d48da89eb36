use reversi::table::Table;
use reversi::Bitboard;
use reversi::{
    get_flip_positions, get_puttable_positions, BitPosition, BoardExt, Column, DiskColor, Position,
    Row,
};

fn bit(row: Row, column: Column) -> u64 {
    BitPosition::from(Position::new(row, column)).0
}

#[test]
fn test_get_puttable_positions() {
    // Check 1
    let mut table = Table::default();
    // Dark turn
    let puttable = get_puttable_positions(table.board(), table.turn()).to_vec();
    assert_eq!(
        puttable,
        vec![
            Position::new(Row::Three, Column::D),
            Position::new(Row::Four, Column::C),
            Position::new(Row::Five, Column::F),
            Position::new(Row::Six, Column::E),
        ]
    );

    // Check 2
    table = Table::default();
    table
        .board_mut()
        .set_disk(Position::new(Row::Five, Column::F), DiskColor::Dark);
    table
        .board_mut()
        .set_disk(Position::new(Row::Six, Column::F), DiskColor::Light);
    // Dark turn
    let puttable = get_puttable_positions(table.board(), table.turn()).to_vec();
    assert_eq!(
        puttable,
        vec![
            Position::new(Row::Three, Column::D),
            Position::new(Row::Four, Column::C),
            Position::new(Row::Six, Column::E),
            Position::new(Row::Seven, Column::F),
        ]
    );
}

#[test]
fn test_get_flip_positions() {
    // Check 1
    let mut table = Table::default();
    // Dark turn
    let flip = get_flip_positions(
        table.board(),
        table.turn(),
        BitPosition::from(Position::new(Row::Four, Column::B)),
    );
    assert!(flip.is_empty());

    // Check 2
    table = Table::default();
    table
        .board_mut()
        .set_disk(Position::new(Row::Five, Column::F), DiskColor::Dark);
    table
        .board_mut()
        .set_disk(Position::new(Row::Six, Column::F), DiskColor::Light);
    table
        .board_mut()
        .set_disk(Position::new(Row::Five, Column::E), DiskColor::Dark);
    table
        .board_mut()
        .set_disk(Position::new(Row::Six, Column::E), DiskColor::Dark);
    // Light turn
    table.set_turn(DiskColor::Light);
    let flip = get_flip_positions(
        table.board(),
        table.turn(),
        BitPosition::from(Position::new(Row::Four, Column::F)),
    );
    assert_eq!(flip.0, bit(Row::Four, Column::E) | bit(Row::Five, Column::F));
}

#[test]
fn set_and_get_disk() {
    let mut table = Table::default();
    let d4 = Position::new(Row::Four, Column::D);
    assert_eq!(table.board().get_disk(&d4), Some(DiskColor::Light));
    table.board_mut().set_disk(d4, DiskColor::Dark);
    assert_eq!(table.board().get_disk(&d4), Some(DiskColor::Dark));
    assert_eq!(table.board().light_plane() & bit(Row::Four, Column::D), 0);
    let a1 = Position::new(Row::One, Column::A);
    assert_eq!(table.board().get_disk(&a1), None);
}

#[test]
fn test_get_rays() {
    let board = Bitboard::default();
    let rays = board.get_rays(&Position::new(Row::Four, Column::C));

    // right
    assert_eq!(
        rays[0],
        vec![
            (Some(DiskColor::Light), Position::new(Row::Four, Column::D)),
            (Some(DiskColor::Dark), Position::new(Row::Four, Column::E)),
            (None, Position::new(Row::Four, Column::F)),
            (None, Position::new(Row::Four, Column::G)),
            (None, Position::new(Row::Four, Column::H))
        ]
    );
    // right up
    assert_eq!(
        rays[1],
        vec![
            (None, Position::new(Row::Three, Column::D)),
            (None, Position::new(Row::Two, Column::E)),
            (None, Position::new(Row::One, Column::F)),
        ]
    );
    // up
    assert_eq!(
        rays[2],
        vec![
            (None, Position::new(Row::Three, Column::C)),
            (None, Position::new(Row::Two, Column::C)),
            (None, Position::new(Row::One, Column::C)),
        ]
    );
    // left up
    assert_eq!(
        rays[3],
        vec![
            (None, Position::new(Row::Three, Column::B)),
            (None, Position::new(Row::Two, Column::A)),
        ]
    );
    // left
    assert_eq!(
        rays[4],
        vec![
            (None, Position::new(Row::Four, Column::B)),
            (None, Position::new(Row::Four, Column::A)),
        ]
    );
    // left down
    assert_eq!(
        rays[5],
        vec![
            (None, Position::new(Row::Five, Column::B)),
            (None, Position::new(Row::Six, Column::A)),
        ]
    );
    // down
    assert_eq!(
        rays[6],
        vec![
            (None, Position::new(Row::Five, Column::C)),
            (None, Position::new(Row::Six, Column::C)),
            (None, Position::new(Row::Seven, Column::C)),
            (None, Position::new(Row::Eight, Column::C)),
        ]
    );
    // right down
    assert_eq!(
        rays[7],
        vec![
            (Some(DiskColor::Dark), Position::new(Row::Five, Column::D)),
            (None, Position::new(Row::Six, Column::E)),
            (None, Position::new(Row::Seven, Column::F)),
            (None, Position::new(Row::Eight, Column::G)),
        ]
    );
}

#[test]
fn rays_from_a_corner_run_to_the_edges() {
    let board = Bitboard::default();
    let rays = board.get_rays(&Position::new(Row::One, Column::A));
    assert_eq!(rays[0].len(), 7);
    assert!(rays[1].is_empty());
    assert!(rays[2].is_empty());
    assert!(rays[3].is_empty());
    assert!(rays[4].is_empty());
    assert!(rays[5].is_empty());
    assert_eq!(rays[6].len(), 7);
    assert_eq!(rays[7].len(), 7);
    assert_eq!(rays[7][3], (Some(DiskColor::Light), Position::new(Row::Five, Column::E)));
}

#[test]
fn setting_a_disk_replaces_the_other_color() {
    let mut board = Bitboard::default();
    let d4 = Position::new(Row::Four, Column::D);
    let e4 = Position::new(Row::Four, Column::E);
    assert_eq!(board.get_disk(&d4), Some(DiskColor::Light));
    board.set_disk(d4, DiskColor::Dark);
    assert_eq!(board.get_disk(&d4), Some(DiskColor::Dark));
    assert_eq!(board.get_disk(&e4), Some(DiskColor::Dark));
    assert_eq!(board.dark_plane() & board.light_plane(), 0);
    assert_eq!(board.light_plane().count_ones(), 1);
}
