use reversi::table::Table;
use reversi::{BitPosition, Bitboard, Column, Controller, DiskColor, Position, Row, Winner};

fn xy_to_bit(row: Row, column: Column) -> u64 {
    let position = Position::new(row, column);
    BitPosition::from(position).0
}


    
    #[test]
    fn controller_test_is_game_over() {
        // Initial state
        {
            let table = Table::default();
            assert!(!Controller::is_game_over(&table));
        }

        // Continuable game
        {
            let mut table = Table::default();
            let board = table.board();
            let mask = xy_to_bit(Row::Four, Column::C) | xy_to_bit(Row::Four, Column::D);
            let new_board = Bitboard::new(board.dark_plane() | mask, board.light_plane() & !mask);
            table.set_board(new_board);
            table.set_turn(DiskColor::Light);
            assert!(!Controller::is_game_over(&table));
        }

        // No more empty square
        {
            let mut table = Table::default();
            let fill = !0u64;
            let new_board = Bitboard::new(fill, 0);
            table.set_board(new_board);
            table.set_turn(DiskColor::Light);
            assert!(Controller::is_game_over(&table));
        }

        // There are empty squares but nobody can put
        {
            let mut table = Table::default();
            let board = table.board();
            let mask = xy_to_bit(Row::Two, Column::D)
                | xy_to_bit(Row::Three, Column::C)
                | xy_to_bit(Row::Three, Column::D)
                | xy_to_bit(Row::Three, Column::E)
                | xy_to_bit(Row::Four, Column::B)
                | xy_to_bit(Row::Four, Column::C)
                | xy_to_bit(Row::Four, Column::D)
                | xy_to_bit(Row::Four, Column::E)
                | xy_to_bit(Row::Four, Column::F)
                | xy_to_bit(Row::Five, Column::C)
                | xy_to_bit(Row::Five, Column::D)
                | xy_to_bit(Row::Five, Column::E)
                | xy_to_bit(Row::Six, Column::D);
            let new_board = Bitboard::new(board.dark_plane() | mask, board.light_plane() & !mask);
            table.set_board(new_board);
            table.set_turn(DiskColor::Light);
            assert!(Controller::is_game_over(&table));
        }
    }

    #[test]
    fn controller_test_judge() {
        // Dark wins
        {
            let mut table = Table::default();
            let board = table.board();
            let mask = xy_to_bit(Row::Three, Column::C)
                | xy_to_bit(Row::Four, Column::D)
                | xy_to_bit(Row::Four, Column::E)
                | xy_to_bit(Row::Four, Column::F)
                | xy_to_bit(Row::Four, Column::G)
                | xy_to_bit(Row::Five, Column::D)
                | xy_to_bit(Row::Five, Column::E)
                | xy_to_bit(Row::Five, Column::F)
                | xy_to_bit(Row::Five, Column::G)
                | xy_to_bit(Row::Five, Column::H)
                | xy_to_bit(Row::Six, Column::E)
                | xy_to_bit(Row::Six, Column::G)
                | xy_to_bit(Row::Seven, Column::F)
                | xy_to_bit(Row::Eight, Column::E)
                | xy_to_bit(Row::Eight, Column::G);
            let new_board = Bitboard::new(board.dark_plane() | mask, board.light_plane() & !mask);
            table.set_board(new_board);
            table.set_turn(DiskColor::Light);

            assert_eq!(
                Controller::judge(&table).winner(),
                Winner::Win(DiskColor::Dark)
            );
        }

        // Light wins
        {
            let mut table = Table::default();
            let fill = !0u64;
            let new_board = Bitboard::new(0, fill);
            table.set_board(new_board);
            table.set_turn(DiskColor::Dark);

            assert_eq!(
                Controller::judge(&table).winner(),
                Winner::Win(DiskColor::Light)
            );
        }

        // Draw
        {
            let mut table = Table::default();
            let board = table.board();
            let dark_mask = xy_to_bit(Row::One, Column::A)
                | xy_to_bit(Row::Two, Column::B)
                | xy_to_bit(Row::Three, Column::C)
                | xy_to_bit(Row::Six, Column::F)
                | xy_to_bit(Row::Six, Column::H)
                | xy_to_bit(Row::Seven, Column::D)
                | xy_to_bit(Row::Seven, Column::E)
                | xy_to_bit(Row::Seven, Column::F)
                | xy_to_bit(Row::Seven, Column::G)
                | xy_to_bit(Row::Seven, Column::H)
                | xy_to_bit(Row::Eight, Column::F)
                | xy_to_bit(Row::Eight, Column::H);
            let light_mask = xy_to_bit(Row::One, Column::F)
                | xy_to_bit(Row::Two, Column::F)
                | xy_to_bit(Row::Three, Column::E)
                | xy_to_bit(Row::Three, Column::F)
                | xy_to_bit(Row::Three, Column::G)
                | xy_to_bit(Row::Four, Column::D)
                | xy_to_bit(Row::Four, Column::E)
                | xy_to_bit(Row::Four, Column::F)
                | xy_to_bit(Row::Five, Column::C)
                | xy_to_bit(Row::Five, Column::D)
                | xy_to_bit(Row::Five, Column::E)
                | xy_to_bit(Row::Five, Column::F);
            let new_board = Bitboard::new(
                (board.dark_plane() | dark_mask) & !light_mask,
                (board.light_plane() | light_mask) & !dark_mask,
            );
            table.set_board(new_board);
            table.set_turn(DiskColor::Dark);

            assert_eq!(Controller::judge(&table).winner(), Winner::Draw);
        }
    }

#[test]
fn judge_counts_disks() {
    let mut table = Table::default();
    table.set_board(Bitboard::new(!0u64 << 20, !(!0u64 << 20)));
    assert!(Controller::is_game_over(&table));
    let result = Controller::judge(&table);
    assert_eq!(result.dark_count(), 44);
    assert_eq!(result.light_count(), 20);
    assert_eq!(result.winner(), Winner::Win(DiskColor::Dark));
}
