use reversi::table::Table;
use reversi::{
    get_flip_positions, get_puttable_positions, Action, ActionExt, BitPosition, Bitboard, Column,
    DiskColor, Position, PutConfig, PuttablePositions, Row,
};

const TURN: DiskColor = DiskColor::Dark;

fn xy_to_bit(row: u8, column: u8) -> u64 {
    let position = Position::new(Row::from_u8(row).unwrap(), Column::from_u8(column).unwrap());
    BitPosition::from(position).0
}


    
    #[test]
    fn test_bit_puttable_position_to_vec() {
        let puttable_positions = PuttablePositions(
            0b00000000_00000001_00000000_00000000_10000000_00000000_00000000_00000000,
        );
        let expected = vec![
            Position::new(Row::Two, Column::H),
            Position::new(Row::Five, Column::A),
        ];
        assert_eq!(puttable_positions.to_vec(), expected);
    }

    

        #[test]
        fn should_return_four_positions_for_dark_at_initial_board() {
            let initial_board = Bitboard::default();
            let turn = DiskColor::Dark;
            let expected = xy_to_bit(2, 3) | xy_to_bit(3, 2) | xy_to_bit(5, 4) | xy_to_bit(4, 5);

            let result = get_puttable_positions(&initial_board, turn);

            assert_eq!(result.0, expected);
        }

        #[test]
        fn should_return_four_positions_for_light_at_initial_board() {
            let initial_board = Bitboard::default();
            let turn = DiskColor::Light;
            let expected = xy_to_bit(4, 2) | xy_to_bit(5, 3) | xy_to_bit(2, 4) | xy_to_bit(3, 5);

            let result = get_puttable_positions(&initial_board, turn);

            assert_eq!(result.0, expected);
        }

        #[test]
        fn should_return_no_positions_when_no_moves_are_available() {
            let board = Bitboard::new(xy_to_bit(0, 0), xy_to_bit(7, 7));
            let turn = DiskColor::Dark;
            let expected = 0;

            let result = get_puttable_positions(&board, turn);

            assert_eq!(result.0, expected);
        }

        #[test]
        fn puttable_right_no_wraparound() {
            let board = Bitboard::new(xy_to_bit(3, 2), xy_to_bit(3, 3)); // Player:C4, Opponent:D4
            let turn = DiskColor::Dark;

            let result = get_puttable_positions(&board, turn);

            assert_eq!(result.0, xy_to_bit(3, 4)); // Expect: E4 is puttable
        }

        #[test]
        fn puttable_right_wraparound() {
            let board = Bitboard::new(xy_to_bit(3, 6), xy_to_bit(3, 7)); // Player:G4, Opponent:H4
            let turn = DiskColor::Dark;

            let result = get_puttable_positions(&board, turn); // A5 is empty

            assert_eq!(result.0 & xy_to_bit(4, 0), 0); // Expect: A5 is NOT puttable
        }

        #[test]
        fn puttable_left_no_wraparound() {
            let board = Bitboard::new(xy_to_bit(3, 4), xy_to_bit(3, 3)); // Player:E4, Opponent:D4
            let turn = DiskColor::Dark;

            let result = get_puttable_positions(&board, turn);

            assert_eq!(result.0, xy_to_bit(3, 2)); // Expect: C4 is puttable
        }

        #[test]
        fn puttable_left_wraparound() {
            let board = Bitboard::new(xy_to_bit(3, 1), xy_to_bit(3, 0)); // Player:B4, Opponent:A4
            let turn = DiskColor::Dark;

            let result = get_puttable_positions(&board, turn); // H3 is empty
            assert_eq!(result.0 & xy_to_bit(2, 7), 0); // Expect: H3 is NOT puttable
        }

        #[test]
        fn puttable_down_no_wraparound() {
            let board = Bitboard::new(xy_to_bit(2, 3), xy_to_bit(3, 3)); // Player:D3, Opponent:D4
            let turn = DiskColor::Dark;

            let result = get_puttable_positions(&board, turn);

            assert_eq!(result.0, xy_to_bit(4, 3)); // Expect: D5 is puttable
        }

        #[test]
        fn puttable_down_edge_case() {
            let board = Bitboard::new(xy_to_bit(6, 3), xy_to_bit(7, 3)); // Player:D7, Opponent:D8
            let turn = DiskColor::Dark;

            let result = get_puttable_positions(&board, turn);

            assert_eq!(result.0, 0); // Expect: No moves
        }

        #[test]
        fn puttable_up_no_wraparound() {
            let board = Bitboard::new(xy_to_bit(4, 3), xy_to_bit(3, 3)); // Player:D5, Opponent:D4
            let turn = DiskColor::Dark;

            let result = get_puttable_positions(&board, turn);

            assert_eq!(result.0, xy_to_bit(2, 3)); // Expect: D3 is puttable
        }

        #[test]
        fn puttable_up_edge_case() {
            let board = Bitboard::new(xy_to_bit(1, 3), xy_to_bit(0, 3)); // Player:D2, Opponent:D1
            let turn = DiskColor::Dark;

            let result = get_puttable_positions(&board, turn);

            assert_eq!(result.0, 0); // Expect: No moves
        }

        #[test]
        fn puttable_right_down_no_wraparound() {
            let board = Bitboard::new(xy_to_bit(2, 2), xy_to_bit(3, 3)); // Player:C3, Opponent:D4
            let turn = DiskColor::Dark;

            let result = get_puttable_positions(&board, turn);

            assert_eq!(result.0, xy_to_bit(4, 4)); // Expect: E5 is puttable
        }

        #[test]
        fn puttable_right_down_wraparound() {
            let board = Bitboard::new(xy_to_bit(2, 6), xy_to_bit(3, 7)); // Player:G3, Opponent:H4
            let turn = DiskColor::Dark;

            let result = get_puttable_positions(&board, turn); // A5 is empty

            assert_eq!(result.0 & xy_to_bit(4, 0), 0); // Expect: A5 is NOT puttable
        }

        #[test]
        fn puttable_left_down_no_wraparound() {
            let board = Bitboard::new(xy_to_bit(2, 4), xy_to_bit(3, 3)); // Player:E3, Opponent:D4
            let turn = DiskColor::Dark;

            let result = get_puttable_positions(&board, turn);

            assert_eq!(result.0, xy_to_bit(4, 2)); // Expect: C5 is puttable
        }

        #[test]
        fn puttable_left_down_wraparound() {
            let board = Bitboard::new(xy_to_bit(2, 1), xy_to_bit(3, 0)); // Player:B3, Opponent:A4
            let turn = DiskColor::Dark;

            let result = get_puttable_positions(&board, turn); // H5 is empty

            assert_eq!(result.0 & xy_to_bit(4, 7), 0); // Expect: H5 is NOT puttable
        }

        #[test]
        fn puttable_right_up_no_wraparound() {
            let board = Bitboard::new(xy_to_bit(4, 2), xy_to_bit(3, 3)); // Player:C5, Opponent:D4
            let turn = DiskColor::Dark;

            let result = get_puttable_positions(&board, turn);

            assert_eq!(result.0, xy_to_bit(2, 4)); // Expect: E3 is puttable
        }

        #[test]
        fn puttable_right_up_wraparound() {
            let board = Bitboard::new(xy_to_bit(4, 6), xy_to_bit(3, 7)); // Player:G5, Opponent:H4
            let turn = DiskColor::Dark;

            let result = get_puttable_positions(&board, turn); // A3 is empty

            assert_eq!(result.0 & xy_to_bit(2, 0), 0); // Expect: A3 is NOT puttable
        }

        #[test]
        fn puttable_left_up_no_wraparound() {
            let board = Bitboard::new(xy_to_bit(4, 4), xy_to_bit(3, 3)); // Player:E5, Opponent:D4
            let turn = DiskColor::Dark;

            let result = get_puttable_positions(&board, turn);

            assert_eq!(result.0, xy_to_bit(2, 2)); // Expect: C3 is puttable
        }

        #[test]
        fn puttable_left_up_wraparound() {
            let board = Bitboard::new(xy_to_bit(4, 1), xy_to_bit(3, 0)); // Player:B5, Opponent:A4
            let turn = DiskColor::Dark;

            let result = get_puttable_positions(&board, turn); // H3 is empty

            assert_eq!(result.0 & xy_to_bit(2, 7), 0); // Expect: H3 is NOT puttable
        }

    

        

        #[test]
        fn should_flip_one_stone_horizontally() {
            let board = Bitboard::default();
            let put_position = BitPosition(xy_to_bit(2, 3));
            let expected = xy_to_bit(3, 3);

            let result = get_flip_positions(&board, TURN, put_position);

            assert_eq!(result.0, expected);
        }

        #[test]
        fn should_flip_multiple_stones_diagonally() {
            let board = Bitboard::new(xy_to_bit(4, 4), xy_to_bit(2, 2) | xy_to_bit(3, 3));
            let put_position = BitPosition(xy_to_bit(1, 1));
            let expected = xy_to_bit(2, 2) | xy_to_bit(3, 3);

            let result = get_flip_positions(&board, TURN, put_position);

            assert_eq!(result.0, expected);
        }

        #[test]
        fn should_flip_stones_in_multiple_directions_simultaneously() {
            let board = Bitboard::new(
                xy_to_bit(0, 0) | xy_to_bit(0, 2),
                xy_to_bit(1, 1) | xy_to_bit(1, 2),
            );
            let put_position = BitPosition(xy_to_bit(2, 2));
            let expected = xy_to_bit(1, 1) | xy_to_bit(1, 2);

            let result = get_flip_positions(&board, TURN, put_position);

            assert_eq!(result.0, expected);
        }

        #[test]
        fn should_flip_no_stones_if_put_position_is_not_puttable() {
            let board = Bitboard::new(xy_to_bit(0, 0), xy_to_bit(1, 0));
            let put_position = BitPosition(xy_to_bit(3, 0));
            let expected = 0;

            let result = get_flip_positions(&board, TURN, put_position);

            assert_eq!(result.0, expected);
        }

        #[test]
        fn flip_right_no_wraparound() {
            let board = Bitboard::new(xy_to_bit(3, 2), xy_to_bit(3, 3)); // Player:C4, Opponent:D4

            let result = get_flip_positions(&board, TURN, BitPosition(xy_to_bit(3, 4))); // Put:E4

            assert_eq!(result.0, xy_to_bit(3, 3)); // Expect: D4
        }

        #[test]
        fn flip_right_wraparound() {
            let board = Bitboard::new(xy_to_bit(3, 6), xy_to_bit(3, 7)); // Player:G4, Opponent:H4

            let result = get_flip_positions(&board, TURN, BitPosition(xy_to_bit(4, 0))); // Put:A5

            assert_eq!(result.0, 0); // Expect: Nothing to flip
        }

        #[test]
        fn flip_left_no_wraparound() {
            let board = Bitboard::new(xy_to_bit(3, 4), xy_to_bit(3, 3)); // Player:E4, Opponent:D4

            let result = get_flip_positions(&board, TURN, BitPosition(xy_to_bit(3, 2))); // Put:C4

            assert_eq!(result.0, xy_to_bit(3, 3)); // Expect: D4
        }

        #[test]
        fn flip_left_wraparound() {
            let board = Bitboard::new(xy_to_bit(3, 1), xy_to_bit(3, 0)); // Player:B4, Opponent:A4

            let result = get_flip_positions(&board, TURN, BitPosition(xy_to_bit(2, 7))); // Put:H3

            assert_eq!(result.0, 0); // Expect: Nothing to flip
        }

        #[test]
        fn flip_down_no_wraparound() {
            let board = Bitboard::new(xy_to_bit(2, 3), xy_to_bit(3, 3)); // Player:D3, Opponent:D4

            let result = get_flip_positions(&board, TURN, BitPosition(xy_to_bit(4, 3))); // Put:D5

            assert_eq!(result.0, xy_to_bit(3, 3)); // Expect: D4
        }

        #[test]
        fn flip_down_edge_case() {
            let board = Bitboard::new(xy_to_bit(6, 3), xy_to_bit(7, 3)); // Player:D7, Opponent:D8

            let result = get_flip_positions(&board, TURN, BitPosition(xy_to_bit(0, 3))); // Put:D1

            assert_eq!(result.0, 0);
        }

        #[test]
        fn flip_up_no_wraparound() {
            let board = Bitboard::new(xy_to_bit(4, 3), xy_to_bit(3, 3)); // Player:D5, Opponent:D4

            let result = get_flip_positions(&board, TURN, BitPosition(xy_to_bit(2, 3))); // Put:D3

            assert_eq!(result.0, xy_to_bit(3, 3)); // Expect: D4
        }

        #[test]
        fn flip_up_edge_case() {
            let board = Bitboard::new(xy_to_bit(1, 3), xy_to_bit(0, 3)); // Player:D2, Opponent:D1

            let result = get_flip_positions(&board, TURN, BitPosition(xy_to_bit(7, 3))); // Put:D8

            assert_eq!(result.0, 0);
        }

        #[test]
        fn flip_right_down_no_wraparound() {
            let board = Bitboard::new(xy_to_bit(2, 2), xy_to_bit(3, 3)); // Player:C3, Opponent:D4

            let result = get_flip_positions(&board, TURN, BitPosition(xy_to_bit(4, 4))); // Put:E5

            assert_eq!(result.0, xy_to_bit(3, 3)); // Expect: D4
        }

        #[test]
        fn flip_right_down_wraparound() {
            let board = Bitboard::new(xy_to_bit(2, 6), xy_to_bit(3, 7)); // Player:G3, Opponent:H4

            let result = get_flip_positions(&board, TURN, BitPosition(xy_to_bit(4, 0))); // Put:A5

            assert_eq!(result.0, 0);
        }

        #[test]
        fn flip_left_down_no_wraparound() {
            let board = Bitboard::new(xy_to_bit(2, 4), xy_to_bit(3, 3)); // Player:E3, Opponent:D4

            let result = get_flip_positions(&board, TURN, BitPosition(xy_to_bit(4, 2))); // Put:C5

            assert_eq!(result.0, xy_to_bit(3, 3)); // Expect: D4
        }

        #[test]
        fn flip_left_down_wraparound() {
            let board = Bitboard::new(xy_to_bit(2, 1), xy_to_bit(3, 0)); // Player:B3, Opponent:A4

            let result = get_flip_positions(&board, TURN, BitPosition(xy_to_bit(4, 7))); // Put:H5

            assert_eq!(result.0, 0);
        }

        #[test]
        fn flip_right_up_no_wraparound() {
            let board = Bitboard::new(xy_to_bit(4, 2), xy_to_bit(3, 3)); // Player:C5, Opponent:D4

            let result = get_flip_positions(&board, TURN, BitPosition(xy_to_bit(2, 4))); // Put:E3

            assert_eq!(result.0, xy_to_bit(3, 3)); // Expect: D4
        }

        #[test]
        fn flip_right_up_wraparound() {
            let board = Bitboard::new(xy_to_bit(4, 6), xy_to_bit(3, 7)); // Player:G5, Opponent:H4

            let result = get_flip_positions(&board, TURN, BitPosition(xy_to_bit(2, 0))); // Put:A3

            assert_eq!(result.0, 0);
        }

        #[test]
        fn flip_left_up_no_wraparound() {
            let board = Bitboard::new(xy_to_bit(4, 4), xy_to_bit(3, 3)); // Player:E5, Opponent:D4

            let result = get_flip_positions(&board, TURN, BitPosition(xy_to_bit(2, 2))); // Put:C3

            assert_eq!(result.0, xy_to_bit(3, 3)); // Expect: D4
        }

        #[test]
        fn flip_left_up_wraparound() {
            let board = Bitboard::new(xy_to_bit(4, 1), xy_to_bit(3, 0)); // Player:B5, Opponent:A4

            let result = get_flip_positions(&board, TURN, BitPosition(xy_to_bit(2, 7))); // Put:H3

            assert_eq!(result.0, 0);
        }

    #[test]
    fn action_test_check_inputs() {
        // Put disk
        // Invalid position
        {
            // Not flipping any disk
            let table = Table::default();
            let action = Action::PutDisk(PutConfig::new(
                DiskColor::Dark,
                Position::new(Row::One, Column::A),
            ));
            assert!(action.check_inputs(&table).is_err());

            // The square is not empty
            let action = Action::PutDisk(PutConfig::new(
                DiskColor::Dark,
                Position::new(Row::Four, Column::E),
            ));
            assert!(action.check_inputs(&table).is_err());
        }
        // Invalid turn
        {
            // Dark's turn but light try to put
            let mut table = Table::default();
            let action = Action::PutDisk(PutConfig::new(
                DiskColor::Light,
                Position::new(Row::Four, Column::F),
            ));
            assert!(action.check_inputs(&table).is_err());

            // Light's turn but dark try to put
            let board = table.board();
            let mask = xy_to_bit(Row::Five as u8, Column::E as u8)
                | xy_to_bit(Row::Five as u8, Column::F as u8);
            let new_board = Bitboard::new(board.dark_plane() & !mask, board.light_plane() | mask);
            table.set_board(new_board);
            table.set_turn(DiskColor::Light);
            let action = Action::PutDisk(PutConfig::new(
                DiskColor::Dark,
                Position::new(Row::Four, Column::C),
            ));
            assert!(action.check_inputs(&table).is_err());
        }

        // Pass turn
        // Invalid turn
        {
            // Dark's turn but light try to pass
            let mut table = Table::default();
            let board = table.board();
            let mask = xy_to_bit(Row::Three as u8, Column::D as u8)
                | xy_to_bit(Row::Three as u8, Column::E as u8)
                | xy_to_bit(Row::Three as u8, Column::F as u8)
                | xy_to_bit(Row::Four as u8, Column::F as u8)
                | xy_to_bit(Row::Five as u8, Column::D as u8)
                | xy_to_bit(Row::Five as u8, Column::F as u8);
            let new_board = Bitboard::new(board.dark_plane() & !mask, board.light_plane() | mask);
            table.set_board(new_board);
            let action = Action::PassTurn(DiskColor::Light);
            assert!(action.check_inputs(&table).is_err());

            // Light's turn but dark try to pass
            let mut table = Table::default();
            table.set_turn(DiskColor::Light);
            let board = table.board();
            let mask = xy_to_bit(Row::Four as u8, Column::D as u8)
                | xy_to_bit(Row::Four as u8, Column::F as u8)
                | xy_to_bit(Row::Five as u8, Column::F as u8)
                | xy_to_bit(Row::Six as u8, Column::D as u8)
                | xy_to_bit(Row::Six as u8, Column::E as u8)
                | xy_to_bit(Row::Six as u8, Column::F as u8);
            let new_board = Bitboard::new(board.dark_plane() | mask, board.light_plane() & !mask);
            table.set_board(new_board);
            let action = Action::PassTurn(DiskColor::Dark);
            assert!(action.check_inputs(&table).is_err());
        }
        // Invalid pass
        {
            // Dark can put but try to pass
            let table = Table::default();
            let action = Action::PassTurn(DiskColor::Dark);
            assert!(action.check_inputs(&table).is_err());

            // Light can put but try to pass
            let mut table = Table::default();
            table.set_turn(DiskColor::Light);
            let board = table.board();
            let mask = xy_to_bit(Row::Five as u8, Column::E as u8)
                | xy_to_bit(Row::Five as u8, Column::F as u8);
            let new_board = Bitboard::new(board.dark_plane() | mask, board.light_plane() & !mask);
            table.set_board(new_board);
            let action = Action::PassTurn(DiskColor::Light);
            assert!(action.check_inputs(&table).is_err());
        }

        // Valid put
        {
            let table = Table::default();
            let action = Action::PutDisk(PutConfig::new(
                DiskColor::Dark,
                Position::new(Row::Four, Column::C),
            ));
            assert!(action.check_inputs(&table).is_ok());
        }
        // Valid pass
        {
            let mut table = Table::default();
            table.set_turn(DiskColor::Light);
            let board = table.board();
            let mask = xy_to_bit(Row::Three as u8, Column::D as u8)
                | xy_to_bit(Row::Three as u8, Column::E as u8)
                | xy_to_bit(Row::Three as u8, Column::F as u8)
                | xy_to_bit(Row::Four as u8, Column::F as u8)
                | xy_to_bit(Row::Five as u8, Column::D as u8)
                | xy_to_bit(Row::Five as u8, Column::F as u8);
            let new_board = Bitboard::new(board.dark_plane() & !mask, board.light_plane() | mask);
            table.set_board(new_board);
            let action = Action::PassTurn(DiskColor::Light);
            assert!(action.check_inputs(&table).is_ok());
        }
    }

    #[test]
    fn action_test_execute() {
        let mut table = Table::default();
        let mut expected_board: Bitboard;

        // Dark put
        {
            let action = Action::PutDisk(PutConfig::new(
                DiskColor::Dark,
                Position::new(Row::Four, Column::C),
            ));
            action.execute(&mut table).unwrap();
            let board = table.board();
            let mask = xy_to_bit(Row::Four as u8, Column::C as u8)
                | xy_to_bit(Row::Four as u8, Column::D as u8);
            expected_board = Bitboard::new(board.dark_plane() | mask, board.light_plane() & !mask);
            assert_eq!(*board, expected_board);
            assert_eq!(table.turn(), DiskColor::Light);
        }

        // Light put
        {
            let action = Action::PutDisk(PutConfig::new(
                DiskColor::Light,
                Position::new(Row::Three, Column::C),
            ));
            action.execute(&mut table).unwrap();
            let board = table.board();
            let mask = xy_to_bit(Row::Three as u8, Column::C as u8)
                | xy_to_bit(Row::Four as u8, Column::D as u8);
            expected_board = Bitboard::new(board.dark_plane() & !mask, board.light_plane() | mask);
            assert_eq!(*board, expected_board);
            assert_eq!(table.turn(), DiskColor::Dark);
        }

        // Dark put
        {
            let action = Action::PutDisk(PutConfig::new(
                DiskColor::Dark,
                Position::new(Row::Two, Column::C),
            ));
            action.execute(&mut table).unwrap();
            let board = table.board();
            let mask = xy_to_bit(Row::Two as u8, Column::C as u8)
                | xy_to_bit(Row::Three as u8, Column::C as u8);
            expected_board = Bitboard::new(board.dark_plane() | mask, board.light_plane() & !mask);
            assert_eq!(*board, expected_board);
            assert_eq!(table.turn(), DiskColor::Light);
        }

        // Light put
        {
            let action = Action::PutDisk(PutConfig::new(
                DiskColor::Light,
                Position::new(Row::Two, Column::B),
            ));
            action.execute(&mut table).unwrap();
            let board = table.board();
            let mask = xy_to_bit(Row::Two as u8, Column::B as u8)
                | xy_to_bit(Row::Three as u8, Column::C as u8);
            expected_board = Bitboard::new(board.dark_plane() & !mask, board.light_plane() | mask);
            assert_eq!(*board, expected_board);
            assert_eq!(table.turn(), DiskColor::Dark);
        }

        // Dark put
        {
            let action = Action::PutDisk(PutConfig::new(
                DiskColor::Dark,
                Position::new(Row::Six, Column::E),
            ));
            action.execute(&mut table).unwrap();
            let board = table.board();
            let mask = xy_to_bit(Row::Six as u8, Column::E as u8)
                | xy_to_bit(Row::Five as u8, Column::E as u8);
            expected_board = Bitboard::new(board.dark_plane() | mask, board.light_plane() & !mask);
            assert_eq!(*board, expected_board);
            assert_eq!(table.turn(), DiskColor::Light);
        }

        // Light put
        {
            let action = Action::PutDisk(PutConfig::new(
                DiskColor::Light,
                Position::new(Row::One, Column::C),
            ));
            action.execute(&mut table).unwrap();
            let board = table.board();
            let mask = xy_to_bit(Row::One as u8, Column::C as u8)
                | xy_to_bit(Row::Two as u8, Column::C as u8);
            expected_board = Bitboard::new(board.dark_plane() & !mask, board.light_plane() | mask);
            assert_eq!(*board, expected_board);
            assert_eq!(table.turn(), DiskColor::Dark);
        }

        // Dark put
        {
            let action = Action::PutDisk(PutConfig::new(
                DiskColor::Dark,
                Position::new(Row::One, Column::A),
            ));
            action.execute(&mut table).unwrap();
            let board = table.board();
            let mask = xy_to_bit(Row::One as u8, Column::A as u8)
                | xy_to_bit(Row::Two as u8, Column::B as u8)
                | xy_to_bit(Row::Three as u8, Column::C as u8)
                | xy_to_bit(Row::Four as u8, Column::D as u8);
            expected_board = Bitboard::new(board.dark_plane() | mask, board.light_plane() & !mask);
            assert_eq!(*board, expected_board);
            assert_eq!(table.turn(), DiskColor::Light);
        }

        // Light put
        {
            let action = Action::PutDisk(PutConfig::new(
                DiskColor::Light,
                Position::new(Row::Three, Column::A),
            ));
            action.execute(&mut table).unwrap();
            let board = table.board();
            let mask = xy_to_bit(Row::Three as u8, Column::A as u8)
                | xy_to_bit(Row::Two as u8, Column::B as u8);
            expected_board = Bitboard::new(board.dark_plane() & !mask, board.light_plane() | mask);
            assert_eq!(*board, expected_board);
            assert_eq!(table.turn(), DiskColor::Dark);
        }

        // Dark pass
        {
            let action = Action::PassTurn(DiskColor::Dark);
            action.execute(&mut table).unwrap();
            let board = table.board();
            assert_eq!(*board, expected_board);
            assert_eq!(table.turn(), DiskColor::Light);
        }

        // Light put
        {
            let action = Action::PutDisk(PutConfig::new(
                DiskColor::Light,
                Position::new(Row::Five, Column::C),
            ));
            action.execute(&mut table).unwrap();
            let board = table.board();
            let mask = xy_to_bit(Row::Five as u8, Column::C as u8)
                | xy_to_bit(Row::Four as u8, Column::C as u8)
                | xy_to_bit(Row::Three as u8, Column::C as u8);
            expected_board = Bitboard::new(board.dark_plane() & !mask, board.light_plane() | mask);
            assert_eq!(*board, expected_board);
            assert_eq!(table.turn(), DiskColor::Dark);
        }
    }
