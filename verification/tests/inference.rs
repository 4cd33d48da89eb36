use reversi::environment::ReversiEnvironment;
use reversi::inference::build_input_tensor;
use reversi::state::State;
use reversi::table::Table;
use reversi::{Bitboard, DiskColor};

#[test]
fn input_tensor_of_the_first_position() {
    let input = build_input_tensor(&[State::new(Bitboard::default(), DiskColor::Dark)]);
    assert_eq!(input.len(), 256);
    // Dark on E4 and D5, light on D4 and E5.
    let dark: Vec<usize> = (0..64).filter(|&i| input[i] == 1).collect();
    let light: Vec<usize> = (0..64).filter(|&i| input[64 + i] == 1).collect();
    assert_eq!(dark, vec![28, 35]);
    assert_eq!(light, vec![27, 36]);
    assert!(input[128..192].iter().all(|&v| v == 1));
    let legal: Vec<usize> = (0..64).filter(|&i| input[192 + i] == 1).collect();
    assert_eq!(legal, vec![19, 26, 37, 44]);
    assert_eq!(input, ReversiEnvironment::get_state_vec(&vec![Table::default()]));
}

#[test]
fn input_tensor_of_a_batch() {
    let states = [
        State::new(Bitboard::default(), DiskColor::Dark),
        State::new(Bitboard::default(), DiskColor::Light),
    ];
    let input = build_input_tensor(&states);
    assert_eq!(input.len(), 512);
    assert!(input[256 + 128..256 + 192].iter().all(|&v| v == -1));
    let legal: Vec<usize> = (0..64).filter(|&i| input[256 + 192 + i] == 1).collect();
    assert_eq!(legal, vec![20, 29, 34, 43]);
    assert!(build_input_tensor(&[]).is_empty());
}
