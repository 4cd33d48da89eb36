use reversi::game_state::State;
use reversi::{Bitboard, DiskColor, DiskColorExt};

#[test]
fn state_test_disk_color() {
    assert_eq!(DiskColor::Dark.opposite(), DiskColor::Light);
    assert_eq!(DiskColor::Light.opposite(), DiskColor::Dark);
}

#[test]
fn state_test_new() {
    let state = State::new(Bitboard::default(), DiskColor::Dark);
    assert_eq!(*state.board(), Bitboard::default());
    assert_eq!(state.turn(), DiskColor::Dark);
}

#[test]
fn legal_actions_at_start() {
    let state = State::new(Bitboard::default(), DiskColor::Dark);
    // D3, C4, F5, E6
    assert_eq!(state.legal_actions(), vec![19, 26, 37, 44]);
    assert!(!state.is_terminal());
    let old_state = reversi::state::State::new(Bitboard::default(), DiskColor::Light);
    assert_eq!(old_state.legal_actions(), vec![20, 29, 34, 43]);
    assert!(!old_state.is_terminal());
}

#[test]
fn apply_puts_and_passes_to_next_player() {
    let state = State::new(Bitboard::default(), DiskColor::Dark);
    let next = state.apply(19); // D3 flips D4
    assert_eq!(next.turn(), DiskColor::Light);
    assert_eq!(next.board().dark_plane(), 0x0000_0018_1000_0000 | (1u64 << (63 - 19)));
    assert_eq!(next.board().light_plane(), 0x0000_0000_0800_0000);
}

#[test]
fn apply_skips_player_without_moves() {
    // Dark A1, Light B1; dark puts C1 and takes B1: light has no disk left.
    let board = Bitboard::new(1u64 << 63, 1u64 << 62);
    let state = State::new(board, DiskColor::Dark);
    let next = state.apply(2);
    assert_eq!(next.board().dark_plane(), (1u64 << 63) | (1u64 << 62) | (1u64 << 61));
    assert_eq!(next.board().light_plane(), 0);
    // Light passes automatically, so it is dark's turn again.
    assert_eq!(next.turn(), DiskColor::Dark);
    assert!(next.is_terminal());
}

#[test]
fn old_apply_ignores_refused_put() {
    let state = reversi::state::State::new(Bitboard::default(), DiskColor::Dark);
    let same = state.apply(0);
    assert_eq!(same, state);
    let board = Bitboard::new(1u64 << 63, 1u64 << 62);
    let next = reversi::state::State::new(board, DiskColor::Dark).apply(2);
    assert_eq!(next.turn(), DiskColor::Light);
    assert!(next.is_terminal());
}

#[test]
fn terminal_value_from_the_movers_side() {
    let start = State::new(Bitboard::default(), DiskColor::Dark);
    assert_eq!(start.terminal_value(), Err(String::from("State is not terminal")));
    // Three dark disks and no light disk: nobody can move.
    let board = Bitboard::new((1u64 << 63) | (1u64 << 62) | (1u64 << 61), 0);
    assert_eq!(State::new(board, DiskColor::Dark).terminal_value(), Ok(1));
    assert_eq!(State::new(board, DiskColor::Light).terminal_value(), Ok(-1));
    let even = Bitboard::new(1u64 << 63, 1u64);
    assert_eq!(State::new(even, DiskColor::Light).terminal_value(), Ok(0));
}

#[test]
fn first_state_is_terminal_only_when_nobody_can_move() {
    // Dark on B1, light on A1: dark cannot move, light can play C1.
    let state = reversi::state::State::new(Bitboard::new(1u64 << 62, 1u64 << 63), DiskColor::Dark);
    assert!(!state.is_terminal());
    let over = reversi::state::State::new(Bitboard::new(1u64 << 63, 1u64), DiskColor::Dark);
    assert!(over.is_terminal());
}

#[test]
fn first_search_state_test_new() {
    let state = reversi::state::State::new(Bitboard::default(), DiskColor::Dark);
    assert_eq!(*state.board(), Bitboard::default());
    assert_eq!(state.turn(), DiskColor::Dark);
}
