//! Reversi (Othello) game logic on bitboards, with its rules proved: which
//! squares a player may put a disk on, which disks a move flips, how a game
//! is stepped, ended and judged, and the pure parts of the services built on
//! it (the game server, the gateway, the tree search and the learning
//! environment).
pub mod action;
pub mod arena;
pub mod bits;
pub mod board;
pub mod connection;
pub mod controller;
pub mod disk;
pub mod environment;
pub mod game_state;
pub mod inference;
pub mod gateway;
pub mod judge;
pub mod laws;
pub mod message;
pub mod messages;
pub mod node;
pub mod position;
pub mod rules;
pub mod search;
pub mod server;
pub mod session;
pub mod state;
pub mod table;
pub mod tree;

pub use crate::action::{Action, PutConfig};
pub use crate::board::{Bitboard, BoardExt};
pub use crate::controller::{Controller, StepResult};
pub use crate::disk::{DiskColor, DiskColorExt};
pub use crate::judge::{JudgeResult, Winner};
pub use crate::message::{StateResponseMessage, StepRequestMessage};
pub use crate::position::{BitPosition, Column, Position, Row};
pub use crate::rules::{
    flip_disks, get_flip_positions, get_puttable_positions, place_disk, ActionExt, FlipPositions,
    PuttablePositions,
};
pub use crate::table::Table;
