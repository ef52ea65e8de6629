//! Rules engine for Congkak, a two-row relay-sowing mancala variant.
//!
//! The board is a ring of 16 slots: pits 0-6 belong to player 0, pits 7-13
//! to player 1, slot 14 is player 0's store and slot 15 player 1's store.
//! The engine computes legal moves, applies sequential and simultaneous
//! moves (relay sowing with captures, forfeits and extra turns), detects
//! terminal positions, scores finished games, and drives seeded random
//! playouts and perft node counting.

pub mod board;
pub mod moves;
pub mod ring;
pub mod rules;
pub mod sim;
pub mod simulation;
pub mod sums;
