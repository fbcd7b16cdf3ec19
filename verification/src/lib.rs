//! A single-player tic-tac-toe engine: a human marks cells of a 3x3 board
//! against an opponent that picks uniformly at random among the empty cells.
//!
//! The engine is a state machine over a [`game::Game`]; reading lines and
//! printing the board are left to the caller.

pub mod board;
pub mod cell_list;
pub mod detector;
pub mod game;
pub mod render;
pub mod selector;
pub mod validator;
