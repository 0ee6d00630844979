//! A verified tic-tac-toe engine: the board, win and draw detection, the
//! numbering of free cells shown to players, a minimax opponent and the turn
//! state machine that drives a game.
use vstd::prelude::*;

pub mod actions;
pub mod codes;
pub mod computer;
pub mod config;
pub mod game;
pub mod records;

use codes::ResultCode;

verus! {

/// What a command reports when it succeeds.
#[derive(Debug)]
pub struct Output {
    pub message: Option<String>,
    pub code: ResultCode,
}

/// What a command reports when it fails.
#[derive(Debug)]
pub struct Failure {
    pub message: String,
    pub trace: String,
    pub code: ResultCode,
}

pub type AppResult<T> = Result<T, Failure>;

} // verus!
