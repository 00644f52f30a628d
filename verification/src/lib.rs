//! Rules engine for a turn-based, multi-die scoring game in the Yahtzee
//! family.
//!
//! The engine is split into the scoring categories and the score-sheet
//! updater (`rules`), the deterministic game state machine (`game`), the
//! dice roller (`dice`), and the error kinds shared by all of them
//! (`errors`); `sums` and `decimal` hold the arithmetic vocabulary the
//! contracts are written in.  Commands are validated by `Game::prepare`,
//! which mutates nothing and returns the events the game would answer with;
//! `Game::commit` applies one event and is the only operation that changes
//! state, so that a game can be rebuilt exactly by replaying its event log.

pub mod decimal;
pub mod dice;
pub mod errors;
pub mod game;
pub mod rules;
pub mod sums;
