//! The error kinds a command or a score-sheet update can be rejected with.
//!
//! Every rejection is returned synchronously and leaves all state untouched.

use vstd::prelude::*;

verus! {

/// Why a player action was rejected.
#[derive(Clone, Debug, PartialEq)]
pub enum InvalidAction {
    /// The command's player is not the player in turn (joining during
    /// `Start` is exempt from turn order).
    NotYourTurn,
    /// The command is not legal in the current machine state.
    WrongState,
    /// A referenced die index or scoring row index does not exist.
    OutOfBounds,
    /// The selected score-sheet slot is already filled and the Yahtzee
    /// accumulation exception does not apply.
    AlreadyOccupied,
    /// The bonus row cannot be selected directly.
    NotSelectable,
}

impl InvalidAction {
    /// A short human-readable description of the error.
    pub fn message(&self) -> (r: &'static str)
        ensures
            r@ == self.message_spec(),
    {
        match self {
            InvalidAction::NotYourTurn => "not your turn",
            InvalidAction::WrongState => "cannot perform this action in this state",
            InvalidAction::OutOfBounds => "out of bounds",
            InvalidAction::AlreadyOccupied => "the selected scoring row is already occupied",
            InvalidAction::NotSelectable => "the bonus row is not selectable",
        }
    }

    /// The description `message` returns, as a sequence of characters.
    pub open spec fn message_spec(&self) -> Seq<char> {
        match self {
            InvalidAction::NotYourTurn => "not your turn"@,
            InvalidAction::WrongState => "cannot perform this action in this state"@,
            InvalidAction::OutOfBounds => "out of bounds"@,
            InvalidAction::AlreadyOccupied => "the selected scoring row is already occupied"@,
            InvalidAction::NotSelectable => "the bonus row is not selectable"@,
        }
    }
}

} // verus!
