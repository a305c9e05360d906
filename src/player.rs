//! The two player identities.
use vstd::prelude::*;

verus! {

/// One of the two players.
#[derive(Clone, Copy, Debug, PartialEq, Eq, Structural)]
pub enum Player {
    Player1,
    Player2,
}

impl Player {
    /// The other player.
    pub open spec fn other(self) -> Player {
        match self {
            Player::Player1 => Player::Player2,
            Player::Player2 => Player::Player1,
        }
    }

    /// The other player.
    pub fn opponent(self) -> (r: Player)
        ensures
            r == self.other(),
            r != self,
            r.other() == self,
    {
        match self {
            Player::Player1 => Player::Player2,
            Player::Player2 => Player::Player1,
        }
    }
}

} // verus!
