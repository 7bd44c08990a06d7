use vstd::prelude::*;

verus! {

/// One of the two sides of the game.
#[derive(Clone, Copy, Debug, PartialEq, Eq, Structural)]
pub enum Player {
    Black,
    White,
}

impl Player {
    /// The side that is not `self`.
    pub open spec fn opponent(self) -> Player {
        match self {
            Player::Black => Player::White,
            Player::White => Player::Black,
        }
    }

    /// The display name of the side.
    pub open spec fn spec_name(self) -> Seq<char> {
        match self {
            Player::Black => "Black"@,
            Player::White => "White"@,
        }
    }

    /// The other side.
    pub fn other(self) -> (res: Player)
        ensures
            res == self.opponent(),
            res != self,
    {
        match self {
            Player::Black => Player::White,
            Player::White => Player::Black,
        }
    }

    /// The display name of the side: "Black" or "White".
    pub fn name(self) -> (res: &'static str)
        ensures
            res@ == self.spec_name(),
    {
        match self {
            Player::Black => "Black",
            Player::White => "White",
        }
    }
}

/// Taking the other side twice gives back the side one started from.
pub proof fn lemma_other_involution(p: Player)
    ensures
        p.opponent().opponent() == p,
        p.opponent() != p,
{
}

} // verus!
