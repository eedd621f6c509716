//! The two ways an order can go.

use vstd::prelude::*;

verus! {

/// Which way an order goes.
#[derive(Clone, Copy, Debug, PartialEq, Eq, Structural)]
pub enum Side {
    Buy,
    Sell,
}

impl Side {
    /// The word of the exchange for the side.
    pub open spec fn word(self) -> Seq<char> {
        match self {
            Side::Buy => "BUY"@,
            Side::Sell => "SELL"@,
        }
    }

    /// The other side.
    pub open spec fn other(self) -> Side {
        match self {
            Side::Buy => Side::Sell,
            Side::Sell => Side::Buy,
        }
    }

    /// The word of the exchange for the side.
    pub fn text(&self) -> (r: &'static str)
        ensures
            r@ == self.word(),
    {
        match self {
            Side::Buy => "BUY",
            Side::Sell => "SELL",
        }
    }
}

/// The side of the order that closes a position: a long one is sold, any other bought back.
pub open spec fn closing_side_spec(long: bool) -> Side {
    if long { Side::Sell } else { Side::Buy }
}

/// The side of the order that closes a position.
#[verifier::when_used_as_spec(closing_side_spec)]
pub fn closing_side(long: bool) -> (r: Side)
    ensures
        r == closing_side_spec(long),
{
    if long { Side::Sell } else { Side::Buy }
}

/// A long position is closed with a sale, any other with a purchase; and the other side of a side is not itself.
pub proof fn sides_are_opposite(side: Side, long: bool)
    ensures
        side.other() != side,
        side.other().other() == side,
        long ==> closing_side(long) == Side::Sell,
        !long ==> closing_side(long) == Side::Buy,
        Side::Buy.word() == "BUY"@,
        Side::Sell.word() == "SELL"@,
{
}

} // verus!
