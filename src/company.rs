//! A company.
use vstd::prelude::*;

verus! {

/// Share price of a company slot that has never been formed.
pub const INITIAL_SHARE_PRICE: u64 = 100;

/// One slot of the company roster.
#[derive(Debug, Clone, Copy, PartialEq, Eq, Structural)]
pub struct Company {
    /// True if the company is currently in play.
    pub in_use: bool,
    /// The size of the company on the game board.
    pub size: u64,
    /// The price per share of the company.
    pub share_price: u64,
}

impl Company {
    /// Constructs a new company slot, not in play.
    pub fn new() -> (c: Self)
        ensures
            c == (Company { in_use: false, size: 0, share_price: INITIAL_SHARE_PRICE }),
    {
        Company { in_use: false, size: 0, share_price: INITIAL_SHARE_PRICE }
    }
}

impl Default for Company {
    fn default() -> (c: Self)
        ensures
            c == (Company { in_use: false, size: 0, share_price: INITIAL_SHARE_PRICE }),
    {
        Self::new()
    }
}

} // verus!
