//! Player information: stock holdings and cash.
use crate::util::{add_i64_saturating, clamp_i64, mul_i64_saturating, narrow_i64};
use vstd::prelude::*;

verus! {

/// Cash of a player at the start of a classic game.
pub const DEFAULT_CASH: i64 = 6000;

/// Player information.
#[derive(Debug)]
pub struct Player {
    /// Cash on hand. Signed, so that a game may allow debt.
    cash: i64,
    /// Holdings indexed by company number; the vector grows on demand. A holding
    /// can turn negative, as it could in the classic game.
    holdings: Vec<i64>,
    /// The cash a player starts the game with.
    starting_cash: i64,
}

/// The abstract state of a player.
pub struct PlayerView {
    /// Cash on hand.
    pub cash: i64,
    /// The cash the player starts a game with.
    pub starting_cash: i64,
    /// Holdings by company index; missing entries are zero.
    pub holdings: Seq<i64>,
}

impl PlayerView {
    /// Shares held in company `i`; zero for a company never traded.
    pub open spec fn holding(self, i: int) -> i64 {
        if 0 <= i < self.holdings.len() {
            self.holdings[i]
        } else {
            0
        }
    }

    /// `other` holds the same as `self` in every company but `i`, where it holds `h`,
    /// and has the same cash.
    pub open spec fn with_holding(self, other: PlayerView, i: int, h: i64) -> bool {
        &&& other.cash == self.cash
        &&& other.starting_cash == self.starting_cash
        &&& forall|j: int| #[trigger] other.holding(j) == if j == i {
            h
        } else {
            self.holding(j)
        }
    }
}

impl View for Player {
    type V = PlayerView;

    closed spec fn view(&self) -> PlayerView {
        PlayerView { cash: self.cash, starting_cash: self.starting_cash, holdings: self.holdings@ }
    }
}

impl Player {
    /// Construct a new player with the classic starting cash.
    pub fn new() -> (p: Self)
        ensures
            p@.cash == DEFAULT_CASH,
            p@.starting_cash == DEFAULT_CASH,
            forall|i: int| #[trigger] p@.holding(i) == 0,
    {
        Self::new_with_params(DEFAULT_CASH)
    }

    /// Construct a new player with the given starting cash.
    pub fn new_with_params(starting_cash: i64) -> (p: Self)
        ensures
            p@.cash == starting_cash,
            p@.starting_cash == starting_cash,
            forall|i: int| #[trigger] p@.holding(i) == 0,
    {
        Player { holdings: Vec::new(), cash: starting_cash, starting_cash }
    }

    /// Reset a player to starting conditions.
    pub fn reset(&mut self)
        ensures
            final(self)@.cash == old(self)@.starting_cash,
            final(self)@.starting_cash == old(self)@.starting_cash,
            forall|i: int| #[trigger] final(self)@.holding(i) == 0,
    {
        self.holdings.clear();
        self.cash = self.starting_cash;
    }

    /// Return holdings in a particular company.
    pub fn get_holdings(&self, company_idx: usize) -> (h: i64)
        ensures
            h == self@.holding(company_idx as int),
    {
        if company_idx < self.holdings.len() {
            self.holdings[company_idx]
        } else {
            0
        }
    }

    /// Grow the holdings vector to cover `company_idx`, with zeros.
    fn grow_holdings_vec(&mut self, company_idx: usize)
        requires
            company_idx < usize::MAX,
        ensures
            final(self)@.cash == old(self)@.cash,
            final(self)@.starting_cash == old(self)@.starting_cash,
            company_idx < final(self)@.holdings.len(),
            forall|i: int| #[trigger] final(self)@.holding(i) == old(self)@.holding(i),
    {
        let required_size = company_idx + 1;
        while self.holdings.len() < required_size
            invariant
                self.cash == old(self).cash,
                self.starting_cash == old(self).starting_cash,
                required_size == company_idx + 1,
                self.holdings@.len() >= old(self).holdings@.len(),
                forall|k: int|
                    0 <= k < self.holdings@.len() ==> #[trigger] self.holdings@[k] == if k < old(
                        self,
                    ).holdings@.len() {
                        old(self).holdings@[k]
                    } else {
                        0
                    },
            decreases required_size - self.holdings@.len(),
        {
            self.holdings.push(0);
        }
    }

    /// Store `v` as the holdings in company `company_idx`.
    fn store_holding(&mut self, company_idx: usize, v: i64)
        requires
            company_idx < usize::MAX,
        ensures
            old(self)@.with_holding(final(self)@, company_idx as int, v),
    {
        self.grow_holdings_vec(company_idx);
        let ghost grown = self@;
        self.holdings.set(company_idx, v);
        assert forall|j: int| #[trigger] self@.holding(j) == if j == company_idx {
            v
        } else {
            old(self)@.holding(j)
        } by {
            assert(grown.holding(j) == old(self)@.holding(j));
        }
    }

    /// Set player holdings in a particular company.
    pub fn set_holdings(&mut self, company_idx: usize, holdings: i64)
        requires
            company_idx < usize::MAX,
        ensures
            old(self)@.with_holding(final(self)@, company_idx as int, holdings),
    {
        self.store_holding(company_idx, holdings);
    }

    /// Add to player holdings in a particular company, saturating.
    pub fn add_holdings(&mut self, company_idx: usize, delta: u64)
        requires
            company_idx < usize::MAX,
        ensures
            old(self)@.with_holding(
                final(self)@,
                company_idx as int,
                clamp_i64(old(self)@.holding(company_idx as int) + delta),
            ),
    {
        let h = self.get_holdings(company_idx);
        let v = narrow_i64(h as i128 + delta as i128);
        self.store_holding(company_idx, v);
    }

    /// Change player holdings in a particular company by a signed amount, saturating.
    pub fn add_holdings_signed(&mut self, company_idx: usize, delta: i64)
        requires
            company_idx < usize::MAX,
        ensures
            old(self)@.with_holding(
                final(self)@,
                company_idx as int,
                clamp_i64(old(self)@.holding(company_idx as int) + delta),
            ),
    {
        let h = self.get_holdings(company_idx);
        self.store_holding(company_idx, add_i64_saturating(h, delta));
    }

    /// Multiply player holdings in a particular company by some factor, saturating.
    pub fn mul_holdings(&mut self, company_idx: usize, factor: i64)
        requires
            company_idx < usize::MAX,
        ensures
            old(self)@.with_holding(
                final(self)@,
                company_idx as int,
                clamp_i64(old(self)@.holding(company_idx as int) * factor),
            ),
    {
        let h = self.get_holdings(company_idx);
        self.store_holding(company_idx, mul_i64_saturating(h, factor));
    }

    /// Return player cash.
    pub fn get_cash(&self) -> (c: i64)
        ensures
            c == self@.cash,
    {
        self.cash
    }

    /// Set player cash.
    pub fn set_cash(&mut self, cash: i64)
        ensures
            final(self)@ == (PlayerView { cash, ..old(self)@ }),
    {
        self.cash = cash;
    }

    /// Add to player cash, saturating; returns the new cash.
    pub fn add_cash(&mut self, delta: i64) -> (c: i64)
        ensures
            c == clamp_i64(old(self)@.cash + delta),
            final(self)@ == (PlayerView { cash: c, ..old(self)@ }),
    {
        self.cash = add_i64_saturating(self.cash, delta);
        self.cash
    }
}

impl Default for Player {
    fn default() -> (p: Self)
        ensures
            p@.cash == DEFAULT_CASH,
            p@.starting_cash == DEFAULT_CASH,
            forall|i: int| #[trigger] p@.holding(i) == 0,
    {
        Self::new()
    }
}

} // verus!
