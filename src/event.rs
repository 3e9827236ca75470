//! The outcomes of a move, returned by `StarLanes::make_move` for the driver to narrate.
use vstd::prelude::*;

verus! {

/// A dividend paid to the current player.
#[derive(Debug, Clone, Copy, PartialEq, Eq, Structural)]
pub struct Dividend {
    /// The company the dividend is from.
    pub company: usize,
    /// The amount of the dividend.
    pub amount: i64,
}

/// The outcome of a merge for one player.
#[derive(Debug, Clone, Copy, PartialEq, Eq, Structural)]
pub struct MergeInfo {
    /// The stock held in the absorbed company.
    pub old_stock: i64,
    /// The old stock converted to stock of the surviving company.
    pub new_stock: i64,
    /// Cash bonus paid out.
    pub bonus_paid: i64,
}

/// One outcome of a move.
#[derive(Debug)]
pub enum Event {
    /// A company was formed; the field is its index.
    CompanyFormed(usize),
    /// Dividends paid to the current player, one per active company.
    Dividends(Vec<Dividend>),
    /// The stock of a company split. Fields: company index, split factor.
    Split(usize, i64),
    /// Companies merged. Fields: surviving company, absorbed company, and the
    /// outcome for each player in player order.
    Merge(usize, usize, Vec<MergeInfo>),
}

} // verus!
