//! The economic rules of the game: stock splits, dividends, merge payouts and the
//! choice of the surviving company, on plain values.
use crate::util::{clamp_i64, narrow_i64};
use vstd::prelude::*;

verus! {

/// Turns in a classic game.
pub const DEFAULT_MAX_TURNS: usize = 48;

/// Size of the company roster.
pub const DEFAULT_MAX_COMPANY_COUNT: usize = 5;

/// Candidate moves offered each turn.
pub const DEFAULT_CANDIDATE_MOVE_COUNT: usize = 5;

/// Share price gained for each star next to a new company cell.
pub const DEFAULT_STAR_PRICE_BOOST: u64 = 500;

/// Share price gained for each new company cell; also a new company's price.
pub const DEFAULT_GROWTH_PRICE_BOOST: u64 = 100;

/// Share price gained for each outpost absorbed.
pub const DEFAULT_OUTPOST_PRICE_BOOST: u64 = 100;

/// A share price above this splits.
pub const DEFAULT_STOCK_SPLIT_LIMIT: u64 = 3000;

/// Stock splits this many for one.
pub const DEFAULT_STOCK_SPLIT_FACTOR: i64 = 2;

/// Dividend paid each move, in percent of the market value of a holding.
pub const DEFAULT_DIVIDEND_PERCENTAGE: i128 = 5;

/// Shares granted to the founder of a company.
pub const DEFAULT_FOUNDER_SHARES: i64 = 5;

/// Shares of an absorbed company exchanged for one share of the survivor.
pub const DEFAULT_MERGE_SHARE_CONVERSION: i64 = 2;

/// Merge bonus factor on the absorbed company's share price.
pub const DEFAULT_MERGE_BONUS_FACTOR: i64 = 10;

/// Number of halvings that bring `price` to the split limit or below.
pub open spec fn split_count(price: nat) -> nat
    decreases price,
{
    if price > DEFAULT_STOCK_SPLIT_LIMIT {
        1 + split_count(price / 2)
    } else {
        0
    }
}

/// The share price after all the splits that `price` calls for.
pub open spec fn split_price(price: nat) -> nat
    decreases price,
{
    if price > DEFAULT_STOCK_SPLIT_LIMIT {
        split_price(price / 2)
    } else {
        price
    }
}

/// A holding after `n` splits: doubled `n` times, saturating.
pub open spec fn doubled(h: i64, n: nat) -> i64
    decreases n,
{
    if n == 0 {
        h
    } else {
        clamp_i64(doubled(h, (n - 1) as nat) * DEFAULT_STOCK_SPLIT_FACTOR)
    }
}

/// `x / d` rounded to the nearest integer, halves away from zero (`d > 0`).
pub open spec fn round_div(x: int, d: int) -> int {
    if x >= 0 {
        (2 * x + d) / (2 * d)
    } else {
        -((-2 * x + d) / (2 * d))
    }
}

/// `a / b` rounded towards zero, as Rust's integer division does (`b != 0`).
pub open spec fn trunc_div(a: int, b: int) -> int {
    let q = (if a < 0 {
        -a
    } else {
        a
    }) / (if b < 0 {
        -b
    } else {
        b
    });
    if (a < 0) != (b < 0) {
        -q
    } else {
        q
    }
}

/// The dividend on `holding` shares at `price`: the dividend percentage of
/// their market value, rounded to the nearest integer.
pub open spec fn dividend(price: u64, holding: i64) -> i64 {
    clamp_i64(round_div(price * holding * DEFAULT_DIVIDEND_PERCENTAGE, 100))
}

/// Survivor shares for `old_stock` shares of an absorbed company, rounded to
/// the nearest integer.
pub open spec fn merge_new_stock(old_stock: i64) -> i64 {
    trunc_div(
        old_stock + DEFAULT_MERGE_SHARE_CONVERSION / 2,
        DEFAULT_MERGE_SHARE_CONVERSION as int,
    ) as i64
}

/// Cash bonus for holding `held` of the `total` outstanding shares of an
/// absorbed company at `price`.
pub open spec fn merge_bonus(price: u64, held: i64, total: int) -> i64 {
    clamp_i64(trunc_div(DEFAULT_MERGE_BONUS_FACTOR * price * held, total))
}

/// Index of the first strictly largest size, scanning in order from a running
/// maximum of 0; -1 when no size is above 0.
pub open spec fn largest_first(sizes: Seq<u64>) -> int
    decreases sizes.len(),
{
    if sizes.len() == 0 {
        -1
    } else {
        let k = largest_first(sizes.drop_last());
        let best: u64 = if k < 0 {
            0
        } else {
            sizes[k]
        };
        if sizes.last() > best {
            sizes.len() - 1
        } else {
            k
        }
    }
}

/// Splitting leaves a positive price at or below the limit; a price at or below
/// the limit does not split; and a price above twice the limit plus one splits at
/// least twice.
pub proof fn lemma_split(price: nat)
    ensures
        split_price(price) <= DEFAULT_STOCK_SPLIT_LIMIT,
        price > 0 ==> split_price(price) > 0,
        price <= DEFAULT_STOCK_SPLIT_LIMIT ==> split_count(price) == 0 && split_price(price)
            == price,
        price > 2 * DEFAULT_STOCK_SPLIT_LIMIT + 1 ==> split_count(price) >= 2,
    decreases price,
{
    if price > DEFAULT_STOCK_SPLIT_LIMIT {
        lemma_split(price / 2);
        if price > 2 * DEFAULT_STOCK_SPLIT_LIMIT + 1 {
            assert(split_count(price / 2) == 1 + split_count(price / 2 / 2));
        }
    }
}

/// The chosen survivor among sizes that are all positive is a largest one, and
/// every size before it is strictly smaller: the first maximal size wins.
pub proof fn lemma_largest_first(sizes: Seq<u64>)
    requires
        sizes.len() > 0,
        forall|i: int| 0 <= i < sizes.len() ==> sizes[i] > 0,
    ensures
        0 <= largest_first(sizes) < sizes.len(),
        forall|i: int| 0 <= i < sizes.len() ==> #[trigger] sizes[i] <= sizes[largest_first(sizes)],
        forall|i: int| 0 <= i < largest_first(sizes) ==> #[trigger] sizes[i] < sizes[largest_first(sizes)],
    decreases sizes.len(),
{
    let pre = sizes.drop_last();
    let n = sizes.len() - 1;
    assert forall|i: int| 0 <= i < n implies #[trigger] pre[i] == sizes[i] by {}
    if pre.len() > 0 {
        lemma_largest_first(pre);
        let k = largest_first(pre);
        if sizes[n] > sizes[k] {
            assert forall|i: int| 0 <= i < sizes.len() implies #[trigger] sizes[i] <= sizes[n] by {
                if i < n {
                    assert(pre[i] <= pre[k]);
                }
            }
            assert forall|i: int| 0 <= i < n implies #[trigger] sizes[i] < sizes[n] by {
                assert(pre[i] <= pre[k]);
            }
        } else {
            assert forall|i: int| 0 <= i < sizes.len() implies #[trigger] sizes[i] <= sizes[k] by {
                if i < n {
                    assert(pre[i] <= pre[k]);
                }
            }
            assert forall|i: int| 0 <= i < k implies #[trigger] sizes[i] < sizes[k] by {
                assert(pre[i] < pre[k]);
            }
        }
    } else {
        assert(largest_first(pre) == -1);
    }
}

/// The dividend on `holding` shares at `price`.
pub fn dividend_amount(price: u64, holding: i64) -> (r: i64)
    ensures
        r == dividend(price, holding),
{
    assert(-0x7fff_ffff_ffff_ffff_8000_0000_0000_0000 <= price * holding
        <= 0x7fff_ffff_ffff_ffff_8000_0000_0000_0000) by (nonlinear_arith)
        requires
            0 <= price <= u64::MAX,
            i64::MIN <= holding <= i64::MAX,
    ;
    let x: i128 = price as i128 * holding as i128;
    let a: u128 = if x < 0 {
        (-x) as u128
    } else {
        x as u128
    };
    let q: u128 = (a + 10) / 20;
    assert(q == (2 * (a * 5) + 100) / 200) by (nonlinear_arith)
        requires
            q == (a + 10) / 20,
            a >= 0,
    ;
    let r: i128 = if x < 0 {
        -(q as i128)
    } else {
        q as i128
    };
    narrow_i64(r)
}

/// `a / b` rounded towards zero, for a nonzero `b`.
fn trunc_div_i128(a: i128, b: i128) -> (r: i128)
    requires
        b != 0,
        a != i128::MIN,
        b != i128::MIN,
    ensures
        r == trunc_div(a as int, b as int),
{
    let ua: u128 = if a < 0 {
        (-a) as u128
    } else {
        a as u128
    };
    let ub: u128 = if b < 0 {
        (-b) as u128
    } else {
        b as u128
    };
    let q: u128 = ua / ub;
    assert(q <= ua) by (nonlinear_arith)
        requires
            q == ua / ub,
            ub >= 1,
    ;
    if (a < 0) != (b < 0) {
        -(q as i128)
    } else {
        q as i128
    }
}

/// Survivor shares for `old_stock` shares of an absorbed company.
pub fn new_stock_for(old_stock: i64) -> (r: i64)
    ensures
        r == merge_new_stock(old_stock),
{
    let q = trunc_div_i128(
        old_stock as i128 + (DEFAULT_MERGE_SHARE_CONVERSION / 2) as i128,
        DEFAULT_MERGE_SHARE_CONVERSION as i128,
    );
    q as i64
}

/// Cash bonus for holding `held` of the `total` outstanding shares of an absorbed
/// company at `price`.
pub fn bonus_for(price: u64, held: i64, total: i128) -> (r: i64)
    requires
        price <= DEFAULT_STOCK_SPLIT_LIMIT,
        total != 0,
        total != i128::MIN,
    ensures
        r == merge_bonus(price, held, total as int),
{
    assert(-0x10_0000_0000_0000_0000_0000 <= DEFAULT_MERGE_BONUS_FACTOR * price * held
        <= 0x10_0000_0000_0000_0000_0000) by (nonlinear_arith)
        requires
            0 <= price <= DEFAULT_STOCK_SPLIT_LIMIT,
            i64::MIN <= held <= i64::MAX,
    ;
    let x: i128 = DEFAULT_MERGE_BONUS_FACTOR as i128 * price as i128 * held as i128;
    narrow_i64(trunc_div_i128(x, total))
}

/// Index of the first strictly largest size, if any size is above 0.
pub fn largest_index(sizes: &Vec<u64>) -> (r: Option<usize>)
    ensures
        r == (if largest_first(sizes@) < 0 {
            None
        } else {
            Some(largest_first(sizes@) as usize)
        }),
{
    let mut best: Option<usize> = None;
    let mut max_size: u64 = 0;
    let mut i: usize = 0;
    while i < sizes.len()
        invariant
            i <= sizes@.len(),
            best == (if largest_first(sizes@.take(i as int)) < 0 {
                None
            } else {
                Some(largest_first(sizes@.take(i as int)) as usize)
            }),
            max_size == (if largest_first(sizes@.take(i as int)) < 0 {
                0
            } else {
                sizes@[largest_first(sizes@.take(i as int))]
            }),
            largest_first(sizes@.take(i as int)) < i,
        decreases sizes@.len() - i,
    {
        proof {
            assert(sizes@.take(i + 1).drop_last() =~= sizes@.take(i as int));
        }
        if sizes[i] > max_size {
            max_size = sizes[i];
            best = Some(i);
        }
        i = i + 1;
    }
    proof {
        assert(sizes@.take(i as int) =~= sizes@);
    }
    best
}

} // verus!
