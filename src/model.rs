//! The abstract state of a game, the rules of a move stated over it, and the
//! laws that follow from them.
use crate::company::Company;
use crate::event::{Dividend, Event, MergeInfo};
use crate::map::{MapCell, Point, StarMap};
use crate::neighbors::{
    cell_at, lemma_neighbors_in_bounds, lemma_tally, neighbor_points, neighbor_tally, Tally,
};
use crate::player::PlayerView;
use crate::rules::{
    dividend, doubled, largest_first, lemma_largest_first, lemma_split, merge_bonus,
    merge_new_stock, split_count, split_price, DEFAULT_CANDIDATE_MOVE_COUNT,
    DEFAULT_FOUNDER_SHARES, DEFAULT_GROWTH_PRICE_BOOST, DEFAULT_MAX_COMPANY_COUNT,
    DEFAULT_OUTPOST_PRICE_BOOST, DEFAULT_STAR_PRICE_BOOST, DEFAULT_STOCK_SPLIT_FACTOR,
    DEFAULT_STOCK_SPLIT_LIMIT,
};
use crate::util::clamp_i64;
use vstd::arithmetic::div_mod::{lemma_fundamental_div_mod, lemma_mod_pos_bound};
use crate::starlanes::{GameState, StarLanesOptions};
use vstd::prelude::*;

verus! {

/// The abstract state of a game.
pub struct GameView {
    /// The game map.
    pub map: StarMap,
    /// Turns played so far.
    pub turn_number: nat,
    /// Where the game stands.
    pub state: GameState,
    /// Index of the current player.
    pub current_player: nat,
    /// The players, in turn order.
    pub players: Seq<PlayerView>,
    /// The company roster.
    pub companies: Seq<Company>,
    /// The moves offered to the current player this turn.
    pub candidates: Seq<Point>,
    /// The options of the game.
    pub options: StarLanesOptions,
}

/// Number of active companies.
pub open spec fn active_count(cos: Seq<Company>) -> nat
    decreases cos.len(),
{
    if cos.len() == 0 {
        0
    } else {
        active_count(cos.drop_last()) + if cos.last().in_use {
            1nat
        } else {
            0nat
        }
    }
}

/// Sum of the sizes of the active companies.
pub open spec fn size_sum(cos: Seq<Company>) -> nat
    decreases cos.len(),
{
    if cos.len() == 0 {
        0
    } else {
        size_sum(cos.drop_last()) + if cos.last().in_use {
            cos.last().size as nat
        } else {
            0nat
        }
    }
}

/// Shares of company `co` held by all the players together.
pub open spec fn shares_outstanding(players: Seq<PlayerView>, co: int) -> int
    decreases players.len(),
{
    if players.len() == 0 {
        0
    } else {
        shares_outstanding(players.drop_last(), co) + players.last().holding(co)
    }
}

/// The trading state after `from`: the first active company at index `from`
/// or above, else the end of the turn.
pub open spec fn next_trade_from(cos: Seq<Company>, from: int) -> GameState
    decreases cos.len() - from,
{
    if from < 0 || from >= cos.len() {
        GameState::EndTurn
    } else if cos[from].in_use {
        GameState::Trade(from as usize)
    } else {
        next_trade_from(cos, from + 1)
    }
}

/// The first free company slot at index `from` or above; the roster's length if none.
pub open spec fn first_free_from(cos: Seq<Company>, from: int) -> int
    decreases cos.len() - from,
{
    if from < 0 || from >= cos.len() {
        cos.len() as int
    } else if !cos[from].in_use {
        from
    } else {
        first_free_from(cos, from + 1)
    }
}

/// The dividends due to player `pl` from the first `n` companies of `cos`, one per
/// active company in index order.
pub open spec fn dividends_due(cos: Seq<Company>, pl: PlayerView, n: int) -> Seq<Dividend>
    decreases n,
{
    if n <= 0 {
        Seq::empty()
    } else {
        let d = dividends_due(cos, pl, n - 1);
        if cos[n - 1].in_use {
            d.push(
                Dividend {
                    company: (n - 1) as usize,
                    amount: dividend(cos[n - 1].share_price, pl.holding(n - 1)),
                },
            )
        } else {
            d
        }
    }
}

/// The market value of the stock that player `pl` holds in the active companies
/// among the first `n` of `cos`, summed in index order, saturating.
pub open spec fn stock_value_of(cos: Seq<Company>, pl: PlayerView, n: int) -> i64
    decreases n,
{
    if n <= 0 {
        0
    } else {
        let prev = stock_value_of(cos, pl, n - 1);
        if cos[n - 1].in_use {
            clamp_i64(prev + pl.holding(n - 1) * cos[n - 1].share_price)
        } else {
            prev
        }
    }
}

/// Cash after receiving the amounts `ds` one after another, saturating.
pub open spec fn cash_after(cash: i64, ds: Seq<Dividend>) -> i64
    decreases ds.len(),
{
    if ds.len() == 0 {
        cash
    } else {
        clamp_i64(cash_after(cash, ds.drop_last()) + ds.last().amount)
    }
}

/// `n` stock split events of company `co`.
pub open spec fn split_events(co: usize, n: nat) -> Seq<Event> {
    Seq::new(n, |i: int| Event::Split(co, DEFAULT_STOCK_SPLIT_FACTOR))
}

impl GameView {
    /// `p` lies on the map.
    pub open spec fn in_bounds(self, p: Point) -> bool {
        self.map.in_bounds(p.0 as int, p.1 as int)
    }

    /// What the neighbors of `p` hold.
    pub open spec fn tally_at(self, p: Point) -> Tally {
        neighbor_tally(self.map, p.0 as int, p.1 as int)
    }

    /// A free company slot remains.
    pub open spec fn companies_available(self) -> bool {
        active_count(self.companies) < DEFAULT_MAX_COMPANY_COUNT
    }

    /// `p` may be offered as a move: an empty cell, and not one that would found a
    /// company when no slot is free.
    pub open spec fn legal_move(self, p: Point) -> bool {
        &&& self.in_bounds(p)
        &&& cell_at(self.map, p) == MapCell::Space
        &&& !(!self.companies_available() && self.tally_at(p).companies.len() == 0 && (
        self.tally_at(p).outposts.len() > 0 || self.tally_at(p).stars > 0))
    }

    /// The cells of the board, row after row.
    pub open spec fn board_points(self) -> Seq<Point> {
        Seq::new(
            (self.map.width * self.map.height) as nat,
            |k: int| Point((k / self.map.width as int) as usize, (k % self.map.width as int) as usize),
        )
    }

    /// The legal moves, row after row.
    pub open spec fn legal_moves(self) -> Seq<Point> {
        self.board_points().filter(|p: Point| self.legal_move(p))
    }

    /// The survivor of a merge at `p`: the first largest of the neighboring companies.
    pub open spec fn survivor(self, p: Point) -> u32 {
        let ids = self.tally_at(p).ids;
        ids[largest_first(ids.map_values(|id: u32| self.companies[id as int].size))]
    }

    /// A move at `p` can be resolved: in wizard mode it lies on the map and does not
    /// found a company when no slot is free, else it is one of the candidates; and a
    /// merge there absorbs no company with zero shares outstanding.
    pub open spec fn move_allowed(self, p: Point) -> bool {
        &&& if self.options.wizard_mode {
            self.in_bounds(p) && !(self.tally_at(p).only_stars_outposts()
                && !self.companies_available())
        } else {
            self.candidates.contains(p)
        }
        &&& self.tally_at(p).ids.len() > 1 ==> forall|i: int|
            0 <= i < self.tally_at(p).ids.len() && self.tally_at(p).ids[i] != self.survivor(p)
                ==> shares_outstanding(self.players, #[trigger] self.tally_at(p).ids[i] as int)
                != 0
    }

    /// The player whose turn it is.
    pub open spec fn player(self) -> PlayerView {
        self.players[self.current_player as int]
    }
}

/// A fresh player of the classic game.
pub open spec fn fresh_player(p: PlayerView) -> bool {
    &&& p.cash == crate::player::DEFAULT_CASH
    &&& p.starting_cash == crate::player::DEFAULT_CASH
    &&& forall|k: int| #[trigger] p.holding(k) == 0
}


/// A move has been made this turn.
pub open spec fn moved(s: GameState) -> bool {
    s is Trade || s is EndTurn
}

/// The state of the game is consistent.
pub open spec fn consistent(g: GameView) -> bool {
    &&& g.map.wf()
    &&& g.companies.len() == DEFAULT_MAX_COMPANY_COUNT
    &&& g.players.len() <= 4
    &&& g.state != GameState::PreInit ==> 1 <= g.players.len() && g.current_player
        < g.players.len()
    &&& forall|r: int, c: int|
        g.map.in_bounds(r, c) && (#[trigger] g.map.cell(r, c) is Company) ==> g.map.cell(
            r,
            c,
        )->Company_0 < DEFAULT_MAX_COMPANY_COUNT && g.companies[g.map.cell(
            r,
            c,
        )->Company_0 as int].in_use
    &&& forall|i: int|
        0 <= i < g.companies.len() && (#[trigger] g.companies[i]).in_use ==> 1
            <= g.companies[i].size && 0 < g.companies[i].share_price
            <= DEFAULT_STOCK_SPLIT_LIMIT
    &&& size_sum(g.companies) <= g.turn_number + if moved(g.state) {
        1nat
    } else {
        0
    }
    &&& (g.state is BeginTurn || g.state is Move || moved(g.state)) ==> g.turn_number
        < usize::MAX
    &&& g.state is Move ==> (g.candidates.len() == 0 || g.candidates.len()
        == DEFAULT_CANDIDATE_MOVE_COUNT) && forall|i: int|
        0 <= i < g.candidates.len() ==> g.legal_move(#[trigger] g.candidates[i])
    &&& g.state is Trade ==> g.state->Trade_0 < DEFAULT_MAX_COMPANY_COUNT
        && g.companies[g.state->Trade_0 as int].in_use
}

/// The state is consistent as far as a move in progress can keep it: the
/// share price of company `exempt` may still exceed the split limit, and the
/// company sizes may include the cell being placed.
pub open spec fn settled(g: GameView, exempt: int) -> bool {
    &&& g.map.wf()
    &&& g.companies.len() == DEFAULT_MAX_COMPANY_COUNT
    &&& 1 <= g.players.len() <= 4
    &&& g.current_player < g.players.len()
    &&& forall|r: int, c: int|
        g.map.in_bounds(r, c) && (#[trigger] g.map.cell(r, c) is Company) ==> g.map.cell(
            r,
            c,
        )->Company_0 < DEFAULT_MAX_COMPANY_COUNT && g.companies[g.map.cell(
            r,
            c,
        )->Company_0 as int].in_use
    &&& forall|i: int|
        0 <= i < g.companies.len() && (#[trigger] g.companies[i]).in_use ==> 1
            <= g.companies[i].size && 0 < g.companies[i].share_price && (i != exempt
            ==> g.companies[i].share_price <= DEFAULT_STOCK_SPLIT_LIMIT)
    &&& size_sum(g.companies) <= g.turn_number + 1
    &&& g.turn_number < usize::MAX
}

/// `e` is a dividends event paying `ds`.
pub open spec fn is_dividends(e: Event, ds: Seq<Dividend>) -> bool {
    match e {
        Event::Dividends(v) => v@ == ds,
        _ => false,
    }
}

/// Replacing a company changes the size sum by the difference of the two
/// companies' contributions.
pub(crate) proof fn lemma_size_sum_update(cos: Seq<Company>, i: int, c: Company)
    requires
        0 <= i < cos.len(),
    ensures
        size_sum(cos.update(i, c)) + (if cos[i].in_use {
            cos[i].size as int
        } else {
            0
        }) == size_sum(cos) + (if c.in_use {
            c.size as int
        } else {
            0
        }),
    decreases cos.len(),
{
    if i < cos.len() - 1 {
        lemma_size_sum_update(cos.drop_last(), i, c);
        assert(cos.update(i, c).drop_last() =~= cos.drop_last().update(i, c));
    } else {
        assert(cos.update(i, c).drop_last() =~= cos.drop_last());
    }
}

/// Two distinct active companies together are no larger than the size sum.
pub(crate) proof fn lemma_size_sum_pair(cos: Seq<Company>, i: int, j: int)
    requires
        0 <= i < cos.len(),
        0 <= j < cos.len(),
        i != j,
        cos[i].in_use,
        cos[j].in_use,
    ensures
        cos[i].size + cos[j].size <= size_sum(cos),
{
    lemma_size_sum_update(cos, i, Company { in_use: false, ..cos[i] });
    let d = cos.update(i, Company { in_use: false, ..cos[i] });
    lemma_size_sum_update(d, j, Company { in_use: false, ..cos[j] });
}

/// A roster whose companies are all active has every slot counted.
pub(crate) proof fn lemma_all_active(cos: Seq<Company>)
    requires
        forall|i: int| 0 <= i < cos.len() ==> (#[trigger] cos[i]).in_use,
    ensures
        active_count(cos) == cos.len(),
    decreases cos.len(),
{
    if cos.len() > 0 {
        lemma_all_active(cos.drop_last());
    }
}

/// Where no free slot is found at `from` or above, all those slots are active.
pub(crate) proof fn lemma_no_free_from(cos: Seq<Company>, from: int)
    requires
        0 <= from,
        first_free_from(cos, from) == cos.len(),
    ensures
        forall|i: int| from <= i < cos.len() ==> (#[trigger] cos[i]).in_use,
    decreases cos.len() - from,
{
    if from < cos.len() {
        lemma_no_free_from(cos, from + 1);
    }
}

/// The outcome of a merge for each player: their stock in the absorbed company
/// `a` at `price`, of `total` shares outstanding.
pub open spec fn merge_infos(players: Seq<PlayerView>, price: u64, a: int, total: int) -> Seq<
    MergeInfo,
> {
    Seq::new(
        players.len(),
        |j: int|
            MergeInfo {
                old_stock: players[j].holding(a),
                new_stock: merge_new_stock(players[j].holding(a)),
                bonus_paid: merge_bonus(price, players[j].holding(a), total),
            },
    )
}

/// `e` reports the merge of company `a` into company `s` with outcomes `infos`.
pub open spec fn is_merge(e: Event, s: usize, a: usize, infos: Seq<MergeInfo>) -> bool {
    match e {
        Event::Merge(x, y, v) => x == s && y == a && v@ == infos,
        _ => false,
    }
}

/// A cell after the companies `ids` have merged into company `s`.
pub open spec fn merged_cell(cell: MapCell, ids: Seq<u32>, s: usize) -> MapCell {
    match cell {
        MapCell::Company(id) => if ids.contains(id) {
            MapCell::Company(s as u32)
        } else {
            cell
        },
        _ => cell,
    }
}

/// `b` holds what `a` holds, but `v` shares of company `co`, and starts with the
/// same cash.
pub open spec fn restocked(a: PlayerView, b: PlayerView, co: int, v: i64) -> bool {
    &&& b.starting_cash == a.starting_cash
    &&& forall|k: int| #[trigger] b.holding(k) == if k == co {
        v
    } else {
        a.holding(k)
    }
}

/// Map `h` is map `g` with the cell at `p` and the cells `extra` set to `v`.
pub open spec fn placed(g: StarMap, h: StarMap, p: Point, extra: Seq<Point>, v: MapCell) -> bool {
    &&& h.width == g.width
    &&& h.height == g.height
    &&& h.star_odds() == g.star_odds()
    &&& forall|r: int, q: int|
        g.in_bounds(r, q) ==> #[trigger] h.cell(r, q) == if (r == p.0 && q == p.1) || extra.contains(
            Point(r as usize, q as usize),
        ) {
            v
        } else {
            g.cell(r, q)
        }
}

/// Only the cash of the current player changed from `g` to `h`: it received `dues`.
pub open spec fn paid_dues(g: GameView, h: GameView, dues: Seq<Dividend>) -> bool {
    &&& h.players.len() == g.players.len()
    &&& forall|j: int|
        0 <= j < g.players.len() && j != g.current_player ==> (#[trigger] h.players[j]).cash
            == g.players[j].cash
    &&& h.player().cash == cash_after(g.player().cash, dues)
}

/// The dividends due to the current player of `h`.
pub open spec fn dues_of(h: GameView) -> Seq<Dividend> {
    dividends_due(h.companies, h.player(), h.companies.len() as int)
}

/// The events of a move but its dividends: all of them when no dividend is due.
pub open spec fn move_events(h: GameView, events: Seq<Event>) -> Seq<Event> {
    if dues_of(h).len() > 0 {
        events.drop_last()
    } else {
        events
    }
}

/// What every move does: trading opens at the first active company, the turn,
/// player and options stay, and the last event pays the dividends due, if any.
pub open spec fn move_common(g: GameView, h: GameView, events: Seq<Event>) -> bool {
    &&& h.state == next_trade_from(h.companies, 0)
    &&& h.turn_number == g.turn_number
    &&& h.current_player == g.current_player
    &&& h.candidates == g.candidates
    &&& h.options == g.options
    &&& h.players.len() == g.players.len()
    &&& dues_of(h).len() > 0 ==> events.len() > 0 && is_dividends(events.last(), dues_of(h))
}

/// A move at `p` next to no star, outpost or company: the cell becomes an outpost
/// and nothing else happens but dividends.
pub open spec fn outpost_outcome(g: GameView, h: GameView, p: Point, events: Seq<Event>) -> bool {
    &&& h.companies == g.companies
    &&& placed(g.map, h.map, p, Seq::empty(), MapCell::Outpost)
    &&& move_events(h, events) == Seq::<Event>::empty()
    &&& forall|j: int|
        0 <= j < g.players.len() ==> restocked(g.players[j], #[trigger] h.players[j], -1, 0)
    &&& paid_dues(g, h, dues_of(h))
}

/// A move at `p` next to one company: it grows by one cell, its price rises by
/// the growth boost and the boosts of the adjacent stars and outposts, the
/// outposts join it, and its stock splits as its price calls for.
pub open spec fn grow_outcome(g: GameView, h: GameView, p: Point, events: Seq<Event>) -> bool {
    let t = g.tally_at(p);
    let co = t.ids[0] as int;
    let c = g.companies[co];
    let price = c.share_price + DEFAULT_GROWTH_PRICE_BOOST + DEFAULT_STAR_PRICE_BOOST * t.stars
        + DEFAULT_OUTPOST_PRICE_BOOST * t.outposts.len();
    let n = split_count(price as nat);
    &&& h.companies == g.companies.update(
        co,
        Company { size: (c.size + 1) as u64, share_price: split_price(price as nat) as u64, ..c },
    )
    &&& placed(g.map, h.map, p, t.outposts, MapCell::Company(co as u32))
    &&& move_events(h, events) == split_events(co as usize, n)
    &&& forall|j: int|
        0 <= j < g.players.len() ==> restocked(
            g.players[j],
            #[trigger] h.players[j],
            co,
            doubled(g.players[j].holding(co), n),
        )
    &&& paid_dues(g, h, dues_of(h))
}

/// A move at `p` next to stars or outposts only: the first free slot becomes a
/// company of one cell priced at the growth boost plus the boosts of the adjacent
/// stars and outposts; the founder receives the founder shares and every other
/// player none; the outposts join it; it splits as its price calls for; and its
/// formation is reported.
pub open spec fn form_outcome(g: GameView, h: GameView, p: Point, events: Seq<Event>) -> bool {
    let t = g.tally_at(p);
    let co = first_free_from(g.companies, 0);
    let price = DEFAULT_GROWTH_PRICE_BOOST + DEFAULT_STAR_PRICE_BOOST * t.stars
        + DEFAULT_OUTPOST_PRICE_BOOST * t.outposts.len();
    let n = split_count(price as nat);
    &&& 0 <= co < DEFAULT_MAX_COMPANY_COUNT
    &&& !g.companies[co].in_use
    &&& h.companies == g.companies.update(
        co,
        Company { in_use: true, size: 1, share_price: split_price(price as nat) as u64 },
    )
    &&& placed(g.map, h.map, p, t.outposts, MapCell::Company(co as u32))
    &&& move_events(h, events) == split_events(co as usize, n).push(
        Event::CompanyFormed(co as usize),
    )
    &&& forall|j: int|
        0 <= j < g.players.len() ==> restocked(
            g.players[j],
            #[trigger] h.players[j],
            co,
            doubled(
                if j == g.current_player {
                    DEFAULT_FOUNDER_SHARES
                } else {
                    0
                },
                n,
            ),
        )
    &&& paid_dues(g, h, dues_of(h))
}

/// A move at `p` next to several companies: the survivor stays active, every
/// other neighboring company is absorbed in scan order (its slot freed, its stock
/// exchanged, its bonus paid, its merge reported, its size and price added to the
/// survivor's, which then splits as its price calls for), the companies not
/// adjacent are untouched, and the absorbed companies' cells and the moved-into
/// cell join the survivor.
pub open spec fn merge_outcome(g: GameView, h: GameView, p: Point, events: Seq<Event>) -> bool {
    let t = g.tally_at(p);
    let s = g.survivor(p);
    let body = move_events(h, events);
    let n = t.ids.len() as int;
    &&& s < DEFAULT_MAX_COMPANY_COUNT
    &&& h.companies[s as int].in_use
    &&& h.companies[s as int].size == merged_size(g.companies, t.ids, s as int, n)
    &&& h.companies[s as int].share_price == merged_price(g.companies, t.ids, s as int, n)
    &&& forall|j: int|
        0 <= j < g.players.len() ==> {
            &&& (#[trigger] h.players[j]).holding(s as int) == merged_holding(
                g.companies,
                t.ids,
                s as int,
                g.players[j],
                n,
            )
            &&& h.players[j].starting_cash == g.players[j].starting_cash
            &&& h.players[j].cash == if j == g.current_player {
                cash_after(merged_cash(g.companies, t.ids, s as int, g.players, j, n), dues_of(h))
            } else {
                merged_cash(g.companies, t.ids, s as int, g.players, j, n)
            }
        }
    &&& forall|j: int, c: int|
        0 <= j < g.players.len() && c != s ==> #[trigger] h.players[j].holding(c)
            == g.players[j].holding(c)
    &&& forall|i: int|
        0 <= i < t.ids.len() && t.ids[i] != s ==> !h.companies[#[trigger] t.ids[i] as int].in_use
    &&& forall|k: int|
        0 <= k < DEFAULT_MAX_COMPANY_COUNT && !t.ids.contains(k as u32) ==> #[trigger] h.companies[k]
            == g.companies[k]
    &&& h.map.width == g.map.width
    &&& h.map.height == g.map.height
    &&& forall|r: int, q: int|
        g.map.in_bounds(r, q) ==> #[trigger] h.map.cell(r, q) == if r == p.0 && q == p.1 {
            MapCell::Company(s as u32)
        } else {
            merged_cell(g.map.cell(r, q), t.ids, s as usize)
        }
    &&& forall|i: int|
        0 <= i < t.ids.len() && t.ids[i] != s ==> exists|k: int|
            0 <= k < body.len() && is_merge(
                #[trigger] body[k],
                s as usize,
                t.ids[i] as usize,
                absorbed_infos(g, t.ids[i] as int),
            )
}

/// Dividends depend on a player's holdings only.
pub(crate) proof fn lemma_dues_same(cos: Seq<Company>, a: PlayerView, b: PlayerView, n: int)
    requires
        a.holdings == b.holdings,
    ensures
        dividends_due(cos, a, n) == dividends_due(cos, b, n),
    decreases n,
{
    if n > 0 {
        lemma_dues_same(cos, a, b, n - 1);
    }
}

/// The size of survivor `s` once the first `n` of the companies `ids` other than
/// itself have been absorbed into it, in order.
pub open spec fn merged_size(cos: Seq<Company>, ids: Seq<u32>, s: int, n: int) -> int
    decreases n,
{
    if n <= 0 {
        cos[s].size as int
    } else {
        let prev = merged_size(cos, ids, s, n - 1);
        if ids[n - 1] == s {
            prev
        } else {
            prev + cos[ids[n - 1] as int].size
        }
    }
}

/// The share price of survivor `s` once the first `n` of the companies `ids` other
/// than itself have been absorbed into it, each absorption followed by its splits.
pub open spec fn merged_price(cos: Seq<Company>, ids: Seq<u32>, s: int, n: int) -> nat
    decreases n,
{
    if n <= 0 {
        cos[s].share_price as nat
    } else {
        let prev = merged_price(cos, ids, s, n - 1);
        if ids[n - 1] == s {
            prev
        } else {
            split_price((prev + cos[ids[n - 1] as int].share_price) as nat)
        }
    }
}

/// A player's stock in survivor `s` once the first `n` of the companies `ids` other
/// than itself have been absorbed: each absorption adds the converted stock, and
/// its splits double the total.
pub open spec fn merged_holding(cos: Seq<Company>, ids: Seq<u32>, s: int, pl: PlayerView, n: int) -> i64
    decreases n,
{
    if n <= 0 {
        pl.holding(s)
    } else {
        let prev = merged_holding(cos, ids, s, pl, n - 1);
        let a = ids[n - 1] as int;
        if a == s {
            prev
        } else {
            doubled(
                clamp_i64(prev + merge_new_stock(pl.holding(a))),
                split_count((merged_price(cos, ids, s, n - 1) + cos[a].share_price) as nat),
            )
        }
    }
}

/// The cash of player `j` once the first `n` of the companies `ids` other than
/// survivor `s` have been absorbed, each paying its merge bonus.
pub open spec fn merged_cash(
    cos: Seq<Company>,
    ids: Seq<u32>,
    s: int,
    players: Seq<PlayerView>,
    j: int,
    n: int,
) -> i64
    decreases n,
{
    if n <= 0 {
        players[j].cash
    } else {
        let prev = merged_cash(cos, ids, s, players, j, n - 1);
        let a = ids[n - 1] as int;
        if a == s {
            prev
        } else {
            clamp_i64(
                prev + merge_bonus(
                    cos[a].share_price,
                    players[j].holding(a),
                    shares_outstanding(players, a),
                ),
            )
        }
    }
}

/// The outcome for each player of absorbing company `a` of game `g`.
pub open spec fn absorbed_infos(g: GameView, a: int) -> Seq<MergeInfo> {
    merge_infos(g.players, g.companies[a].share_price, a, shares_outstanding(g.players, a))
}

/// Players holding the same in company `co` have the same shares outstanding in it.
pub(crate) proof fn lemma_shares_same(a: Seq<PlayerView>, b: Seq<PlayerView>, co: int)
    requires
        a.len() == b.len(),
        forall|j: int| 0 <= j < a.len() ==> #[trigger] a[j].holding(co) == b[j].holding(co),
    ensures
        shares_outstanding(a, co) == shares_outstanding(b, co),
    decreases a.len(),
{
    if a.len() > 0 {
        lemma_shares_same(a.drop_last(), b.drop_last(), co);
    }
}

/// Every fresh company is free.
pub(crate) proof fn lemma_fresh_roster(cos: Seq<Company>)
    requires
        forall|i: int| 0 <= i < cos.len() ==> !(#[trigger] cos[i]).in_use,
    ensures
        active_count(cos) == 0,
        size_sum(cos) == 0,
    decreases cos.len(),
{
    if cos.len() > 0 {
        lemma_fresh_roster(cos.drop_last());
    }
}

/// Trading goes through the active companies in ascending order: the trading
/// state after `from` is the first active company at index `from` or above, and
/// the end of the turn only when there is none.
pub proof fn lemma_next_trade(cos: Seq<Company>, from: int)
    requires
        0 <= from,
        cos.len() <= usize::MAX,
    ensures
        next_trade_from(cos, from) is EndTurn || (next_trade_from(cos, from) is Trade
            && from <= next_trade_from(cos, from)->Trade_0 < cos.len() && cos[next_trade_from(
            cos,
            from,
        )->Trade_0 as int].in_use),
        next_trade_from(cos, from) is Trade ==> forall|i: int|
            from <= i < next_trade_from(cos, from)->Trade_0 ==> !(#[trigger] cos[i]).in_use,
        next_trade_from(cos, from) is EndTurn ==> forall|i: int|
            from <= i < cos.len() ==> !(#[trigger] cos[i]).in_use,
    decreases cos.len() - from,
{
    if from < cos.len() && !cos[from].in_use {
        lemma_next_trade(cos, from + 1);
    }
}

/// While the trade in company `i` is pending, trading any other company breaks the
/// precondition of `StarLanes::trade`; once it is done, the next trade offered is
/// the next active company after `i`, so no active company is skipped.
pub proof fn lemma_trade_order(g: GameView, i: usize, j: usize)
    requires
        consistent(g),
        g.state == GameState::Trade(i),
        j != i,
    ensures
        g.state != GameState::Trade(j),
        next_trade_from(g.companies, i + 1) is Trade ==> i < next_trade_from(g.companies, i + 1)->Trade_0
            && forall|k: int|
            i < k < next_trade_from(g.companies, i + 1)->Trade_0 ==> !(#[trigger] g.companies[k]).in_use,
{
    lemma_next_trade(g.companies, i + 1);
}

/// The outcome of `get_moves` from `g` to `h`, returning `r`: the moves already
/// drawn this turn, unchanged; else, where fewer legal moves remain than are
/// offered, none and the end of the game; else that many distinct legal moves,
/// kept for the turn.
pub open spec fn moves_drawn(g: GameView, h: GameView, r: Seq<Point>) -> bool {
    &&& g.candidates.len() > 0 ==> r == g.candidates && h == g
    &&& g.candidates.len() == 0 && g.legal_moves().len() < DEFAULT_CANDIDATE_MOVE_COUNT ==> r.len()
        == 0 && h == (GameView { state: GameState::GameOver, ..g })
    &&& g.candidates.len() == 0 && g.legal_moves().len() >= DEFAULT_CANDIDATE_MOVE_COUNT ==> {
        &&& r.len() == DEFAULT_CANDIDATE_MOVE_COUNT
        &&& r.no_duplicates()
        &&& forall|i: int| 0 <= i < r.len() ==> g.legal_move(#[trigger] r[i])
        &&& h == (GameView { candidates: r, ..g })
    }
}

/// Asking for the moves twice in one turn gives the same moves twice, and the
/// second call changes nothing.
pub proof fn lemma_moves_repeat(
    g0: GameView,
    g1: GameView,
    r1: Seq<Point>,
    g2: GameView,
    r2: Seq<Point>,
)
    requires
        g0.state is Move,
        moves_drawn(g0, g1, r1),
        g1.state is Move,
        moves_drawn(g1, g2, r2),
    ensures
        r2 == r1,
        g2 == g1,
{
    if g0.candidates.len() == 0 && g0.legal_moves().len() >= DEFAULT_CANDIDATE_MOVE_COUNT {
        assert(g1.candidates == r1);
    }
}

/// The companies next to an in-bounds cell of a consistent game are active slots
/// of the roster.
pub(crate) proof fn lemma_neighbor_ids_active(g: GameView, p: Point)
    requires
        consistent(g),
        g.in_bounds(p),
    ensures
        forall|i: int|
            0 <= i < g.tally_at(p).ids.len() ==> #[trigger] g.tally_at(p).ids[i]
                < DEFAULT_MAX_COMPANY_COUNT && g.companies[g.tally_at(p).ids[i] as int].in_use,
{
    let ids = g.tally_at(p).ids;
    let pts = neighbor_points(g.map, p.0 as int, p.1 as int);
    lemma_tally(g.map, pts);
    lemma_neighbors_in_bounds(g.map, p.0 as int, p.1 as int);
    assert forall|i: int| 0 <= i < ids.len() implies #[trigger] ids[i] < DEFAULT_MAX_COMPANY_COUNT
        && g.companies[ids[i] as int].in_use by {
        assert(ids.contains(ids[i]));
        let q = choose|q: Point| #[trigger] pts.contains(q) && cell_at(g.map, q) == MapCell::Company(ids[i]);
        let x = choose|x: int| 0 <= x < pts.len() && pts[x] == q;
        assert(g.map.in_bounds(pts[x].0 as int, pts[x].1 as int));
    }
}

/// The first draw of a turn, where enough legal moves remain, offers exactly the
/// candidate count of distinct empty cells on the map.
pub proof fn lemma_fresh_moves(g: GameView, h: GameView, r: Seq<Point>)
    requires
        g.candidates.len() == 0,
        g.legal_moves().len() >= DEFAULT_CANDIDATE_MOVE_COUNT,
        moves_drawn(g, h, r),
    ensures
        r.len() == DEFAULT_CANDIDATE_MOVE_COUNT,
        r.no_duplicates(),
        forall|i: int|
            0 <= i < r.len() ==> g.in_bounds(#[trigger] r[i]) && cell_at(g.map, r[i])
                == MapCell::Space,
{
}

/// A move next to no star, outpost or company reports nothing but, at most, one
/// dividends event.
pub proof fn lemma_outpost_events(g: GameView, h: GameView, p: Point, events: Seq<Event>)
    requires
        move_common(g, h, events),
        outpost_outcome(g, h, p, events),
    ensures
        events.len() <= 1,
        forall|i: int| 0 <= i < events.len() ==> #[trigger] events[i] is Dividends,
{
    if dues_of(h).len() > 0 {
        assert(events.drop_last().len() == 0);
        assert(events.len() == 1);
        assert(events[0] == events.last());
    }
}

/// Growing a company whose new price stays within the split limit raises the
/// price by exactly the growth boost and the boosts of the adjacent stars and
/// outposts, and leaves every holding as it was.
pub proof fn lemma_growth_price(g: GameView, h: GameView, p: Point, events: Seq<Event>)
    requires
        consistent(g),
        g.in_bounds(p),
        g.tally_at(p).ids.len() == 1,
        grow_outcome(g, h, p, events),
        g.companies[g.tally_at(p).ids[0] as int].share_price + DEFAULT_GROWTH_PRICE_BOOST
            + DEFAULT_STAR_PRICE_BOOST * g.tally_at(p).stars + DEFAULT_OUTPOST_PRICE_BOOST * g.tally_at(
            p,
        ).outposts.len() <= DEFAULT_STOCK_SPLIT_LIMIT,
    ensures
        h.companies[g.tally_at(p).ids[0] as int].share_price == g.companies[g.tally_at(p).ids[0] as int].share_price
            + DEFAULT_GROWTH_PRICE_BOOST + DEFAULT_STAR_PRICE_BOOST * g.tally_at(p).stars
            + DEFAULT_OUTPOST_PRICE_BOOST * g.tally_at(p).outposts.len(),
        forall|j: int, k: int|
            0 <= j < g.players.len() ==> #[trigger] h.players[j].holding(k) == g.players[j].holding(k),
        move_events(h, events) == Seq::<Event>::empty(),
{
    let t = g.tally_at(p);
    let co = t.ids[0] as int;
    let price = g.companies[co].share_price + DEFAULT_GROWTH_PRICE_BOOST + DEFAULT_STAR_PRICE_BOOST
        * t.stars + DEFAULT_OUTPOST_PRICE_BOOST * t.outposts.len();
    lemma_neighbor_ids_active(g, p);
    lemma_split(price as nat);
    assert(split_events(co as usize, 0) =~= Seq::<Event>::empty());
    assert forall|j: int, k: int| 0 <= j < g.players.len() implies #[trigger] h.players[j].holding(k)
        == g.players[j].holding(k) by {
        assert(restocked(g.players[j], h.players[j], co, doubled(g.players[j].holding(co), 0)));
    }
}

/// Every move offered lies on the map and is an empty cell.
pub proof fn lemma_legal_move_is_space(g: GameView, p: Point)
    requires
        g.legal_move(p),
    ensures
        g.in_bounds(p),
        cell_at(g.map, p) == MapCell::Space,
{
}

/// The survivor of a merge is the largest of the neighboring companies, whatever
/// their scan order; among equally large ones, the first in the order N, S, E, W.
pub proof fn lemma_survivor_largest(g: GameView, p: Point)
    requires
        consistent(g),
        g.in_bounds(p),
        g.tally_at(p).ids.len() > 0,
    ensures
        g.tally_at(p).ids.contains(g.survivor(p)),
        forall|i: int|
            0 <= i < g.tally_at(p).ids.len() ==> g.companies[#[trigger] g.tally_at(p).ids[i] as int].size
                <= g.companies[g.survivor(p) as int].size,
        forall|i: int|
            0 <= i < g.tally_at(p).ids.len() && g.companies[#[trigger] g.tally_at(p).ids[i] as int].size
                == g.companies[g.survivor(p) as int].size ==> g.tally_at(p).ids.subrange(0, i).contains(
                g.survivor(p),
            ) || g.tally_at(p).ids[i] == g.survivor(p),
{
    let ids = g.tally_at(p).ids;
    lemma_neighbor_ids_active(g, p);
    let sizes = ids.map_values(|id: u32| g.companies[id as int].size);
    assert forall|k: int| 0 <= k < sizes.len() implies sizes[k] > 0 by {
        assert(ids[k] < DEFAULT_MAX_COMPANY_COUNT && g.companies[ids[k] as int].in_use);
    }
    lemma_largest_first(sizes);
    let b = largest_first(sizes);
    assert(ids[b] == g.survivor(p));
    assert forall|i: int| 0 <= i < ids.len() implies g.companies[#[trigger] ids[i] as int].size
        <= g.companies[g.survivor(p) as int].size by {
        assert(sizes[i] <= sizes[b]);
    }
    assert forall|i: int|
        0 <= i < ids.len() && g.companies[#[trigger] ids[i] as int].size == g.companies[g.survivor(
            p,
        ) as int].size implies ids.subrange(0, i).contains(g.survivor(p)) || ids[i] == g.survivor(
        p,
    ) by {
        assert(sizes[i] == sizes[b]);
        if i > b {
            assert(ids.subrange(0, i)[b] == ids[b]);
        } else if i < b {
            assert(sizes[i] < sizes[b]);
        }
    }
}

/// A company is founded with the founder shares for its founder and none for
/// anyone else: its price never calls for a split.
pub proof fn lemma_founder_shares(g: GameView, h: GameView, p: Point, events: Seq<Event>)
    requires
        g.in_bounds(p),
        form_outcome(g, h, p, events),
    ensures
        forall|j: int|
            0 <= j < g.players.len() ==> (#[trigger] h.players[j]).holding(first_free_from(g.companies, 0))
                == if j == g.current_player {
                DEFAULT_FOUNDER_SHARES
            } else {
                0
            },
        move_events(h, events) == seq![Event::CompanyFormed(first_free_from(g.companies, 0) as usize)],
{
    let t = g.tally_at(p);
    lemma_tally(g.map, neighbor_points(g.map, p.0 as int, p.1 as int));
    lemma_neighbors_in_bounds(g.map, p.0 as int, p.1 as int);
    let price = DEFAULT_GROWTH_PRICE_BOOST + DEFAULT_STAR_PRICE_BOOST * t.stars
        + DEFAULT_OUTPOST_PRICE_BOOST * t.outposts.len();
    lemma_split(price as nat);
    assert(split_events(first_free_from(g.companies, 0) as usize, 0) =~= Seq::<Event>::empty());
    assert(move_events(h, events) =~= seq![Event::CompanyFormed(first_free_from(g.companies, 0) as usize)]);
}

/// Row and column of the cell at flat position `k` of a board `w` cells wide and
/// `h` cells high.
pub(crate) proof fn lemma_flat(k: int, w: int, h: int)
    requires
        0 <= k < w * h,
        0 < w,
    ensures
        0 <= k / w < h,
        0 <= k % w < w,
        (k / w) * w + k % w == k,
{
    lemma_fundamental_div_mod(k, w);
    lemma_mod_pos_bound(k, w);
    let q = k / w;
    let m = k % w;
    assert(q * w == w * q) by (nonlinear_arith);
    if q < 0 {
        assert(q * w <= -w) by (nonlinear_arith)
            requires
                q < 0,
                w > 0,
        ;
    }
    if q >= h {
        assert(q * w >= h * w) by (nonlinear_arith)
            requires
                q >= h,
                w > 0,
        ;
        assert(h * w == w * h) by (nonlinear_arith);
    }
}

/// Points that are all in `legal` with no duplicates keep both properties when
/// shuffled and cut short.
pub(crate) proof fn lemma_shuffled_prefix(a: Seq<Point>, b: Seq<Point>, n: int, legal: spec_fn(Point) -> bool)
    requires
        a.no_duplicates(),
        forall|i: int| 0 <= i < a.len() ==> legal(#[trigger] a[i]),
        b.to_multiset() == a.to_multiset(),
        0 <= n <= b.len(),
    ensures
        b.take(n).no_duplicates(),
        forall|i: int| 0 <= i < n ==> legal(#[trigger] b.take(n)[i]),
        b.len() == a.len(),
{
    broadcast use vstd::seq_lib::group_to_multiset_ensures;

    assert(a.to_multiset().len() == a.len());
    assert(b.to_multiset().len() == b.len());
    a.lemma_multiset_has_no_duplicates();
    b.lemma_multiset_has_no_duplicates_conv();
    assert forall|i: int| 0 <= i < n implies legal(#[trigger] b.take(n)[i]) by {
        assert(b.contains(b[i]));
        assert(b.to_multiset().count(b[i]) > 0);
        assert(a.to_multiset().count(b[i]) > 0);
        assert(a.contains(b[i]));
    }
    assert forall|i: int, j: int| 0 <= i < n && 0 <= j < n && i != j implies b.take(n)[i]
        != b.take(n)[j] by {
        assert(b[i] != b[j]);
    }
}

} // verus!
