//! The game engine. A driver advances it one call at a time:
//!
//! 1. `StarLanes::new`, then `reset`.
//! 2. `begin_turn`, then `get_moves`; if `game_is_over`, the game has ended.
//! 3. `make_move` with one of the moves, then `trade` through the active
//!    companies in ascending order, as long as the player wishes.
//! 4. `end_turn`; if `game_is_over`, the game has ended, else back to 2.
use crate::company::Company;
use crate::event::{Dividend, Event, MergeInfo};
use crate::map::{MapCell, Point, StarMap};
use crate::neighbors::{
    cell_at, lemma_neighbors_in_bounds, lemma_tally, neighbor_count, neighbor_points,
    NeighborCounts,
};
use crate::player::{Player, PlayerView};
use crate::random::{random_below, shuffle_points};
use crate::rules::{
    bonus_for, dividend_amount, doubled, largest_index, lemma_largest_first,
    lemma_split, merge_bonus, merge_new_stock, new_stock_for, split_count, split_price,
    DEFAULT_CANDIDATE_MOVE_COUNT, DEFAULT_FOUNDER_SHARES, DEFAULT_GROWTH_PRICE_BOOST,
    DEFAULT_MAX_COMPANY_COUNT, DEFAULT_MAX_TURNS, DEFAULT_OUTPOST_PRICE_BOOST,
    DEFAULT_STAR_PRICE_BOOST, DEFAULT_STOCK_SPLIT_FACTOR, DEFAULT_STOCK_SPLIT_LIMIT,
};
use crate::util::clamp_i64;
use crate::model::{
    GameView, stock_value_of, absorbed_infos, active_count, cash_after, consistent, dividends_due,
    first_free_from, form_outcome, fresh_player, grow_outcome, is_dividends, is_merge,
    lemma_all_active, lemma_dues_same, lemma_flat, lemma_fresh_roster, lemma_next_trade,
    lemma_no_free_from, lemma_shares_same, lemma_shuffled_prefix, lemma_size_sum_pair,
    lemma_size_sum_update, merge_infos, merge_outcome, merged_cash, merged_cell, merged_holding,
    merged_price, merged_size, move_common, move_events, moves_drawn, next_trade_from,
    outpost_outcome, paid_dues, placed, restocked, settled, shares_outstanding, size_sum,
    split_events,
};
use vstd::prelude::*;

verus! {

/// Why a trade was refused.
#[derive(Debug, Clone, Copy, PartialEq, Eq, Structural)]
pub enum TradeError {
    /// The player does not have enough cash to buy.
    TooLittleCash,
    /// The player does not have enough stock to sell.
    TooLittleStock,
}

impl TradeError {
    /// A short description of the error.
    pub fn message(&self) -> (s: &'static str) {
        match self {
            TradeError::TooLittleCash => "Not enough cash",
            TradeError::TooLittleStock => "Not enough stock",
        }
    }
}

/// Where the game stands; each call of the engine is legal in some states only.
#[derive(Debug, Clone, Copy, PartialEq, Eq, Structural)]
pub enum GameState {
    /// Before the game has begun: ready for `reset`.
    PreInit,
    /// A player begins a turn: ready for `begin_turn`.
    BeginTurn,
    /// A player moves: ready for `get_moves` and `make_move`.
    Move,
    /// A player trades in the company with this index; companies are traded in
    /// ascending order. Ready for `trade` and `end_turn`.
    Trade(usize),
    /// A player has completed the turn: ready for `end_turn`.
    EndTurn,
    /// The game is over: ready for `reset`.
    GameOver,
}

/// Options of a game.
#[derive(Debug, Clone, Copy, PartialEq, Eq, Structural)]
pub struct StarLanesOptions {
    /// Number of players in the game, 1 to 4.
    pub player_count: usize,
    /// Wizard (debugging) mode: moves are not checked against the candidates.
    pub wizard_mode: bool,
    /// Maximum number of turns in a game.
    pub max_turns: usize,
    /// Allow selling more shares than held, as the classic game did.
    pub allow_oversell: bool,
}

/// The options of the classic game, with no player count set.
pub open spec fn classic_options() -> StarLanesOptions {
    StarLanesOptions {
        player_count: 0,
        wizard_mode: false,
        max_turns: DEFAULT_MAX_TURNS,
        allow_oversell: true,
    }
}

impl StarLanesOptions {
    /// The options of the classic game, with no player count set.
    pub fn new() -> (o: Self)
        ensures
            o == classic_options(),
    {
        StarLanesOptions {
            player_count: 0,
            wizard_mode: false,
            max_turns: DEFAULT_MAX_TURNS,
            allow_oversell: true,
        }
    }
}

impl Default for StarLanesOptions {
    fn default() -> (o: Self)
        ensures
            o == classic_options(),
    {
        Self::new()
    }
}

/// The game.
#[derive(Debug)]
pub struct StarLanes {
    /// The game map.
    pub map: StarMap,
    /// Turns played so far.
    turn_number: usize,
    /// Where the game stands.
    state: GameState,
    /// Index of the current player.
    current_player: usize,
    /// The players.
    players: Vec<Player>,
    /// The number of company slots.
    max_company_count: usize,
    /// The company roster, active slots and free ones.
    companies: Vec<Company>,
    /// The moves offered to the current player this turn.
    candidate_moves: Vec<Point>,
    /// The options of the game.
    pub options: StarLanesOptions,
}

impl View for StarLanes {
    type V = GameView;

    closed spec fn view(&self) -> GameView {
        GameView {
            map: self.map,
            turn_number: self.turn_number as nat,
            state: self.state,
            current_player: self.current_player as nat,
            players: self.players@.map_values(|p: Player| p@),
            companies: self.companies@,
            candidates: self.candidate_moves@,
            options: self.options,
        }
    }
}

impl StarLanes {
    /// The state of the game is consistent.
    pub closed spec fn wf(&self) -> bool {
        &&& consistent(self@)
        &&& self.max_company_count == DEFAULT_MAX_COMPANY_COUNT
        &&& self.players@.len() == self@.players.len()
    }

    /// Create a new game, ready for `reset`.
    pub fn new() -> (g: Self)
        ensures
            g.wf(),
            g@.state == GameState::PreInit,
            g@.options == classic_options(),
    {
        Self::new_with_options(StarLanesOptions::new())
    }

    /// Create a new game with `options`, ready for `reset`.
    pub fn new_with_options(options: StarLanesOptions) -> (g: Self)
        ensures
            g.wf(),
            g@.state == GameState::PreInit,
            g@.options == options,
            g@.players.len() == 0,
            g@.candidates.len() == 0,
            g@.turn_number == 0,
            g@.current_player == 0,
            g@.map.width == crate::map::DEFAULT_WIDTH,
            g@.map.height == crate::map::DEFAULT_HEIGHT,
            g@.map.all_cells(MapCell::Space),
            forall|i: int|
                0 <= i < g@.companies.len() ==> #[trigger] g@.companies[i] == (Company {
                    in_use: false,
                    size: 0,
                    share_price: crate::company::INITIAL_SHARE_PRICE,
                }),
    {
        let map = StarMap::new();
        let mut companies: Vec<Company> = Vec::new();
        let mut i: usize = 0;
        while i < DEFAULT_MAX_COMPANY_COUNT
            invariant
                i <= DEFAULT_MAX_COMPANY_COUNT,
                companies@.len() == i,
                forall|k: int|
                    0 <= k < i ==> #[trigger] companies@[k] == (Company {
                        in_use: false,
                        size: 0,
                        share_price: crate::company::INITIAL_SHARE_PRICE,
                    }),
            decreases DEFAULT_MAX_COMPANY_COUNT - i,
        {
            companies.push(Company::new());
            i = i + 1;
        }
        proof {
            lemma_fresh_roster(companies@);
        }
        StarLanes {
            map,
            state: GameState::PreInit,
            current_player: 0,
            turn_number: 0,
            players: Vec::new(),
            max_company_count: DEFAULT_MAX_COMPANY_COUNT,
            companies,
            candidate_moves: Vec::new(),
            options,
        }
    }
}

impl Default for StarLanes {
    fn default() -> (g: Self)
        ensures
            g.wf(),
            g@.state == GameState::PreInit,
            g@.options == classic_options(),
    {
        Self::new()
    }
}

impl StarLanes {
    /// Return the number of active companies.
    fn active_company_count(&self) -> (n: usize)
        requires
            self.wf(),
        ensures
            n == active_count(self@.companies),
    {
        let mut count: usize = 0;
        let mut i: usize = 0;
        while i < self.companies.len()
            invariant
                i <= self.companies@.len(),
                self.companies@ == self@.companies,
                count == active_count(self@.companies.take(i as int)),
                count <= i,
            decreases self.companies@.len() - i,
        {
            proof {
                assert(self@.companies.take(i + 1).drop_last() =~= self@.companies.take(i as int));
            }
            if self.companies[i].in_use {
                count = count + 1;
            }
            i = i + 1;
        }
        proof {
            assert(self@.companies.take(i as int) =~= self@.companies);
        }
        count
    }

    /// Return true if a free company slot remains.
    fn companies_available(&self) -> (r: bool)
        requires
            self.wf(),
        ensures
            r == self@.companies_available(),
    {
        self.active_company_count() < self.max_company_count
    }

    /// The candidate moves of the current player. Within a turn every call returns
    /// the same moves. The first call draws them at random from the legal moves;
    /// where fewer legal moves remain than are offered, the game is over and none
    /// are returned.
    pub fn get_moves(&mut self) -> (r: Vec<Point>)
        requires
            old(self).wf(),
            old(self)@.state is Move,
        ensures
            final(self).wf(),
            moves_drawn(old(self)@, final(self)@, r@),
    {
        if self.candidate_moves.len() > 0 {
            let mut copy: Vec<Point> = Vec::new();
            let mut i: usize = 0;
            while i < self.candidate_moves.len()
                invariant
                    i <= self.candidate_moves@.len(),
                    copy@ == self.candidate_moves@.take(i as int),
                decreases self.candidate_moves@.len() - i,
            {
                proof {
                    assert(self.candidate_moves@.take(i + 1) =~= self.candidate_moves@.take(
                        i as int,
                    ).push(self.candidate_moves@[i as int]));
                }
                copy.push(self.candidate_moves[i]);
                i = i + 1;
            }
            proof {
                assert(self.candidate_moves@.take(i as int) =~= self.candidate_moves@);
            }
            return copy;
        }
        let ghost g = self@;
        let available = self.companies_available();
        let w = self.map.width;
        let n: usize = self.map.data.len();
        let mut candidates: Vec<Point> = Vec::new();
        let mut k: usize = 0;
        while k < n
            invariant
                self.wf(),
                self@ == g,
                available == g.companies_available(),
                w == g.map.width,
                n == g.map.width * g.map.height,
                k <= n,
                candidates@ == g.board_points().take(k as int).filter(
                    |p: Point| g.legal_move(p),
                ),
                candidates@.no_duplicates(),
                forall|i: int|
                    0 <= i < candidates@.len() ==> g.legal_move(#[trigger] candidates@[i])
                        && candidates@[i].0 * w + candidates@[i].1 < k,
            decreases n - k,
        {
            proof {
                lemma_flat(k as int, w as int, g.map.height as int);
            }
            let r = k / w;
            let c = k % w;
            let p = Point(r, c);
            proof {
                assert(g.board_points()[k as int] == p);
                assert(g.board_points().take(k + 1) =~= g.board_points().take(k as int).push(p));
                g.board_points().take(k as int).lemma_filter_push(p, |p: Point| g.legal_move(p));
            }
            if self.map.get(r, c) == MapCell::Space {
                let neighbors = neighbor_count(&self.map, r, c);
                if !(!available && neighbors.companies.len() == 0 && (neighbors.outposts.len() > 0
                    || neighbors.stars > 0)) {
                    proof {
                        assert forall|i: int| 0 <= i < candidates@.len() implies candidates@[i]
                            != p by {
                            assert(candidates@[i].0 * w + candidates@[i].1 < k);
                        }
                    }
                    candidates.push(p);
                }
            }
            k = k + 1;
        }
        proof {
            assert(g.board_points().take(n as int) =~= g.board_points());
        }
        let ghost found = candidates@;
        shuffle_points(&mut candidates);
        proof {
            lemma_shuffled_prefix(
                found,
                candidates@,
                if candidates@.len() < DEFAULT_CANDIDATE_MOVE_COUNT {
                    0
                } else {
                    DEFAULT_CANDIDATE_MOVE_COUNT as int
                },
                |p: Point| g.legal_move(p),
            );
        }
        if candidates.len() < DEFAULT_CANDIDATE_MOVE_COUNT {
            candidates.truncate(0);
            self.state = GameState::GameOver;
            return candidates;
        }
        candidates.truncate(DEFAULT_CANDIDATE_MOVE_COUNT);
        let mut keep: Vec<Point> = Vec::new();
        let mut i: usize = 0;
        while i < candidates.len()
            invariant
                i <= candidates@.len(),
                keep@ == candidates@.take(i as int),
            decreases candidates@.len() - i,
        {
            proof {
                assert(candidates@.take(i + 1) =~= candidates@.take(i as int).push(
                    candidates@[i as int],
                ));
            }
            keep.push(candidates[i]);
            i = i + 1;
        }
        proof {
            assert(candidates@.take(i as int) =~= candidates@);
        }
        self.candidate_moves = keep;
        candidates
    }

    /// Reset this game to the start: a fresh map, fresh players and a fresh
    /// roster; the starting player is drawn at random.
    pub fn reset(&mut self)
        requires
            old(self).wf(),
            old(self)@.state is PreInit || old(self)@.state is GameOver,
            1 <= old(self)@.options.player_count <= 4,
        ensures
            final(self).wf(),
            final(self)@.state == GameState::BeginTurn,
            final(self)@.turn_number == 0,
            final(self)@.options == old(self)@.options,
            final(self)@.players.len() == old(self)@.options.player_count,
            final(self)@.current_player < old(self)@.options.player_count,
            forall|i: int|
                0 <= i < final(self)@.players.len() ==> fresh_player(
                    #[trigger] final(self)@.players[i],
                ),
            forall|i: int|
                0 <= i < final(self)@.companies.len() ==> #[trigger] final(self)@.companies[i]
                    == (Company {
                    in_use: false,
                    size: 0,
                    share_price: crate::company::INITIAL_SHARE_PRICE,
                }),
            final(self)@.candidates.len() == 0,
            final(self)@.map.width == old(self)@.map.width,
            final(self)@.map.height == old(self)@.map.height,
            final(self)@.map.star_odds() == old(self)@.map.star_odds(),
            forall|r: int, c: int|
                final(self)@.map.in_bounds(r, c) ==> (#[trigger] final(self)@.map.cell(r, c)
                    == MapCell::Space || final(self)@.map.cell(r, c) == MapCell::Star),
    {
        self.map.regenerate();
        let count = self.options.player_count;
        self.turn_number = 0;
        self.current_player = random_below(count);
        let mut players: Vec<Player> = Vec::new();
        let mut i: usize = 0;
        while i < count
            invariant
                i <= count,
                players@.len() == i,
                forall|k: int| 0 <= k < i ==> fresh_player(#[trigger] players@[k]@),
            decreases count - i,
        {
            players.push(Player::new());
            i = i + 1;
        }
        let mut companies: Vec<Company> = Vec::new();
        let mut j: usize = 0;
        while j < DEFAULT_MAX_COMPANY_COUNT
            invariant
                j <= DEFAULT_MAX_COMPANY_COUNT,
                companies@.len() == j,
                forall|k: int|
                    0 <= k < j ==> #[trigger] companies@[k] == (Company {
                        in_use: false,
                        size: 0,
                        share_price: crate::company::INITIAL_SHARE_PRICE,
                    }),
            decreases DEFAULT_MAX_COMPANY_COUNT - j,
        {
            companies.push(Company::new());
            j = j + 1;
        }
        self.players = players;
        self.companies = companies;
        self.candidate_moves.clear();
        self.state = GameState::BeginTurn;
        proof {
            lemma_fresh_roster(self.companies@);
            assert forall|k: int| 0 <= k < self@.players.len() implies fresh_player(
                #[trigger] self@.players[k],
            ) by {
                assert(self@.players[k] == self.players@[k]@);
            }
        }
    }

    /// Returns the index of the current player.
    pub fn get_current_player_index(&self) -> (i: usize)
        ensures
            i == self@.current_player,
    {
        self.current_player
    }

    /// Returns the player with index `player_num`.
    pub fn get_player(&self, player_num: usize) -> (p: &Player)
        requires
            self.wf(),
            player_num < self@.players.len(),
        ensures
            p@ == self@.players[player_num as int],
    {
        &self.players[player_num]
    }

    /// Returns the current player.
    pub fn get_current_player(&self) -> (p: &Player)
        requires
            self.wf(),
            !(self@.state is PreInit),
        ensures
            p@ == self@.player(),
    {
        self.get_player(self.current_player)
    }

    /// The market value of the stock held by player `player_num` in the active
    /// companies, which with the player's cash makes up their net worth.
    pub fn stock_value(&self, player_num: usize) -> (v: i64)
        requires
            self.wf(),
            player_num < self@.players.len(),
        ensures
            v == stock_value_of(self@.companies, self@.players[player_num as int], self@.companies.len() as int),
    {
        let ghost pl = self@.players[player_num as int];
        let player = &self.players[player_num];
        let mut total: i64 = 0;
        let mut i: usize = 0;
        while i < self.companies.len()
            invariant
                i <= self.companies@.len(),
                self.companies@ == self@.companies,
                player@ == pl,
                total == stock_value_of(self@.companies, pl, i as int),
            decreases self.companies@.len() - i,
        {
            let c = self.companies[i];
            if c.in_use {
                let h = player.get_holdings(i);
                assert(-0x7fff_ffff_ffff_ffff_8000_0000_0000_0000 <= h * c.share_price
                    <= 0x7fff_ffff_ffff_ffff_8000_0000_0000_0000) by (nonlinear_arith)
                    requires
                        0 <= c.share_price <= u64::MAX,
                        i64::MIN <= h <= i64::MAX,
                ;
                let x: i128 = h as i128 * c.share_price as i128;
                total = crate::util::narrow_i64(total as i128 + x);
            }
            i = i + 1;
        }
        total
    }

    /// Returns the company with index `co_num`.
    pub fn get_company(&self, co_num: usize) -> (c: &Company)
        requires
            self.wf(),
            co_num < DEFAULT_MAX_COMPANY_COUNT,
        ensures
            *c == self@.companies[co_num as int],
    {
        &self.companies[co_num]
    }

    /// Returns the company roster.
    pub fn get_companies(&self) -> (cs: &Vec<Company>)
        ensures
            cs@ == self@.companies,
    {
        &self.companies
    }

    /// Returns where the game stands.
    pub fn get_state(&self) -> (s: GameState)
        ensures
            s == self@.state,
    {
        self.state
    }

    /// Start the turn of the current player.
    pub fn begin_turn(&mut self)
        requires
            old(self).wf(),
            old(self)@.state is BeginTurn,
        ensures
            final(self).wf(),
            final(self)@ == (GameView {
                state: GameState::Move,
                candidates: Seq::empty(),
                ..old(self)@
            }),
    {
        self.candidate_moves.clear();
        self.state = GameState::Move;
    }

    /// Return true if the game is over.
    pub fn game_is_over(&self) -> (r: bool)
        ensures
            r == (self@.state is GameOver),
    {
        self.state == GameState::GameOver
    }

    /// The trading state after `from`, for the classic game, where stock is traded
    /// company by company in ascending order.
    fn get_next_trade_state(&self, from: usize) -> (s: GameState)
        ensures
            s == next_trade_from(self@.companies, from as int),
    {
        let mut i: usize = from;
        while i < self.companies.len()
            invariant
                from <= i,
                next_trade_from(self@.companies, from as int) == next_trade_from(
                    self@.companies,
                    i as int,
                ),
                self@.companies == self.companies@,
            decreases self.companies@.len() - i,
        {
            if self.companies[i].in_use {
                return GameState::Trade(i);
            }
            i = i + 1;
        }
        GameState::EndTurn
    }

    /// Trade `amount` shares of company `co_num` at its share price; a negative
    /// amount sells. Buying beyond the player's cash fails with `TooLittleCash`;
    /// selling beyond the player's holdings fails with `TooLittleStock` unless the
    /// options allow it. A refused trade changes nothing; an accepted one moves on
    /// to the next active company, or to the end of the turn.
    pub fn trade(&mut self, co_num: usize, amount: i64) -> (r: Result<(), TradeError>)
        requires
            old(self).wf(),
            old(self)@.state == GameState::Trade(co_num),
        ensures
            final(self).wf(),
            ({
                let g = old(self)@;
                let pl = g.player();
                let cost = amount * g.companies[co_num as int].share_price;
                if !g.options.allow_oversell && amount < 0 && -amount > pl.holding(co_num as int) {
                    r == Err::<(), TradeError>(TradeError::TooLittleStock) && final(self)@ == g
                } else if cost > 0 && cost > pl.cash {
                    r == Err::<(), TradeError>(TradeError::TooLittleCash) && final(self)@ == g
                } else {
                    let h = final(self)@;
                    &&& r == Ok::<(), TradeError>(())
                    &&& h == (GameView {
                        players: h.players,
                        state: next_trade_from(g.companies, co_num + 1),
                        ..g
                    })
                    &&& h.players.len() == g.players.len()
                    &&& forall|j: int|
                        0 <= j < g.players.len() && j != g.current_player ==> #[trigger] h.players[j]
                            == g.players[j]
                    &&& pl.with_holding(
                        PlayerView { cash: pl.cash, ..h.player() },
                        co_num as int,
                        clamp_i64(pl.holding(co_num as int) + amount),
                    )
                    &&& h.player().cash == clamp_i64(pl.cash - cost)
                }
            }),
    {
        let cur = self.current_player;
        let holdings = self.players[cur].get_holdings(co_num);
        let cash = self.players[cur].get_cash();
        if !self.options.allow_oversell && amount < 0 && -(amount as i128) > holdings as i128 {
            return Err(TradeError::TooLittleStock);
        }
        let price = self.companies[co_num].share_price;
        assert(-0x4000_0000_0000_0000_0000 <= amount * price <= 0x4000_0000_0000_0000_0000)
            by (nonlinear_arith)
            requires
                0 <= price <= DEFAULT_STOCK_SPLIT_LIMIT,
                i64::MIN <= amount <= i64::MAX,
        ;
        let cost: i128 = amount as i128 * price as i128;
        if cost > 0 && cost > cash as i128 {
            return Err(TradeError::TooLittleCash);
        }
        let ghost g = self@;
        let mut player = self.players.remove(cur);
        player.add_holdings_signed(co_num, amount);
        player.set_cash(crate::util::narrow_i64(cash as i128 - cost));
        self.players.insert(cur, player);
        proof {
            lemma_next_trade(self.companies@, co_num + 1);
            assert(self@.players =~= g.players.update(cur as int, player@));
        }
        self.state = self.get_next_trade_state(co_num + 1);
        Ok(())
    }

    /// Wrap up the current player's turn: the game ends when the turn limit is
    /// reached, else the next player begins.
    pub fn end_turn(&mut self)
        requires
            old(self).wf(),
            old(self)@.state is EndTurn || old(self)@.state is Trade,
        ensures
            final(self).wf(),
            final(self)@ == if old(self)@.turn_number + 1 >= old(self)@.options.max_turns {
                GameView {
                    turn_number: old(self)@.turn_number + 1,
                    state: GameState::GameOver,
                    ..old(self)@
                }
            } else {
                GameView {
                    turn_number: old(self)@.turn_number + 1,
                    current_player: ((old(self)@.current_player + 1) % old(
                        self,
                    )@.players.len()) as nat,
                    state: GameState::BeginTurn,
                    ..old(self)@
                }
            },
    {
        self.turn_number = self.turn_number + 1;
        if self.turn_number >= self.options.max_turns {
            self.state = GameState::GameOver;
            return;
        }
        self.current_player = (self.current_player + 1) % self.players.len();
        self.state = GameState::BeginTurn;
    }
}

impl StarLanes {
    /// The state is settled up to company `exempt`, see `settled`.
    closed spec fn in_move(&self, exempt: int) -> bool {
        &&& settled(self@, exempt)
        &&& self.max_company_count == DEFAULT_MAX_COMPANY_COUNT
        &&& self.players@.len() == self@.players.len()
    }

    /// Split the stock of company `co` as long as its share price exceeds the limit:
    /// each split halves the price, doubles every player's holdings and is reported.
    fn stock_split(&mut self, co: usize, events: &mut Vec<Event>)
        requires
            old(self).in_move(co as int),
            co < DEFAULT_MAX_COMPANY_COUNT,
            old(self)@.companies[co as int].in_use,
        ensures
            final(self).in_move(-1),
            ({
                let g = old(self)@;
                let c = g.companies[co as int];
                let n = split_count(c.share_price as nat);
                &&& final(self)@ == (GameView {
                    companies: g.companies.update(
                        co as int,
                        Company { share_price: split_price(c.share_price as nat) as u64, ..c },
                    ),
                    players: final(self)@.players,
                    ..g
                })
                &&& final(self)@.players.len() == g.players.len()
                &&& forall|j: int|
                    0 <= j < g.players.len() ==> g.players[j].with_holding(
                        #[trigger] final(self)@.players[j],
                        co as int,
                        doubled(g.players[j].holding(co as int), n),
                    )
                &&& final(events)@ == old(events)@ + split_events(co, n)
            }),
    {
        let ghost g = self@;
        let ghost c0 = g.companies[co as int];
        let ghost ev0 = events@;
        let ghost mut k: nat = 0;
        proof {
            lemma_split(c0.share_price as nat);
            assert(g.companies.update(co as int, c0) =~= g.companies);
        }
        while self.companies[co].share_price > DEFAULT_STOCK_SPLIT_LIMIT
            invariant
                self.in_move(co as int),
                co < DEFAULT_MAX_COMPANY_COUNT,
                g.companies.len() == DEFAULT_MAX_COMPANY_COUNT,
                c0 == g.companies[co as int],
                0 < self@.companies[co as int].share_price,
                split_price(self@.companies[co as int].share_price as nat) == split_price(
                    c0.share_price as nat,
                ),
                k + split_count(self@.companies[co as int].share_price as nat) == split_count(
                    c0.share_price as nat,
                ),
                self@ == (GameView {
                    companies: g.companies.update(
                        co as int,
                        Company { share_price: self@.companies[co as int].share_price, ..c0 },
                    ),
                    players: self@.players,
                    ..g
                }),
                self@.players.len() == g.players.len(),
                forall|j: int|
                    0 <= j < g.players.len() ==> g.players[j].with_holding(
                        #[trigger] self@.players[j],
                        co as int,
                        doubled(g.players[j].holding(co as int), k),
                    ),
                events@ == ev0 + split_events(co, k),
            decreases self@.companies[co as int].share_price,
        {
            let ghost before = self@;
            let mut c = self.companies[co];
            c.share_price = c.share_price / (DEFAULT_STOCK_SPLIT_FACTOR as u64);
            self.companies.set(co, c);
            proof {
                lemma_size_sum_update(before.companies, co as int, c);
                lemma_split(c.share_price as nat);
            }
            let mut j: usize = 0;
            while j < self.players.len()
                invariant
                    j <= self.players@.len(),
                    co < DEFAULT_MAX_COMPANY_COUNT,
                    self.max_company_count == DEFAULT_MAX_COMPANY_COUNT,
                    self.players@.len() == before.players.len(),
                    self@ == (GameView {
                        companies: before.companies.update(co as int, c),
                        players: self@.players,
                        ..before
                    }),
                    forall|q: int|
                        0 <= q < before.players.len() ==> if q < j {
                            before.players[q].with_holding(
                                #[trigger] self@.players[q],
                                co as int,
                                clamp_i64(before.players[q].holding(co as int) * 2),
                            )
                        } else {
                            self@.players[q] == before.players[q]
                        },
                decreases self.players@.len() - j,
            {
                let ghost mid = self@;
                proof {
                    assert(mid.players[j as int] == self.players@[j as int]@);
                }
                let mut pl = self.players.remove(j);
                pl.mul_holdings(co, DEFAULT_STOCK_SPLIT_FACTOR);
                self.players.insert(j, pl);
                proof {
                    assert(self@.players =~= mid.players.update(j as int, pl@));
                }
                j = j + 1;
            }
            events.push(Event::Split(co, DEFAULT_STOCK_SPLIT_FACTOR));
            proof {
                k = k + 1;
                assert(events@ =~= ev0 + split_events(co, k));
                assert(self@.companies =~= g.companies.update(
                    co as int,
                    Company { share_price: self@.companies[co as int].share_price, ..c0 },
                ));
            }
        }
        proof {
            lemma_split(self@.companies[co as int].share_price as nat);
        }
    }

    /// Pay the current player a dividend on each active company, and report them.
    fn dividends(&mut self, events: &mut Vec<Event>)
        requires
            old(self).in_move(-1),
        ensures
            final(self).in_move(-1),
            ({
                let g = old(self)@;
                let dues = dividends_due(g.companies, g.player(), g.companies.len() as int);
                &&& final(self)@ == (GameView {
                    players: g.players.update(
                        g.current_player as int,
                        PlayerView { cash: cash_after(g.player().cash, dues), ..g.player() },
                    ),
                    ..g
                })
                &&& if dues.len() > 0 {
                    final(events)@.len() == old(events)@.len() + 1 && final(events)@.drop_last()
                        == old(events)@ && is_dividends(final(events)@.last(), dues)
                } else {
                    final(events)@ == old(events)@
                }
            }),
    {
        let ghost g = self@;
        let cur = self.current_player;
        let mut player = self.players.remove(cur);
        let ghost payee = player@;
        let mut dividends: Vec<Dividend> = Vec::new();
        let mut idx: usize = 0;
        while idx < self.companies.len()
            invariant
                idx <= self.companies@.len(),
                self.companies@ == g.companies,
                player@ == (PlayerView {
                    cash: cash_after(payee.cash, dividends@),
                    ..payee
                }),
                dividends@ == dividends_due(g.companies, payee, idx as int),
            decreases self.companies@.len() - idx,
        {
            let c = self.companies[idx];
            if c.in_use {
                let amount = dividend_amount(c.share_price, player.get_holdings(idx));
                dividends.push(Dividend { company: idx, amount });
                player.add_cash(amount);
                proof {
                    assert(dividends@.drop_last() == dividends_due(g.companies, payee, idx as int));
                }
            }
            idx = idx + 1;
        }
        self.players.insert(cur, player);
        proof {
            assert(payee == g.player());
            assert(self@.players =~= g.players.update(cur as int, player@));
        }
        if dividends.len() > 0 {
            let ghost before = events@;
            events.push(Event::Dividends(dividends));
            proof {
                assert(events@.drop_last() =~= before);
            }
        }
    }
}

impl StarLanes {
    /// Activate the first free company slot. The current player, as founder, is
    /// granted the founder shares in it; every other player holds none.
    fn form_company(&mut self) -> (co: usize)
        requires
            old(self).in_move(-1),
            old(self)@.companies_available(),
            size_sum(old(self)@.companies) <= old(self)@.turn_number,
        ensures
            final(self).in_move(-1),
            co == first_free_from(old(self)@.companies, 0),
            co < DEFAULT_MAX_COMPANY_COUNT,
            !old(self)@.companies[co as int].in_use,
            final(self)@ == (GameView {
                companies: old(self)@.companies.update(
                    co as int,
                    Company { in_use: true, size: 1, share_price: DEFAULT_GROWTH_PRICE_BOOST },
                ),
                players: final(self)@.players,
                ..old(self)@
            }),
            final(self)@.players.len() == old(self)@.players.len(),
            forall|j: int|
                0 <= j < old(self)@.players.len() ==> old(self)@.players[j].with_holding(
                    #[trigger] final(self)@.players[j],
                    co as int,
                    if j == old(self)@.current_player {
                        DEFAULT_FOUNDER_SHARES
                    } else {
                        0
                    },
                ),
    {
        let ghost g = self@;
        let mut co: usize = 0;
        while co < self.companies.len() && self.companies[co].in_use
            invariant
                co <= self.companies@.len(),
                self.companies@ == g.companies,
                first_free_from(g.companies, 0) == first_free_from(g.companies, co as int),
            decreases self.companies@.len() - co,
        {
            co = co + 1;
        }
        proof {
            if co == self.companies@.len() {
                lemma_no_free_from(g.companies, 0);
                lemma_all_active(g.companies);
            }
        }
        let c = Company { in_use: true, size: 1, share_price: DEFAULT_GROWTH_PRICE_BOOST };
        self.companies.set(co, c);
        proof {
            lemma_size_sum_update(g.companies, co as int, c);
        }
        let ghost before = self@;
        let mut j: usize = 0;
        while j < self.players.len()
            invariant
                j <= self.players@.len(),
                co < DEFAULT_MAX_COMPANY_COUNT,
                self.max_company_count == DEFAULT_MAX_COMPANY_COUNT,
                self.players@.len() == before.players.len(),
                self@ == (GameView { players: self@.players, ..before }),
                forall|q: int|
                    0 <= q < before.players.len() ==> if q < j {
                        before.players[q].with_holding(
                            #[trigger] self@.players[q],
                            co as int,
                            if q == before.current_player {
                                DEFAULT_FOUNDER_SHARES
                            } else {
                                0
                            },
                        )
                    } else {
                        self@.players[q] == before.players[q]
                    },
            decreases self.players@.len() - j,
        {
            let ghost mid = self@;
            proof {
                assert(mid.players[j as int] == self.players@[j as int]@);
            }
            let holdings = if j == self.current_player {
                DEFAULT_FOUNDER_SHARES
            } else {
                0
            };
            let mut pl = self.players.remove(j);
            pl.set_holdings(co, holdings);
            self.players.insert(j, pl);
            proof {
                assert(self@.players =~= mid.players.update(j as int, pl@));
            }
            j = j + 1;
        }
        co
    }

    /// Grow company `co` by one cell.
    fn grow_company(&mut self, co: usize)
        requires
            old(self).in_move(-1),
            co < DEFAULT_MAX_COMPANY_COUNT,
            old(self)@.companies[co as int].in_use,
            size_sum(old(self)@.companies) <= old(self)@.turn_number,
        ensures
            final(self).in_move(co as int),
            final(self)@.companies[co as int].share_price <= DEFAULT_STOCK_SPLIT_LIMIT
                + DEFAULT_GROWTH_PRICE_BOOST,
            final(self)@ == (GameView {
                companies: old(self)@.companies.update(
                    co as int,
                    Company {
                        size: (old(self)@.companies[co as int].size + 1) as u64,
                        share_price: (old(self)@.companies[co as int].share_price
                            + DEFAULT_GROWTH_PRICE_BOOST) as u64,
                        ..old(self)@.companies[co as int]
                    },
                ),
                ..old(self)@
            }),
    {
        let ghost g = self@;
        let mut c = self.companies[co];
        proof {
            lemma_size_sum_update(g.companies, co as int, Company { in_use: false, ..c });
        }
        c.size = c.size + 1;
        c.share_price = c.share_price + DEFAULT_GROWTH_PRICE_BOOST;
        self.companies.set(co, c);
        proof {
            lemma_size_sum_update(g.companies, co as int, c);
        }
    }

    /// Clean up after forming or growing company `co` by a move at `move_point`:
    /// the share price rises for each adjacent star and outpost, the adjacent
    /// outposts and the moved-into cell join the company, and the stock splits if
    /// its price calls for it.
    fn tidy_company(
        &mut self,
        co: usize,
        move_point: Point,
        neighbors: &NeighborCounts,
        events: &mut Vec<Event>,
    )
        requires
            old(self).in_move(co as int),
            co < DEFAULT_MAX_COMPANY_COUNT,
            old(self)@.companies[co as int].in_use,
            old(self)@.companies[co as int].share_price <= DEFAULT_STOCK_SPLIT_LIMIT
                + DEFAULT_GROWTH_PRICE_BOOST,
            old(self)@.in_bounds(move_point),
            neighbors.matches(old(self)@.tally_at(move_point)),
        ensures
            final(self).in_move(-1),
            ({
                let g = old(self)@;
                let h = final(self)@;
                let t = g.tally_at(move_point);
                let c = g.companies[co as int];
                let price = c.share_price + DEFAULT_STAR_PRICE_BOOST * t.stars
                    + DEFAULT_OUTPOST_PRICE_BOOST * t.outposts.len();
                let n = split_count(price as nat);
                &&& h == (GameView {
                    map: h.map,
                    companies: g.companies.update(
                        co as int,
                        Company { share_price: split_price(price as nat) as u64, ..c },
                    ),
                    players: h.players,
                    ..g
                })
                &&& h.map.width == g.map.width
                &&& h.map.height == g.map.height
                &&& h.map.star_odds() == g.map.star_odds()
                &&& forall|r: int, q: int|
                    g.map.in_bounds(r, q) ==> #[trigger] h.map.cell(r, q) == if (r == move_point.0
                        && q == move_point.1) || t.outposts.contains(Point(r as usize, q as usize)) {
                        MapCell::Company(co as u32)
                    } else {
                        g.map.cell(r, q)
                    }
                &&& h.players.len() == g.players.len()
                &&& forall|j: int|
                    0 <= j < g.players.len() ==> g.players[j].with_holding(
                        #[trigger] h.players[j],
                        co as int,
                        doubled(g.players[j].holding(co as int), n),
                    )
                &&& final(events)@ == old(events)@ + split_events(co, n)
            }),
    {
        let ghost g = self@;
        let ghost t = g.tally_at(move_point);
        proof {
            lemma_tally(g.map, neighbor_points(g.map, move_point.0 as int, move_point.1 as int));
            lemma_neighbors_in_bounds(g.map, move_point.0 as int, move_point.1 as int);
        }
        let mut c = self.companies[co];
        c.share_price = c.share_price + DEFAULT_STAR_PRICE_BOOST * neighbors.stars as u64
            + DEFAULT_OUTPOST_PRICE_BOOST * neighbors.outposts.len() as u64;
        self.companies.set(co, c);
        proof {
            lemma_size_sum_update(g.companies, co as int, c);
        }
        let ghost g1 = self@;
        let ghost pts = neighbor_points(g.map, move_point.0 as int, move_point.1 as int);
        assert forall|k: int| 0 <= k < t.outposts.len() implies g.map.in_bounds(
            #[trigger] t.outposts[k].0 as int,
            t.outposts[k].1 as int,
        ) by {
            assert(t.outposts.contains(t.outposts[k]));
            let x = choose|x: int| 0 <= x < pts.len() && pts[x] == t.outposts[k];
            assert(g.map.in_bounds(pts[x].0 as int, pts[x].1 as int));
        }
        let mut i: usize = 0;
        while i < neighbors.outposts.len()
            invariant
                i <= neighbors.outposts@.len(),
                neighbors.outposts@ == t.outposts,
                co < DEFAULT_MAX_COMPANY_COUNT,
                self.in_move(co as int),
                g1.companies[co as int].in_use,
                self@ == (GameView { map: self@.map, ..g1 }),
                self@.map.width == g.map.width,
                self@.map.height == g.map.height,
                self@.map.star_odds() == g.map.star_odds(),
                forall|k: int|
                    0 <= k < t.outposts.len() ==> g.map.in_bounds(
                        #[trigger] t.outposts[k].0 as int,
                        t.outposts[k].1 as int,
                    ),
                forall|r: int, q: int|
                    g.map.in_bounds(r, q) ==> #[trigger] self@.map.cell(r, q) == if t.outposts.take(
                        i as int,
                    ).contains(Point(r as usize, q as usize)) {
                        MapCell::Company(co as u32)
                    } else {
                        g.map.cell(r, q)
                    },
            decreases neighbors.outposts@.len() - i,
        {
            let q = neighbors.outposts[i];
            proof {
                assert(t.outposts.take(i + 1) =~= t.outposts.take(i as int).push(q));
            }
            let ghost before = self@.map;
            proof {
                assert(t.outposts[i as int] == q);
            }
            self.map.set(q.0, q.1, MapCell::Company(co as u32));
            assert forall|r: int, qq: int| g.map.in_bounds(r, qq) implies #[trigger] self@.map.cell(
                r,
                qq,
            ) == if t.outposts.take(i + 1).contains(Point(r as usize, qq as usize)) {
                MapCell::Company(co as u32)
            } else {
                g.map.cell(r, qq)
            } by {
                let pt = Point(r as usize, qq as usize);
                assert(before.cell(r, qq) == if t.outposts.take(i as int).contains(pt) {
                    MapCell::Company(co as u32)
                } else {
                    g.map.cell(r, qq)
                });
                if pt == q {
                    assert(t.outposts.take(i + 1)[i as int] == q);
                } else {
                    if t.outposts.take(i + 1).contains(pt) {
                        let x = choose|x: int| 0 <= x < i + 1 && #[trigger] t.outposts.take(i + 1)[x] == pt;
                        assert(t.outposts.take(i as int)[x] == pt);
                    }
                    if t.outposts.take(i as int).contains(pt) {
                        let x = choose|x: int| 0 <= x < i && #[trigger] t.outposts.take(i as int)[x] == pt;
                        assert(t.outposts.take(i + 1)[x] == pt);
                    }
                }
            }
            i = i + 1;
        }
        proof {
            assert(t.outposts.take(i as int) =~= t.outposts);
        }
        self.map.set(move_point.0, move_point.1, MapCell::Company(co as u32));
        let ghost g2 = self@;
        self.stock_split(co, events);
        proof {
            assert(self@.companies =~= g.companies.update(
                co as int,
                Company { share_price: self@.companies[co as int].share_price, ..g.companies[co as int] },
            ));
        }
    }
}

impl StarLanes {
    /// Absorb company `absorbed` into company `survivor`: each player's stock in the
    /// absorbed company is exchanged for survivor stock and paid a bonus, the merge
    /// is reported, the absorbed company's cells join the survivor and its slot is
    /// freed, the survivor takes on its size and share price, and then splits if
    /// its price calls for it.
    fn absorb(&mut self, survivor: usize, absorbed: usize, events: &mut Vec<Event>)
        requires
            old(self).in_move(-1),
            survivor < DEFAULT_MAX_COMPANY_COUNT,
            absorbed < DEFAULT_MAX_COMPANY_COUNT,
            survivor != absorbed,
            old(self)@.companies[survivor as int].in_use,
            old(self)@.companies[absorbed as int].in_use,
            shares_outstanding(old(self)@.players, absorbed as int) != 0,
        ensures
            final(self).in_move(-1),
            ({
                let g = old(self)@;
                let h = final(self)@;
                let ca = g.companies[absorbed as int];
                let cs = g.companies[survivor as int];
                let total = shares_outstanding(g.players, absorbed as int);
                let price = cs.share_price + ca.share_price;
                let n = split_count(price as nat);
                let e0 = old(events)@.len() as int;
                &&& h == (GameView {
                    map: h.map,
                    companies: g.companies.update(
                        absorbed as int,
                        Company { in_use: false, ..ca },
                    ).update(
                        survivor as int,
                        Company {
                            size: (cs.size + ca.size) as u64,
                            share_price: split_price(price as nat) as u64,
                            ..cs
                        },
                    ),
                    players: h.players,
                    ..g
                })
                &&& h.companies[survivor as int].size == cs.size + ca.size
                &&& h.companies[survivor as int].share_price == split_price(price as nat)
                &&& h.map.width == g.map.width
                &&& h.map.height == g.map.height
                &&& h.map.star_odds() == g.map.star_odds()
                &&& forall|r: int, q: int|
                    g.map.in_bounds(r, q) ==> #[trigger] h.map.cell(r, q) == crate::map::converted(
                        g.map.cell(r, q),
                        absorbed as int,
                        survivor as int,
                    )
                &&& h.players.len() == g.players.len()
                &&& forall|j: int|
                    0 <= j < g.players.len() ==> {
                        let pj = g.players[j];
                        let hj = pj.holding(absorbed as int);
                        &&& (#[trigger] h.players[j]).cash == clamp_i64(
                            pj.cash + merge_bonus(ca.share_price, hj, total),
                        )
                        &&& pj.with_holding(
                            PlayerView { cash: pj.cash, ..h.players[j] },
                            survivor as int,
                            doubled(
                                clamp_i64(pj.holding(survivor as int) + merge_new_stock(hj)),
                                n,
                            ),
                        )
                    }
                &&& final(events)@.len() == e0 + 1 + n
                &&& final(events)@.take(e0) == old(events)@
                &&& is_merge(
                    final(events)@[e0],
                    survivor,
                    absorbed,
                    merge_infos(g.players, ca.share_price, absorbed as int, total),
                )
                &&& final(events)@.skip(e0 + 1) == split_events(survivor, n)
            }),
    {
        let ghost g = self@;
        let ghost ev0 = events@;
        let ghost total_spec = shares_outstanding(g.players, absorbed as int);
        let total = self.total_shares_outstanding(absorbed);
        let ca = self.companies[absorbed];
        let mut infos: Vec<MergeInfo> = Vec::new();
        let mut j: usize = 0;
        while j < self.players.len()
            invariant
                j <= self.players@.len(),
                self.players@.len() == g.players.len(),
                self.max_company_count == DEFAULT_MAX_COMPANY_COUNT,
                survivor < DEFAULT_MAX_COMPANY_COUNT,
                absorbed < DEFAULT_MAX_COMPANY_COUNT,
                survivor != absorbed,
                total == total_spec,
                total != 0,
                -0x8000_0000_0000_0000 * 4 <= total <= 0x8000_0000_0000_0000 * 4,
                ca == g.companies[absorbed as int],
                ca.share_price <= DEFAULT_STOCK_SPLIT_LIMIT,
                self@ == (GameView { players: self@.players, ..g }),
                infos@ == merge_infos(g.players, ca.share_price, absorbed as int, total_spec).take(
                    j as int,
                ),
                forall|q: int|
                    0 <= q < g.players.len() ==> if q < j {
                        let pj = g.players[q];
                        let hj = pj.holding(absorbed as int);
                        &&& (#[trigger] self@.players[q]).cash == clamp_i64(
                            pj.cash + merge_bonus(ca.share_price, hj, total_spec),
                        )
                        &&& pj.with_holding(
                            PlayerView { cash: pj.cash, ..self@.players[q] },
                            survivor as int,
                            clamp_i64(pj.holding(survivor as int) + merge_new_stock(hj)),
                        )
                    } else {
                        self@.players[q] == g.players[q]
                    },
            decreases self.players@.len() - j,
        {
            let ghost mid = self@;
            proof {
                assert(mid.players[j as int] == self.players@[j as int]@);
            }
            let mut pl = self.players.remove(j);
            let old_stock = pl.get_holdings(absorbed);
            let new_stock = new_stock_for(old_stock);
            let bonus_paid = bonus_for(ca.share_price, old_stock, total);
            pl.add_holdings_signed(survivor, new_stock);
            pl.add_cash(bonus_paid);
            self.players.insert(j, pl);
            infos.push(MergeInfo { old_stock, new_stock, bonus_paid });
            proof {
                assert(self@.players =~= mid.players.update(j as int, pl@));
                assert(infos@ =~= merge_infos(g.players, ca.share_price, absorbed as int, total_spec).take(
                    j + 1,
                ));
            }
            j = j + 1;
        }
        proof {
            assert(infos@ =~= merge_infos(g.players, ca.share_price, absorbed as int, total_spec));
        }
        events.push(Event::Merge(survivor, absorbed, infos));
        let ghost g1 = self@;
        self.map.convert(absorbed, survivor);
        let mut a = self.companies[absorbed];
        a.in_use = false;
        self.companies.set(absorbed, a);
        proof {
            lemma_size_sum_pair(g.companies, survivor as int, absorbed as int);
            lemma_size_sum_update(g.companies, absorbed as int, a);
        }
        let ghost cos1 = self@.companies;
        let mut c = self.companies[survivor];
        c.size = c.size + ca.size;
        c.share_price = c.share_price + ca.share_price;
        self.companies.set(survivor, c);
        proof {
            lemma_size_sum_update(cos1, survivor as int, c);
        }
        let ghost ev1 = events@;
        self.stock_split(survivor, events);
        proof {
            assert(events@.take(ev0.len() as int) =~= ev0);
            assert(events@.skip(ev0.len() as int + 1) =~= split_events(
                survivor,
                split_count((c.share_price) as nat),
            ));
            assert(self@.companies =~= g.companies.update(
                absorbed as int,
                Company { in_use: false, ..ca },
            ).update(
                survivor as int,
                Company {
                    size: c.size,
                    share_price: split_price(c.share_price as nat) as u64,
                    ..g.companies[survivor as int]
                },
            ));
            let ghost h = self@;
            let ghost n = split_count(c.share_price as nat);
            assert(cos1[survivor as int] == g.companies[survivor as int]);
            lemma_split(c.share_price as nat);
            assert(h.companies[survivor as int].size == c.size);
            assert(h.companies[survivor as int].share_price == split_price(c.share_price as nat));
            assert forall|j: int| 0 <= j < g.players.len() implies {
                let pj = g.players[j];
                let hj = pj.holding(absorbed as int);
                &&& (#[trigger] h.players[j]).cash == clamp_i64(
                    pj.cash + merge_bonus(ca.share_price, hj, total_spec),
                )
                &&& pj.with_holding(
                    PlayerView { cash: pj.cash, ..h.players[j] },
                    survivor as int,
                    doubled(clamp_i64(pj.holding(survivor as int) + merge_new_stock(hj)), n),
                )
            } by {
                let pj = g.players[j];
                let mj = g1.players[j];
                let hj = pj.holding(absorbed as int);
                assert(mj.with_holding(h.players[j], survivor as int, doubled(mj.holding(survivor as int), n)));
                assert(pj.with_holding(
                    PlayerView { cash: pj.cash, ..mj },
                    survivor as int,
                    clamp_i64(pj.holding(survivor as int) + merge_new_stock(hj)),
                ));
                let y = PlayerView { cash: pj.cash, ..mj };
                assert(y.holding(survivor as int) == clamp_i64(
                    pj.holding(survivor as int) + merge_new_stock(hj),
                ));
                assert(mj.holding(survivor as int) == y.holding(survivor as int));
                let x = PlayerView { cash: pj.cash, ..h.players[j] };
                assert forall|k: int| #[trigger] x.holding(k) == if k == survivor {
                    doubled(clamp_i64(pj.holding(survivor as int) + merge_new_stock(hj)), n)
                } else {
                    pj.holding(k)
                } by {
                    assert(h.players[j].holding(k) == if k == survivor {
                        doubled(mj.holding(survivor as int), n)
                    } else {
                        mj.holding(k)
                    });
                    assert(y.holding(k) == mj.holding(k));
                    assert(x.holding(k) == h.players[j].holding(k));
                }
            }
        }
    }
}

impl StarLanes {
    /// Merge the companies next to `move_point`: the first largest of them survives,
    /// every other one is absorbed into it in scan order, and the moved-into cell
    /// joins the survivor. Returns the survivor.
    fn merge(&mut self, move_point: Point, neighbors: &NeighborCounts, events: &mut Vec<Event>) -> (s: usize)
        requires
            old(self).in_move(-1),
            old(self)@.in_bounds(move_point),
            neighbors.matches(old(self)@.tally_at(move_point)),
            old(self)@.tally_at(move_point).ids.len() > 1,
            forall|i: int|
                0 <= i < old(self)@.tally_at(move_point).ids.len() && old(self)@.tally_at(
                    move_point,
                ).ids[i] != old(self)@.survivor(move_point) ==> shares_outstanding(
                    old(self)@.players,
                    #[trigger] old(self)@.tally_at(move_point).ids[i] as int,
                ) != 0,
        ensures
            final(self).in_move(-1),
            ({
                let g = old(self)@;
                let h = final(self)@;
                let ids = g.tally_at(move_point).ids;
                &&& s == g.survivor(move_point)
                &&& s < DEFAULT_MAX_COMPANY_COUNT
                &&& h == (GameView {
                    map: h.map,
                    companies: h.companies,
                    players: h.players,
                    ..g
                })
                &&& h.players.len() == g.players.len()
                &&& h.companies[s as int].in_use
                &&& h.companies[s as int].size == merged_size(g.companies, ids, s as int, ids.len() as int)
                &&& h.companies[s as int].share_price == merged_price(
                    g.companies,
                    ids,
                    s as int,
                    ids.len() as int,
                )
                &&& forall|j: int|
                    0 <= j < g.players.len() ==> {
                        &&& (#[trigger] h.players[j]).holding(s as int) == merged_holding(
                            g.companies,
                            ids,
                            s as int,
                            g.players[j],
                            ids.len() as int,
                        )
                        &&& h.players[j].cash == merged_cash(
                            g.companies,
                            ids,
                            s as int,
                            g.players,
                            j,
                            ids.len() as int,
                        )
                        &&& h.players[j].starting_cash == g.players[j].starting_cash
                    }
                &&& forall|j: int, c: int|
                    0 <= j < g.players.len() && c != s ==> #[trigger] h.players[j].holding(c)
                        == g.players[j].holding(c)
                &&& forall|i: int|
                    0 <= i < ids.len() && ids[i] != s ==> !h.companies[#[trigger] ids[i] as int].in_use
                &&& forall|k: int|
                    0 <= k < DEFAULT_MAX_COMPANY_COUNT && !ids.contains(k as u32) ==> #[trigger] h.companies[k]
                        == g.companies[k]
                &&& h.map.width == g.map.width
                &&& h.map.height == g.map.height
                &&& h.map.star_odds() == g.map.star_odds()
                &&& forall|r: int, q: int|
                    g.map.in_bounds(r, q) ==> #[trigger] h.map.cell(r, q) == if r == move_point.0
                        && q == move_point.1 {
                        MapCell::Company(s as u32)
                    } else {
                        merged_cell(g.map.cell(r, q), ids, s)
                    }
                &&& final(events)@.len() >= old(events)@.len()
                &&& final(events)@.take(old(events)@.len() as int) == old(events)@
                &&& forall|i: int|
                    0 <= i < ids.len() && ids[i] != s ==> exists|k: int|
                        old(events)@.len() <= k < final(events)@.len() && is_merge(
                            #[trigger] final(events)@[k],
                            s,
                            ids[i] as usize,
                            absorbed_infos(g, ids[i] as int),
                        )
            }),
    {
        let ghost g = self@;
        let ghost t = g.tally_at(move_point);
        let ghost ids = t.ids;
        let ghost pts = neighbor_points(g.map, move_point.0 as int, move_point.1 as int);
        let ghost ev0 = events@;
        proof {
            lemma_tally(g.map, pts);
            lemma_neighbors_in_bounds(g.map, move_point.0 as int, move_point.1 as int);
            assert forall|i: int| 0 <= i < ids.len() implies #[trigger] ids[i] < DEFAULT_MAX_COMPANY_COUNT
                && g.companies[ids[i] as int].in_use by {
                assert(ids.contains(ids[i]));
                let q = choose|q: Point| #[trigger] pts.contains(q) && cell_at(g.map, q) == MapCell::Company(ids[i]);
                let x = choose|x: int| 0 <= x < pts.len() && pts[x] == q;
                assert(g.map.in_bounds(pts[x].0 as int, pts[x].1 as int));
            }
        }
        let survivor = self.survivor_of(move_point, neighbors);
        let mut idx: usize = 0;
        while idx < neighbors.company_ids.len()
            invariant
                idx <= ids.len(),
                neighbors.company_ids@ == ids,
                ids.no_duplicates(),
                survivor == g.survivor(move_point),
                survivor < DEFAULT_MAX_COMPANY_COUNT,
                ids.contains(survivor as u32),
                self.in_move(-1),
                forall|k: int| 0 <= k < ids.len() ==> #[trigger] ids[k] < DEFAULT_MAX_COMPANY_COUNT
                    && g.companies[ids[k] as int].in_use,
                forall|i: int|
                    0 <= i < ids.len() && ids[i] != survivor ==> shares_outstanding(
                        g.players,
                        #[trigger] ids[i] as int,
                    ) != 0,
                g.companies.len() == DEFAULT_MAX_COMPANY_COUNT,
                self@ == (GameView {
                    map: self@.map,
                    companies: self@.companies,
                    players: self@.players,
                    ..g
                }),
                self@.players.len() == g.players.len(),
                forall|j: int, c: int|
                    0 <= j < g.players.len() && c != survivor ==> #[trigger] self@.players[j].holding(c)
                        == g.players[j].holding(c),
                self@.companies[survivor as int].in_use,
                forall|c: int|
                    0 <= c < DEFAULT_MAX_COMPANY_COUNT && c != survivor ==> #[trigger] self@.companies[c]
                        == if ids.take(idx as int).contains(c as u32) {
                        Company { in_use: false, ..g.companies[c] }
                    } else {
                        g.companies[c]
                    },
                self@.map.width == g.map.width,
                self@.map.height == g.map.height,
                self@.map.star_odds() == g.map.star_odds(),
                forall|r: int, q: int|
                    g.map.in_bounds(r, q) ==> #[trigger] self@.map.cell(r, q) == merged_cell(
                        g.map.cell(r, q),
                        ids.take(idx as int),
                        survivor,
                    ),
                events@.len() >= ev0.len(),
                events@.take(ev0.len() as int) == ev0,
                forall|i: int|
                    0 <= i < idx && ids[i] != survivor ==> exists|k: int|
                        ev0.len() <= k < events@.len() && is_merge(
                            #[trigger] events@[k],
                            survivor,
                            ids[i] as usize,
                            absorbed_infos(g, ids[i] as int),
                        ),
                self@.companies[survivor as int].size == merged_size(
                    g.companies,
                    ids,
                    survivor as int,
                    idx as int,
                ),
                self@.companies[survivor as int].share_price == merged_price(
                    g.companies,
                    ids,
                    survivor as int,
                    idx as int,
                ),
                forall|j: int|
                    0 <= j < g.players.len() ==> {
                        &&& (#[trigger] self@.players[j]).holding(survivor as int) == merged_holding(
                            g.companies,
                            ids,
                            survivor as int,
                            g.players[j],
                            idx as int,
                        )
                        &&& self@.players[j].cash == merged_cash(
                            g.companies,
                            ids,
                            survivor as int,
                            g.players,
                            j,
                            idx as int,
                        )
                        &&& self@.players[j].starting_cash == g.players[j].starting_cash
                    },
            decreases ids.len() - idx,
        {
            let a = neighbors.company_ids[idx] as usize;
            let ghost before = self@;
            let ghost evb = events@;
            proof {
                assert(ids.take(idx + 1) =~= ids.take(idx as int).push(a as u32));
                assert(!ids.take(idx as int).contains(a as u32));
            }
            if a != survivor {
                proof {
                    lemma_shares_same(self@.players, g.players, a as int);
                }
                self.absorb(survivor, a, events);
                proof {
                    let ca = g.companies[a as int];
                    assert(before.companies[a as int] == ca);
                    assert(merged_size(g.companies, ids, survivor as int, idx + 1) == merged_size(
                        g.companies,
                        ids,
                        survivor as int,
                        idx as int,
                    ) + ca.size);
                    assert(merged_price(g.companies, ids, survivor as int, idx + 1) == split_price(
                        (merged_price(g.companies, ids, survivor as int, idx as int)
                            + ca.share_price) as nat,
                    ));
                    assert forall|j: int| 0 <= j < g.players.len() implies {
                        &&& (#[trigger] self@.players[j]).holding(survivor as int) == merged_holding(
                            g.companies,
                            ids,
                            survivor as int,
                            g.players[j],
                            idx + 1,
                        )
                        &&& self@.players[j].cash == merged_cash(
                            g.companies,
                            ids,
                            survivor as int,
                            g.players,
                            j,
                            idx + 1,
                        )
                        &&& self@.players[j].starting_cash == g.players[j].starting_cash
                    } by {
                        let bj = before.players[j];
                        let x = PlayerView { cash: bj.cash, ..self@.players[j] };
                        assert(x.holding(survivor as int) == self@.players[j].holding(survivor as int));
                        assert(bj.holding(a as int) == g.players[j].holding(a as int));
                    }
                    assert(merge_infos(
                        before.players,
                        before.companies[a as int].share_price,
                        a as int,
                        shares_outstanding(before.players, a as int),
                    ) =~= absorbed_infos(g, a as int));
                    assert forall|i: int|
                        0 <= i < idx + 1 && ids[i] != survivor implies exists|k: int|
                            ev0.len() <= k < events@.len() && is_merge(
                                #[trigger] events@[k],
                                survivor,
                                ids[i] as usize,
                                absorbed_infos(g, ids[i] as int),
                            ) by {
                        if i < idx {
                            let k = choose|k: int|
                                ev0.len() <= k < evb.len() && is_merge(
                                    #[trigger] evb[k],
                                    survivor,
                                    ids[i] as usize,
                                    absorbed_infos(g, ids[i] as int),
                                );
                            assert(events@.take(evb.len() as int)[k] == evb[k]);
                        } else {
                            assert(is_merge(
                                events@[evb.len() as int],
                                survivor,
                                ids[i] as usize,
                                absorbed_infos(g, ids[i] as int),
                            ));
                        }
                    }
                    assert forall|j: int, c: int|
                        0 <= j < g.players.len() && c != survivor implies #[trigger] self@.players[j].holding(c)
                            == g.players[j].holding(c) by {
                        let x = PlayerView { cash: before.players[j].cash, ..self@.players[j] };
                        assert(x.holding(c) == before.players[j].holding(c));
                        assert(x.holding(c) == self@.players[j].holding(c));
                    }
                    assert(events@.take(ev0.len() as int) =~= ev0) by {
                        assert forall|x: int| 0 <= x < ev0.len() implies events@[x] == ev0[x] by {
                            assert(events@.take(evb.len() as int)[x] == evb[x]);
                            assert(evb.take(ev0.len() as int)[x] == ev0[x]);
                        }
                    }
                }
            } else {
                proof {
                    assert(merged_size(g.companies, ids, survivor as int, idx + 1) == merged_size(
                        g.companies,
                        ids,
                        survivor as int,
                        idx as int,
                    ));
                    assert(merged_price(g.companies, ids, survivor as int, idx + 1) == merged_price(
                        g.companies,
                        ids,
                        survivor as int,
                        idx as int,
                    ));
                    assert forall|j: int| 0 <= j < g.players.len() implies merged_holding(
                        g.companies,
                        ids,
                        survivor as int,
                        g.players[j],
                        idx + 1,
                    ) == merged_holding(g.companies, ids, survivor as int, g.players[j], idx as int)
                        && merged_cash(g.companies, ids, survivor as int, g.players, j, idx + 1)
                        == merged_cash(g.companies, ids, survivor as int, g.players, j, idx as int) by {}
                }
            }
            assert forall|c: int| 0 <= c < DEFAULT_MAX_COMPANY_COUNT && c != survivor implies #[trigger] self@.companies[c]
                == if ids.take(idx + 1).contains(c as u32) {
                Company { in_use: false, ..g.companies[c] }
            } else {
                g.companies[c]
            } by {
                let id = c as u32;
                assert(before.companies[c] == if ids.take(idx as int).contains(id) {
                    Company { in_use: false, ..g.companies[c] }
                } else {
                    g.companies[c]
                });
                if c == a {
                    assert(ids.take(idx + 1)[idx as int] == id);
                } else {
                    if ids.take(idx as int).contains(id) {
                        let x = choose|x: int| 0 <= x < idx && #[trigger] ids.take(idx as int)[x] == id;
                        assert(ids.take(idx + 1)[x] == id);
                    }
                    if ids.take(idx + 1).contains(id) {
                        let x = choose|x: int| 0 <= x < idx + 1 && #[trigger] ids.take(idx + 1)[x] == id;
                        assert(ids.take(idx as int)[x] == id);
                    }
                }
            }
            assert forall|r: int, q: int| g.map.in_bounds(r, q) implies #[trigger] self@.map.cell(r, q)
                == merged_cell(g.map.cell(r, q), ids.take(idx + 1), survivor) by {
                let c = g.map.cell(r, q);
                assert(before.map.cell(r, q) == merged_cell(c, ids.take(idx as int), survivor));
                if let MapCell::Company(id) = c {
                    if id == a as u32 {
                        assert(ids.take(idx + 1).contains(id)) by {
                            assert(ids.take(idx + 1)[idx as int] == id);
                        }
                    }
                    if ids.take(idx as int).contains(id) {
                        let x = choose|x: int| 0 <= x < idx && #[trigger] ids.take(idx as int)[x] == id;
                        assert(ids.take(idx + 1)[x] == id);
                    }
                    if ids.take(idx + 1).contains(id) && id != a as u32 {
                        let x = choose|x: int| 0 <= x < idx + 1 && #[trigger] ids.take(idx + 1)[x] == id;
                        assert(ids.take(idx as int)[x] == id);
                    }
                }
            }
            idx = idx + 1;
        }
        proof {
            assert(ids.take(idx as int) =~= ids);
        }
        self.map.set(move_point.0, move_point.1, MapCell::Company(survivor as u32));
        survivor
    }
}

impl StarLanes {
    /// Make the current player's move at `move_point` and return what came of it.
    /// A cell next to no star, outpost or company becomes an outpost; one next to
    /// several companies merges them; one next to a single company grows it; one
    /// next to stars or outposts only founds a company. The current player then
    /// receives dividends, and trading opens at the first active company.
    pub fn make_move(&mut self, move_point: Point) -> (events: Vec<Event>)
        requires
            old(self).wf(),
            old(self)@.state is Move,
            old(self)@.move_allowed(move_point),
        ensures
            final(self).wf(),
            move_common(old(self)@, final(self)@, events@),
            old(self)@.tally_at(move_point).only_space() ==> outpost_outcome(
                old(self)@,
                final(self)@,
                move_point,
                events@,
            ),
            !old(self)@.tally_at(move_point).only_space() && old(self)@.tally_at(move_point).ids.len()
                > 1 ==> merge_outcome(old(self)@, final(self)@, move_point, events@),
            !old(self)@.tally_at(move_point).only_space() && old(self)@.tally_at(move_point).ids.len()
                == 1 ==> grow_outcome(old(self)@, final(self)@, move_point, events@),
            !old(self)@.tally_at(move_point).only_space() && old(self)@.tally_at(move_point).ids.len()
                == 0 ==> form_outcome(old(self)@, final(self)@, move_point, events@),
    {
        let ghost g = self@;
        let ghost t = g.tally_at(move_point);
        proof {
            if !g.options.wizard_mode {
                let i = choose|i: int| 0 <= i < g.candidates.len() && g.candidates[i] == move_point;
                assert(g.legal_move(g.candidates[i]));
            }
            lemma_tally(g.map, neighbor_points(g.map, move_point.0 as int, move_point.1 as int));
            lemma_neighbors_in_bounds(g.map, move_point.0 as int, move_point.1 as int);
        }
        let ghost mut pre_tidy = g;
        let mut events: Vec<Event> = Vec::new();
        let neighbors = neighbor_count(&self.map, move_point.0, move_point.1);
        if neighbors.only_space {
            self.map.set(move_point.0, move_point.1, MapCell::Outpost);
        } else if neighbors.discrete_companies > 1 {
            let survivor = self.merge(move_point, &neighbors, &mut events);
            proof {
                assert(survivor < DEFAULT_MAX_COMPANY_COUNT);
            }
        } else if neighbors.discrete_companies == 1 {
            let co = neighbors.company_ids[0] as usize;
            proof {
                assert(t.ids.contains(t.ids[0]));
            }
            self.grow_company(co);
            proof {
                pre_tidy = self@;
            }
            self.tidy_company(co, move_point, &neighbors, &mut events);
        } else if neighbors.only_stars_outposts {
            let co = self.form_company();
            proof {
                pre_tidy = self@;
            }
            self.tidy_company(co, move_point, &neighbors, &mut events);
            events.push(Event::CompanyFormed(co));
        }
        let ghost mid = self@;
        let ghost body = events@;
        self.dividends(&mut events);
        proof {
            lemma_dues_same(mid.companies, mid.player(), self@.player(), mid.companies.len() as int);
            lemma_next_trade(self@.companies, 0);
        }
        self.state = self.get_next_trade_state(0);
        proof {
            let h = self@;
            let dues = dividends_due(h.companies, h.player(), h.companies.len() as int);
            let bd = if dues.len() > 0 {
                events@.drop_last()
            } else {
                events@
            };
            assert(bd == body);
            if t.only_space() {
                assert(h.companies == g.companies);
                assert(placed(g.map, h.map, move_point, Seq::empty(), MapCell::Outpost));
                assert(paid_dues(g, h, dues));
                assert(body == Seq::<Event>::empty());
                assert(forall|j: int|
                        0 <= j < g.players.len() ==> restocked(
                            g.players[j],
                            #[trigger] h.players[j],
                            -1,
                            0,
                        ));
            }
            if !t.only_space() && t.ids.len() > 1 {
                let s = g.survivor(move_point);
                assert(h.companies[s as int].in_use);
                assert(h.map.width == g.map.width && h.map.height == g.map.height);
                assert(forall|i: int|
                        0 <= i < t.ids.len() && t.ids[i] != s ==> !h.companies[#[trigger] t.ids[i] as int].in_use);
                assert(forall|k: int|
                        0 <= k < DEFAULT_MAX_COMPANY_COUNT && !t.ids.contains(k as u32) ==> #[trigger] h.companies[k]
                            == g.companies[k]);
                assert(s < DEFAULT_MAX_COMPANY_COUNT);
                assert(move_events(h, events@) == body);

                assert(forall|r: int, q: int|
                        g.map.in_bounds(r, q) ==> #[trigger] h.map.cell(r, q) == if r == move_point.0
                            && q == move_point.1 {
                            MapCell::Company(s as u32)
                        } else {
                            merged_cell(g.map.cell(r, q), t.ids, s as usize)
                        });
                assert forall|i: int| 0 <= i < t.ids.len() && t.ids[i] != s implies exists|k: int|
                    0 <= k < body.len() && is_merge(
                        #[trigger] body[k],
                        s as usize,
                        t.ids[i] as usize,
                        absorbed_infos(g, t.ids[i] as int),
                    ) by {}
                assert forall|j: int| 0 <= j < g.players.len() implies {
                    &&& (#[trigger] h.players[j]).holding(s as int) == merged_holding(
                        g.companies,
                        t.ids,
                        s as int,
                        g.players[j],
                        t.ids.len() as int,
                    )
                    &&& h.players[j].starting_cash == g.players[j].starting_cash
                    &&& h.players[j].cash == if j == g.current_player {
                        cash_after(
                            merged_cash(g.companies, t.ids, s as int, g.players, j, t.ids.len() as int),
                            dues,
                        )
                    } else {
                        merged_cash(g.companies, t.ids, s as int, g.players, j, t.ids.len() as int)
                    }
                } by {
                    assert(h.players[j].holding(s as int) == mid.players[j].holding(s as int));
                }
                assert forall|j: int, c: int| 0 <= j < g.players.len() && c != s implies #[trigger] h.players[j].holding(c)
                    == g.players[j].holding(c) by {
                    assert(h.players[j].holding(c) == mid.players[j].holding(c));
                }
                assert(merge_outcome(g, h, move_point, events@));
            }
            if !t.only_space() && t.ids.len() == 1 {
                let co = t.ids[0] as int;
                let c = g.companies[co];
                let price = c.share_price + DEFAULT_GROWTH_PRICE_BOOST + DEFAULT_STAR_PRICE_BOOST
                    * t.stars + DEFAULT_OUTPOST_PRICE_BOOST * t.outposts.len();
                let n = split_count(price as nat);
                assert(h.companies == g.companies.update(
                        co,
                        Company {
                            size: (c.size + 1) as u64,
                            share_price: split_price(price as nat) as u64,
                            ..c
                        },
                    ));
                assert(placed(g.map, h.map, move_point, t.outposts, MapCell::Company(co as u32)));
                assert(body == split_events(co as usize, n));
                assert(paid_dues(g, h, dues));
                assert forall|j: int| 0 <= j < g.players.len() implies restocked(
                    g.players[j],
                    #[trigger] h.players[j],
                    co,
                    doubled(g.players[j].holding(co), n),
                ) by {
                    assert(h.players[j].holdings == mid.players[j].holdings);
                    assert(h.players[j].starting_cash == mid.players[j].starting_cash);
                    assert(pre_tidy.players[j] == g.players[j]);
                    assert forall|k: int| #[trigger] h.players[j].holding(k) == if k == co {
                        doubled(g.players[j].holding(co), n)
                    } else {
                        g.players[j].holding(k)
                    } by {
                        assert(mid.players[j].holding(k) == h.players[j].holding(k));
                    }
                }
            }
            if !t.only_space() && t.ids.len() == 0 {
                let co = first_free_from(g.companies, 0);
                let price = DEFAULT_GROWTH_PRICE_BOOST + DEFAULT_STAR_PRICE_BOOST * t.stars
                    + DEFAULT_OUTPOST_PRICE_BOOST * t.outposts.len();
                let n = split_count(price as nat);
                assert(h.companies == g.companies.update(
                        co,
                        Company {
                            in_use: true,
                            size: 1,
                            share_price: split_price(price as nat) as u64,
                        },
                    ));
                assert(placed(g.map, h.map, move_point, t.outposts, MapCell::Company(co as u32)));
                assert(body == split_events(co as usize, n).push(Event::CompanyFormed(co as usize)));
                assert(paid_dues(g, h, dues));
                assert(0 <= co < DEFAULT_MAX_COMPANY_COUNT);
                assert(!g.companies[co].in_use);
                assert forall|j: int| 0 <= j < g.players.len() implies restocked(
                    g.players[j],
                    #[trigger] h.players[j],
                    co,
                    doubled(
                        if j == g.current_player {
                            DEFAULT_FOUNDER_SHARES
                        } else {
                            0
                        },
                        n,
                    ),
                ) by {
                    assert(h.players[j].holdings == mid.players[j].holdings);
                    assert(h.players[j].starting_cash == mid.players[j].starting_cash);
                    let f: i64 = if j == g.current_player {
                        DEFAULT_FOUNDER_SHARES
                    } else {
                        0
                    };
                    assert(pre_tidy.players[j].holding(co) == f);
                    assert forall|k: int| #[trigger] h.players[j].holding(k) == if k == co {
                        doubled(f, n)
                    } else {
                        g.players[j].holding(k)
                    } by {
                        assert(mid.players[j].holding(k) == h.players[j].holding(k));
                        assert(pre_tidy.players[j].holding(k) == if k == co {
                            f
                        } else {
                            g.players[j].holding(k)
                        });
                    }
                }
            }
        }
        events
    }
}

impl StarLanes {
    /// Shares of company `co` held by all the players together.
    fn total_shares_outstanding(&self, co: usize) -> (total: i128)
        requires
            self@.players.len() <= 4,
            self.players@.len() == self@.players.len(),
        ensures
            total == shares_outstanding(self@.players, co as int),
            -0x8000_0000_0000_0000 * 4 <= total <= 0x8000_0000_0000_0000 * 4,
    {
        let ghost g = self@;
        let mut total: i128 = 0;
        let mut j: usize = 0;
        while j < self.players.len()
            invariant
                j <= self.players@.len(),
                self@ == g,
                self.players@.len() <= 4,
                self.players@.len() == g.players.len(),
                total == shares_outstanding(g.players.take(j as int), co as int),
                -0x8000_0000_0000_0000 * j <= total <= 0x8000_0000_0000_0000 * j,
            decreases self.players@.len() - j,
        {
            proof {
                assert(g.players.take(j + 1).drop_last() =~= g.players.take(j as int));
                assert(g.players[j as int] == self.players@[j as int]@);
            }
            total = total + self.players[j].get_holdings(co) as i128;
            j = j + 1;
        }
        proof {
            assert(g.players.take(j as int) =~= g.players);
        }
        total
    }

    /// The survivor of a merge at `move_point`: the first largest neighboring company.
    fn survivor_of(&self, move_point: Point, neighbors: &NeighborCounts) -> (s: usize)
        requires
            self.in_move(-1),
            self@.in_bounds(move_point),
            neighbors.matches(self@.tally_at(move_point)),
            self@.tally_at(move_point).ids.len() > 0,
        ensures
            s == self@.survivor(move_point),
            s < DEFAULT_MAX_COMPANY_COUNT,
            self@.tally_at(move_point).ids.contains(s as u32),
    {
        let ghost g = self@;
        let ghost t = g.tally_at(move_point);
        let ghost ids = t.ids;
        let ghost pts = neighbor_points(g.map, move_point.0 as int, move_point.1 as int);
        proof {
            lemma_tally(g.map, pts);
            lemma_neighbors_in_bounds(g.map, move_point.0 as int, move_point.1 as int);
            assert forall|i: int| 0 <= i < ids.len() implies #[trigger] ids[i] < DEFAULT_MAX_COMPANY_COUNT
                && g.companies[ids[i] as int].in_use by {
                assert(ids.contains(ids[i]));
                let q = choose|q: Point| #[trigger] pts.contains(q) && cell_at(g.map, q) == MapCell::Company(ids[i]);
                let x = choose|x: int| 0 <= x < pts.len() && pts[x] == q;
                assert(g.map.in_bounds(pts[x].0 as int, pts[x].1 as int));
            }
        }
        let mut sizes: Vec<u64> = Vec::new();
        let mut i: usize = 0;
        while i < neighbors.company_ids.len()
            invariant
                i <= ids.len(),
                neighbors.company_ids@ == ids,
                self@ == g,
                self.companies@ == g.companies,
                forall|k: int| 0 <= k < ids.len() ==> #[trigger] ids[k] < DEFAULT_MAX_COMPANY_COUNT
                    && g.companies[ids[k] as int].in_use,
                g.companies.len() == DEFAULT_MAX_COMPANY_COUNT,
                sizes@ == ids.take(i as int).map_values(|id: u32| g.companies[id as int].size),
            decreases ids.len() - i,
        {
            let id = neighbors.company_ids[i];
            sizes.push(self.companies[id as usize].size);
            proof {
                assert(sizes@ =~= ids.take(i + 1).map_values(|id: u32| g.companies[id as int].size));
            }
            i = i + 1;
        }
        let ghost all_sizes = ids.map_values(|id: u32| g.companies[id as int].size);
        proof {
            assert(ids.take(i as int) =~= ids);
            assert forall|k: int| 0 <= k < all_sizes.len() implies all_sizes[k] > 0 by {
                assert(ids[k] < DEFAULT_MAX_COMPANY_COUNT && g.companies[ids[k] as int].in_use);
            }
            lemma_largest_first(all_sizes);
        }
        let best = largest_index(&sizes);
        let k = match best {
            Some(k) => k,
            None => 0,
        };
        let survivor = neighbors.company_ids[k] as usize;
        proof {
            assert(ids[k as int] == survivor);
        }
        survivor
    }

    /// True if `make_move` may be called at `move_point`: see `GameView::move_allowed`.
    pub fn can_make_move(&self, move_point: Point) -> (r: bool)
        requires
            self.wf(),
            self@.state is Move,
        ensures
            r == self@.move_allowed(move_point),
    {
        let ghost g = self@;
        if self.options.wizard_mode {
            if !(move_point.0 < self.map.height && move_point.1 < self.map.width) {
                return false;
            }
        } else {
            let mut found = false;
            let mut i: usize = 0;
            while i < self.candidate_moves.len()
                invariant
                    i <= self.candidate_moves@.len(),
                    found == self.candidate_moves@.take(i as int).contains(move_point),
                decreases self.candidate_moves@.len() - i,
            {
                proof {
                    assert(self.candidate_moves@.take(i + 1) =~= self.candidate_moves@.take(
                        i as int,
                    ).push(self.candidate_moves@[i as int]));
                }
                let hit = self.candidate_moves[i] == move_point;
                proof {
                    let s1 = self.candidate_moves@.take(i as int);
                    let s2 = self.candidate_moves@.take(i + 1);
                    if s1.contains(move_point) {
                        let x = choose|x: int| 0 <= x < s1.len() && s1[x] == move_point;
                        assert(s2[x] == move_point);
                    }
                    if hit {
                        assert(s2[i as int] == move_point);
                    }
                    if s2.contains(move_point) && !hit {
                        let x = choose|x: int| 0 <= x < s2.len() && s2[x] == move_point;
                        assert(s1[x] == move_point);
                    }
                }
                if hit {
                    found = true;
                }
                i = i + 1;
            }
            proof {
                assert(self.candidate_moves@.take(i as int) =~= self.candidate_moves@);
            }
            if !found {
                return false;
            }
            proof {
                let i = choose|i: int| 0 <= i < g.candidates.len() && g.candidates[i] == move_point;
                assert(g.legal_move(g.candidates[i]));
            }
        }
        let neighbors = neighbor_count(&self.map, move_point.0, move_point.1);
        if self.options.wizard_mode && neighbors.only_stars_outposts && !self.companies_available() {
            return false;
        }
        if neighbors.discrete_companies > 1 {
            let survivor = self.survivor_of(move_point, &neighbors);
            let mut i: usize = 0;
            while i < neighbors.company_ids.len()
                invariant
                    i <= neighbors.company_ids@.len(),
                    self@ == g,
                    self.wf(),
                    neighbors.company_ids@ == g.tally_at(move_point).ids,
                    g.tally_at(move_point).ids.len() > 1,
                    survivor == g.survivor(move_point),
                    forall|k: int|
                        0 <= k < i && g.tally_at(move_point).ids[k] != survivor ==> shares_outstanding(
                            g.players,
                            #[trigger] g.tally_at(move_point).ids[k] as int,
                        ) != 0,
                decreases neighbors.company_ids@.len() - i,
            {
                let id = neighbors.company_ids[i] as usize;
                if id != survivor && self.total_shares_outstanding(id) == 0 {
                    proof {
                        assert(g.tally_at(move_point).ids[i as int] != g.survivor(move_point));
                        assert(shares_outstanding(
                            g.players,
                            g.tally_at(move_point).ids[i as int] as int,
                        ) == 0);
                    }
                    return false;
                }
                i = i + 1;
            }
        }
        true
    }
}

} // verus!
