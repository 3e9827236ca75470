use starlanes::event::Event;
use starlanes::map::{MapCell, Point};
use starlanes::starlanes::{GameState, StarLanes, StarLanesOptions, TradeError};

fn game(players: usize, wizard: bool) -> StarLanes {
    let mut options = StarLanesOptions::new();
    options.player_count = players;
    options.wizard_mode = wizard;
    let mut g = StarLanes::new_with_options(options);
    g.reset();
    g
}

fn fill(g: &mut StarLanes, v: MapCell) {
    for r in 0..g.map.height {
        for c in 0..g.map.width {
            g.map.set(r, c, v);
        }
    }
}

/// Plays one wizard move for the current player and ends the turn.
fn play(g: &mut StarLanes, p: Point) -> Vec<Event> {
    g.begin_turn();
    let events = g.make_move(p);
    g.end_turn();
    events
}

#[test]
fn reset_offers_five_distinct_space_moves() {
    for players in 1..=4 {
        let mut g = game(players, false);
        assert!(g.get_current_player_index() < players);
        fill(&mut g, MapCell::Space);
        g.begin_turn();
        let moves = g.get_moves();
        assert_eq!(moves.len(), 5);
        for (i, p) in moves.iter().enumerate() {
            assert!(p.0 < g.map.height && p.1 < g.map.width);
            assert_eq!(g.map.get(p.0, p.1), MapCell::Space);
            for q in &moves[i + 1..] {
                assert_ne!(p, q);
            }
        }
        assert!(!g.game_is_over());
    }
}

#[test]
fn get_moves_twice_gives_the_same_moves() {
    let mut g = game(2, false);
    g.begin_turn();
    let first = g.get_moves();
    let second = g.get_moves();
    assert_eq!(first, second);
    assert_eq!(g.get_state(), GameState::Move);
}

#[test]
fn moves_are_shuffled() {
    let mut differs = false;
    for _ in 0..20 {
        let mut g = game(1, false);
        fill(&mut g, MapCell::Space);
        g.begin_turn();
        let moves = g.get_moves();
        let first_cells: Vec<Point> = (0..5).map(|c| Point(0, c)).collect();
        if moves != first_cells {
            differs = true;
        }
    }
    assert!(differs);
}

#[test]
fn outpost_move_reports_nothing() {
    let mut g = game(1, true);
    fill(&mut g, MapCell::Space);
    let events = play(&mut g, Point(4, 4));
    assert!(events.is_empty());
    assert_eq!(g.map.get(4, 4), MapCell::Outpost);
    assert!(g.get_companies().iter().all(|c| !c.in_use));
}

#[test]
fn founding_grants_founder_shares_only() {
    let mut g = game(2, true);
    fill(&mut g, MapCell::Space);
    g.map.set(0, 0, MapCell::Star);
    let founder = g.get_current_player_index();
    let events = play(&mut g, Point(0, 1));
    assert!(matches!(events[0], Event::CompanyFormed(0)));
    match &events[1] {
        Event::Dividends(d) => {
            assert_eq!(d.len(), 1);
            assert_eq!(d[0].company, 0);
            assert_eq!(d[0].amount, 150);
        }
        _ => panic!("expected dividends"),
    }
    assert_eq!(events.len(), 2);
    assert_eq!(g.get_player(founder).get_holdings(0), 5);
    assert_eq!(g.get_player(1 - founder).get_holdings(0), 0);
    assert_eq!(g.get_player(founder).get_cash(), 6150);
    let c = g.get_company(0);
    assert!(c.in_use);
    assert_eq!(c.size, 1);
    assert_eq!(c.share_price, 600);
    assert_eq!(g.map.get(0, 1), MapCell::Company(0));
}

#[test]
fn founding_absorbs_outposts() {
    let mut g = game(1, true);
    fill(&mut g, MapCell::Space);
    g.map.set(3, 3, MapCell::Outpost);
    g.map.set(3, 5, MapCell::Star);
    play(&mut g, Point(3, 4));
    assert_eq!(g.get_company(0).share_price, 700);
    assert_eq!(g.map.get(3, 3), MapCell::Company(0));
    assert_eq!(g.map.get(3, 4), MapCell::Company(0));
    assert_eq!(g.map.get(3, 5), MapCell::Star);
}

#[test]
fn growing_by_a_star_cell_adds_growth_and_star_boost() {
    let mut g = game(1, true);
    fill(&mut g, MapCell::Space);
    g.map.set(0, 0, MapCell::Star);
    play(&mut g, Point(0, 1));
    assert_eq!(g.get_company(0).share_price, 600);
    g.map.set(2, 1, MapCell::Star);
    let events = play(&mut g, Point(1, 1));
    assert_eq!(g.get_company(0).share_price, 600 + 100 + 500);
    assert_eq!(g.get_company(0).size, 2);
    assert_eq!(events.len(), 1);
    assert!(matches!(events[0], Event::Dividends(_)));
}

#[test]
fn growing_past_the_limit_splits() {
    let mut g = game(1, true);
    fill(&mut g, MapCell::Space);
    g.map.set(1, 2, MapCell::Star);
    g.map.set(2, 1, MapCell::Star);
    g.map.set(2, 3, MapCell::Star);
    play(&mut g, Point(2, 2));
    assert_eq!(g.get_company(0).share_price, 1600);
    g.map.set(4, 2, MapCell::Star);
    g.map.set(3, 1, MapCell::Star);
    g.map.set(3, 3, MapCell::Star);
    let events = play(&mut g, Point(3, 2));
    assert!(matches!(events[0], Event::Split(0, 2)));
    assert_eq!(g.get_company(0).share_price, 1600);
    assert_eq!(g.get_player(0).get_holdings(0), 10);
    match &events[1] {
        Event::Dividends(d) => assert_eq!(d[0].amount, 800),
        _ => panic!("expected dividends"),
    }
}

/// Builds a company of `north_size` cells in column 5 ending at row 2 and one of
/// `south_size` cells starting at row 4, both founded next to a star; row 3 is free.
fn two_companies(north_size: usize, south_size: usize) -> StarLanes {
    let mut g = game(1, true);
    fill(&mut g, MapCell::Space);
    g.map.set(2, 6, MapCell::Star);
    play(&mut g, Point(2, 5));
    for k in 1..north_size {
        play(&mut g, Point(2 - k, 5));
    }
    g.map.set(4, 4, MapCell::Star);
    play(&mut g, Point(4, 5));
    for k in 1..south_size {
        play(&mut g, Point(4 + k, 5));
    }
    g
}

#[test]
fn merge_larger_north_company_survives() {
    let mut g = two_companies(2, 1);
    let south_price = g.get_company(1).share_price;
    let events = play(&mut g, Point(3, 5));
    match &events[0] {
        Event::Merge(s, a, info) => {
            assert_eq!((*s, *a), (0, 1));
            assert_eq!(info[0].old_stock, 5);
            assert_eq!(info[0].new_stock, 3);
            assert_eq!(info[0].bonus_paid, 10 * south_price as i64);
        }
        _ => panic!("expected a merge"),
    }
    assert!(g.get_company(0).in_use);
    assert!(!g.get_company(1).in_use);
    assert_eq!(g.get_company(0).size, 3);
    assert_eq!(g.map.get(4, 5), MapCell::Company(0));
    assert_eq!(g.map.get(3, 5), MapCell::Company(0));
    assert_eq!(g.get_player(0).get_holdings(0), 8);
}

#[test]
fn merge_larger_south_company_survives() {
    let mut g = two_companies(1, 2);
    let events = play(&mut g, Point(3, 5));
    assert!(matches!(events[0], Event::Merge(1, 0, _)));
    assert!(g.get_company(1).in_use);
    assert!(!g.get_company(0).in_use);
    assert_eq!(g.map.get(2, 5), MapCell::Company(1));
    assert_eq!(g.map.get(3, 5), MapCell::Company(1));
}

#[test]
fn merge_tie_goes_to_the_north_company() {
    let mut g = two_companies(1, 1);
    let events = play(&mut g, Point(3, 5));
    assert!(matches!(events[0], Event::Merge(0, 1, _)));
    assert!(!g.get_company(1).in_use);
}

#[test]
fn overselling_is_allowed_by_default() {
    let mut g = game(1, true);
    fill(&mut g, MapCell::Space);
    g.map.set(0, 0, MapCell::Star);
    g.begin_turn();
    g.make_move(Point(0, 1));
    let cash = g.get_player(0).get_cash();
    assert_eq!(g.get_state(), GameState::Trade(0));
    assert_eq!(g.trade(0, -10), Ok(()));
    assert_eq!(g.get_player(0).get_holdings(0), -5);
    assert_eq!(g.get_player(0).get_cash(), cash + 6000);
    assert_eq!(g.get_state(), GameState::EndTurn);
}

#[test]
fn overselling_refused_when_disabled() {
    let mut g = game(1, true);
    g.options.allow_oversell = false;
    fill(&mut g, MapCell::Space);
    g.map.set(0, 0, MapCell::Star);
    g.begin_turn();
    g.make_move(Point(0, 1));
    let cash = g.get_player(0).get_cash();
    assert_eq!(g.trade(0, -10), Err(TradeError::TooLittleStock));
    assert_eq!(g.get_player(0).get_holdings(0), 5);
    assert_eq!(g.get_player(0).get_cash(), cash);
    assert_eq!(g.get_state(), GameState::Trade(0));
    assert_eq!(g.trade(0, -5), Ok(()));
    assert_eq!(g.get_player(0).get_holdings(0), 0);
}

#[test]
fn buying_beyond_cash_is_refused() {
    let mut g = game(1, true);
    fill(&mut g, MapCell::Space);
    g.map.set(0, 0, MapCell::Star);
    g.begin_turn();
    g.make_move(Point(0, 1));
    let cash = g.get_player(0).get_cash();
    assert_eq!(g.trade(0, 11), Err(TradeError::TooLittleCash));
    assert_eq!(g.get_player(0).get_cash(), cash);
    assert_eq!(g.trade(0, 10), Ok(()));
    assert_eq!(g.get_player(0).get_cash(), cash - 6000);
    assert_eq!(g.get_player(0).get_holdings(0), 15);
    assert_eq!(g.stock_value(0), 15 * 600);
    assert_eq!(TradeError::TooLittleCash.message(), "Not enough cash");
}

#[test]
fn trading_goes_through_active_companies_in_order() {
    let mut g = game(1, true);
    fill(&mut g, MapCell::Space);
    g.map.set(0, 0, MapCell::Star);
    g.map.set(8, 11, MapCell::Star);
    play(&mut g, Point(0, 1));
    g.begin_turn();
    g.make_move(Point(8, 10));
    assert_eq!(g.get_state(), GameState::Trade(0));
    assert_eq!(g.trade(0, 0), Ok(()));
    assert_eq!(g.get_state(), GameState::Trade(1));
    assert_eq!(g.trade(1, 0), Ok(()));
    assert_eq!(g.get_state(), GameState::EndTurn);
}

#[test]
fn too_few_legal_moves_ends_the_game() {
    let mut g = game(1, false);
    fill(&mut g, MapCell::Outpost);
    for c in 0..4 {
        g.map.set(0, c, MapCell::Space);
    }
    g.begin_turn();
    let moves = g.get_moves();
    assert!(moves.is_empty());
    assert!(g.game_is_over());
}

#[test]
fn turn_limit_ends_the_game() {
    let mut options = StarLanesOptions::new();
    options.player_count = 3;
    options.max_turns = 2;
    let mut g = StarLanes::new_with_options(options);
    g.reset();
    let first = g.get_current_player_index();
    g.begin_turn();
    let m = g.get_moves();
    g.make_move(m[0]);
    g.end_turn();
    assert_eq!(g.get_current_player_index(), (first + 1) % 3);
    assert_eq!(g.get_state(), GameState::BeginTurn);
    g.begin_turn();
    let n = g.get_moves();
    g.make_move(n[0]);
    g.end_turn();
    assert!(g.game_is_over());
}

#[test]
fn fresh_game_waits_for_reset() {
    let g = StarLanes::new();
    assert_eq!(g.get_state(), GameState::PreInit);
    assert_eq!(g.options.max_turns, 48);
    assert!(g.options.allow_oversell);
    assert!(!g.game_is_over());
}

#[test]
fn three_way_merge_absorbs_in_scan_order() {
    let mut g = two_companies(1, 2);
    play(&mut g, Point(3, 6));
    assert!(g.get_company(2).in_use);
    let cash = g.get_player(0).get_cash();
    let events = play(&mut g, Point(3, 5));
    assert!(matches!(events[0], Event::Merge(1, 0, _)));
    assert!(matches!(events[1], Event::Merge(1, 2, _)));
    match &events[2] {
        Event::Dividends(d) => assert_eq!(d[0].amount, 1045),
        _ => panic!("expected dividends"),
    }
    assert_eq!(events.len(), 3);
    assert!(!g.get_company(0).in_use);
    assert!(!g.get_company(2).in_use);
    assert_eq!(g.get_company(1).size, 4);
    assert_eq!(g.get_company(1).share_price, 1900);
    assert_eq!(g.get_player(0).get_holdings(1), 11);
    assert_eq!(g.get_player(0).get_cash(), cash + 12000 + 1045);
    assert_eq!(g.map.get(3, 6), MapCell::Company(1));
    assert_eq!(g.map.get(2, 5), MapCell::Company(1));
}
