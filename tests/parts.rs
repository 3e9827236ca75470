use starlanes::company::Company;
use starlanes::map::{MapCell, StarMap};
use starlanes::player::Player;
use starlanes::rules::{bonus_for, dividend_amount, largest_index, new_stock_for};
use starlanes::text::{company_name, company_to_char, tab};
use starlanes::util::apply_delta;

#[test]
fn player_starts_with_cash_and_no_stock() {
    let p = Player::new();
    assert_eq!(p.get_cash(), 6000);
    assert_eq!(p.get_holdings(3), 0);
    let q = Player::new_with_params(10);
    assert_eq!(q.get_cash(), 10);
}

#[test]
fn player_holdings_saturate() {
    let mut p = Player::new();
    p.set_holdings(2, 7);
    assert_eq!(p.get_holdings(2), 7);
    assert_eq!(p.get_holdings(1), 0);
    p.add_holdings(2, 3);
    assert_eq!(p.get_holdings(2), 10);
    p.add_holdings_signed(2, -15);
    assert_eq!(p.get_holdings(2), -5);
    p.mul_holdings(2, 2);
    assert_eq!(p.get_holdings(2), -10);
    p.set_holdings(0, i64::MAX - 1);
    p.add_holdings(0, u64::MAX);
    assert_eq!(p.get_holdings(0), i64::MAX);
    p.mul_holdings(0, 2);
    assert_eq!(p.get_holdings(0), i64::MAX);
    p.set_holdings(1, i64::MIN + 1);
    p.add_holdings_signed(1, -5);
    assert_eq!(p.get_holdings(1), i64::MIN);
}

#[test]
fn player_cash_saturates_and_resets() {
    let mut p = Player::new();
    assert_eq!(p.add_cash(100), 6100);
    p.set_cash(i64::MAX - 1);
    assert_eq!(p.add_cash(5), i64::MAX);
    p.set_holdings(0, 9);
    p.reset();
    assert_eq!(p.get_cash(), 6000);
    assert_eq!(p.get_holdings(0), 0);
}

#[test]
fn company_starts_unused() {
    let c = Company::new();
    assert!(!c.in_use);
    assert_eq!(c.size, 0);
    assert_eq!(c.share_price, 100);
}

#[test]
fn dividend_is_five_percent_rounded() {
    assert_eq!(dividend_amount(600, 5), 150);
    assert_eq!(dividend_amount(1, 10), 1);
    assert_eq!(dividend_amount(1, 9), 0);
    assert_eq!(dividend_amount(1, -10), -1);
    assert_eq!(dividend_amount(3000, 0), 0);
    assert_eq!(dividend_amount(u64::MAX, i64::MAX), i64::MAX);
}

#[test]
fn merge_stock_rounds_to_nearest() {
    assert_eq!(new_stock_for(5), 3);
    assert_eq!(new_stock_for(4), 2);
    assert_eq!(new_stock_for(0), 0);
    assert_eq!(new_stock_for(-5), -2);
    assert_eq!(new_stock_for(i64::MAX), i64::MAX / 2 + 1);
}

#[test]
fn merge_bonus_is_proportional() {
    assert_eq!(bonus_for(600, 5, 5), 6000);
    assert_eq!(bonus_for(600, 1, 3), 2000);
    assert_eq!(bonus_for(700, 1, 3), 2333);
    assert_eq!(bonus_for(700, -1, 3), -2333);
    assert_eq!(bonus_for(3000, i64::MAX, 1), i64::MAX);
}

#[test]
fn largest_takes_the_first_maximum() {
    assert_eq!(largest_index(&vec![1, 3, 3]), Some(1));
    assert_eq!(largest_index(&vec![4, 2, 4, 1]), Some(0));
    assert_eq!(largest_index(&vec![2, 5]), Some(1));
    assert_eq!(largest_index(&vec![]), None);
    assert_eq!(largest_index(&vec![0, 0]), None);
}

#[test]
fn apply_delta_saturates() {
    assert_eq!(apply_delta(5, -10), 0);
    assert_eq!(apply_delta(5, 10), 15);
    assert_eq!(apply_delta(u64::MAX, 1), u64::MAX);
    assert_eq!(apply_delta(0, i64::MIN), 0);
}

#[test]
fn text_helpers() {
    assert_eq!(tab(5), "    ");
    assert_eq!(tab(1), "");
    assert_eq!(company_name(0), "ALTAIR STARWAYS");
    assert_eq!(company_name(2), "CAPELLA FREIGHT CO.");
    assert_eq!(company_name(4), "ERIDANI EXPEDITERS");
    assert_eq!(company_to_char(0), 'A');
    assert_eq!(company_to_char(4), 'E');
}

#[test]
fn new_map_is_empty_space() {
    let m = StarMap::new();
    assert_eq!((m.width, m.height), (12, 9));
    for r in 0..9 {
        for c in 0..12 {
            assert_eq!(m.get(r, c), MapCell::Space);
        }
    }
}

#[test]
fn regenerate_follows_the_star_chance() {
    let mut all = StarMap::new_with_params(4, 3, 1, 1);
    all.regenerate();
    let mut none = StarMap::new_with_params(4, 3, 0, 1);
    none.regenerate();
    let mut some = StarMap::new();
    some.regenerate();
    for r in 0..3 {
        for c in 0..4 {
            assert_eq!(all.get(r, c), MapCell::Star);
            assert_eq!(none.get(r, c), MapCell::Space);
        }
    }
    for r in 0..9 {
        for c in 0..12 {
            let v = some.get(r, c);
            assert!(v == MapCell::Space || v == MapCell::Star);
        }
    }
}

#[test]
fn convert_touches_only_the_company() {
    let mut m = StarMap::new_with_params(3, 2, 0, 1);
    m.set(0, 0, MapCell::Company(1));
    m.set(0, 1, MapCell::Company(2));
    m.set(1, 2, MapCell::Company(1));
    m.set(1, 0, MapCell::Star);
    m.set(1, 1, MapCell::Outpost);
    m.convert(1, 3);
    assert_eq!(m.get(0, 0), MapCell::Company(3));
    assert_eq!(m.get(1, 2), MapCell::Company(3));
    assert_eq!(m.get(0, 1), MapCell::Company(2));
    assert_eq!(m.get(1, 0), MapCell::Star);
    assert_eq!(m.get(1, 1), MapCell::Outpost);
    assert_eq!(m.get(0, 2), MapCell::Space);
    m.convert(1, 0);
    assert_eq!(m.get(0, 0), MapCell::Company(3));
}
