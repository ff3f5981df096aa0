//! The rules on exact amounts.

use tempest::amount::Amount;
use tempest::backtest::{buy_and_hold, partial_daily, ExitReason};
use tempest::binance::format_decimal;
use tempest::config::{read_pairs, Environment};
use tempest::costs::CostModel;
use tempest::exchange::{decimals_for, Candle, SymbolFilters};
use tempest::number::Number;
use tempest::portfolio::{portfolio_buy_and_hold, simulate_portfolio, SymbolFeed};
use tempest::risk::{RiskLimits, RiskManager};
use tempest::strategy::StrategyParams;
use tempest::text::{join, lowercase, parse_count, split, text_of_integer, trim};

fn amount(text: &str) -> Amount {
    Amount::parse(text).unwrap()
}

#[test]
fn amounts_are_written_and_read_back() {
    for text in ["0", "1", "-1", "0.00000001", "-0.5", "77214.24", "92233720368.54775807"] {
        assert_eq!(format_decimal(amount(text)), text);
        assert_eq!(Amount::parse(&format_decimal(amount(text))), Some(amount(text)));
    }
    assert_eq!(format_decimal(amount("1.50")), "1.5");
    assert_eq!(Amount::parse("one"), None);
    assert_eq!(Amount::parse("1."), None);
    assert_eq!(Amount::parse("0.123456789"), None);
    assert_eq!(Amount::parse("92233720368.54775808"), Some(Amount::Undefined));
}

#[test]
fn amounts_round_as_they_say() {
    assert_eq!(amount("2.5").round(), amount("3"));
    assert_eq!(amount("-2.5").round(), amount("-3"));
    assert_eq!(amount("-2.5").floor(), amount("-3"));
    assert_eq!(amount("-2.5").ceil(), amount("-2"));
    assert_eq!(amount("1").over(amount("3")), amount("0.33333333"));
    assert_eq!(amount("1").over(amount("0")), Amount::Undefined);
    assert_eq!(amount("0.005").to_fixed(2), "0.01");
    assert_eq!(amount("2").to_fixed_signed(1), "+2.0");
    assert_eq!(amount("2.50").to_shortest(), "2.5");
    assert!(amount("1").ranked(Amount::Undefined));
    assert!(!Amount::Undefined.ranked(amount("1")));
}

#[test]
fn whole_steps_survive_rounding() {
    let filters = SymbolFilters {
        symbol: "BTCUSDC".into(),
        base_asset: "BTC".into(),
        quote_asset: "USDC".into(),
        step_size: amount("0.00001"),
        min_qty: amount("0.00001"),
        max_qty: amount("9000"),
        tick_size: amount("0.01"),
        min_notional: amount("5"),
    };
    let rounded = filters.round_quantity(amount("0.000123"));
    assert_eq!(rounded, amount("0.00012"));
    assert_eq!(filters.round_quantity(rounded), rounded);
    let floor = filters.min_tradable_quantity(amount("77214.24"));
    assert_eq!(floor, amount("0.00007"));
    assert!(filters.check_order(floor, amount("77214.24")).is_ok());
    assert_eq!(decimals_for(amount("0.00001")), 5);
}

#[test]
fn costs_are_exact() {
    let costs: CostModel<Amount> = CostModel::default();
    assert_eq!(costs.buy_fill(amount("100")), amount("100.05"));
    assert_eq!(costs.sell_fill(amount("100")), amount("99.95"));
    assert_eq!(costs.taker_cost(amount("-10000")), amount("10"));
}

#[test]
fn the_daily_limit_itself_does_not_halt() {
    let mut rm = RiskManager::starting_on(amount("10000"), RiskLimits::default(), 1);
    assert_eq!(rm.drawdown_pct(amount("9500")), amount("5"));
    assert!(!rm.check_drawdown(amount("9500")));
    assert!(rm.check_drawdown(amount("9499.99")));
}

#[test]
fn texts_are_taken_apart_and_put_together() {
    assert_eq!(trim("  a b \t"), "a b");
    assert_eq!(lowercase("TruE"), "true");
    assert_eq!(split("a,,b", ','), vec!["a", "", "b"]);
    assert_eq!(join(&vec!["a".to_string(), "b".to_string()], ", "), "a, b");
    assert_eq!(parse_count("0042"), Some(42));
    assert_eq!(parse_count("-1"), None);
    assert_eq!(parse_count("18446744073709551616"), None);
    assert_eq!(text_of_integer(-1013), "-1013");
}

#[test]
fn pairs_are_trimmed_and_put_in_upper_case() {
    assert_eq!(read_pairs(" btcusdc ,, EthUsdc"), vec!["BTCUSDC", "ETHUSDC"]);
    assert!(read_pairs(" , ").is_empty());
}

#[test]
fn the_first_variable_of_a_name_counts() {
    let env = Environment {
        vars: vec![
            ("A".to_string(), "1.5".to_string()),
            ("A".to_string(), "2".to_string()),
            ("B".to_string(), "x".to_string()),
        ],
    };
    assert_eq!(env.get_number::<Amount>("A"), Some(amount("1.5")));
    assert_eq!(env.get_number::<Amount>("B"), None);
    assert_eq!(env.get_or("C", "fallback"), "fallback");
    assert_eq!(env.get_count("A"), None);
}

/// A history that rises faster and faster, in whole cents.
fn rising(symbol: &str, days: u64) -> SymbolFeed<Amount> {
    let cents = |x: f64| amount(&format!("{x:.2}"));
    let width: u64 = 4 * 3_600_000;
    let four_hour: Vec<Candle<Amount>> = (0..days * 6)
        .map(|i| {
            let close = 100.0 * 1.001f64.powi(i as i32);
            Candle {
                open_time: i * width,
                open: cents(close),
                high: cents(close * 1.001),
                low: cents(close * 0.995),
                close: cents(close),
                volume: amount("1"),
                close_time: (i + 1) * width - 1,
            }
        })
        .collect();
    let daily = (0..days)
        .map(|d| Candle {
            close_time: (d + 1) * 6 * width - 1,
            ..partial_daily(&four_hour[..(d as usize + 1) * 6], d * 6 * width).unwrap()
        })
        .collect();
    SymbolFeed {
        symbol: symbol.into(),
        daily,
        four_hour,
    }
}

#[test]
fn a_portfolio_keeps_its_books_to_the_unit() {
    let feeds = vec![rising("A", 300), rising("B", 300)];
    let costs = CostModel {
        taker_fee: amount("0.002"),
        maker_fee: amount("0.0005"),
        slippage: amount("0.0005"),
    };
    let params = StrategyParams {
        rsi_max: amount("100"),
        macd_require_cross: false,
        ..Default::default()
    };
    let (r, _) = simulate_portfolio(&feeds, &costs, amount("0.002"), &params);
    assert!(r
        .trades
        .iter()
        .any(|t| t.exit_reason == ExitReason::TakeProfit));
    let booked = r
        .trades
        .iter()
        .fold(amount("10000"), |balance, t| balance.plus(t.pnl));
    let Amount::Units(gap) = r.final_balance.minus(booked) else {
        panic!("the balance is out of range");
    };
    assert!(0 <= gap && gap <= r.trades.len() as i64);
}

#[test]
fn one_symbol_held_equally_is_held_exactly() {
    let feeds = vec![rising("A", 30)];
    let costs: CostModel<Amount> = CostModel::default();
    for first_bar in [0, 7, 179] {
        assert_eq!(
            portfolio_buy_and_hold(&feeds, &costs, first_bar),
            buy_and_hold(&feeds[0].four_hour[first_bar..], &costs)
        );
    }
}
