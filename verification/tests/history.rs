use tempest::align::{align, assemble, Misaligned};
use tempest::backtest::{
    buy_and_hold, partial_daily, settle, simulate, Diagnostics, ExitReason, SimPosition, SimTrade,
};
use tempest::costs::CostModel;
use tempest::exchange::Candle;
use tempest::montecarlo::{
    monte_carlo, percentile, resample, sort, try_percentile, MonteCarloReport,
};
use tempest::number::Number;
use tempest::portfolio::{
    count_common_bars, portfolio_buy_and_hold, simulate_portfolio, SymbolFeed,
};
use tempest::report::{total_return, Benchmark, CostImpact, SignalShares, TradeStats};
use tempest::strategy::{EntryConditions, StrategyParams};
use tempest::study::{
    backtest_symbol, portfolio_backtest, split_periods, sweep_buffers, sweep_gates, sweep_stakes,
    ShortHistory, SplitVerdict,
};

/// Machine floats.
#[derive(Debug, Clone, Copy, PartialEq)]
struct F(f64);

impl Number for F {
    fn ratio(num: i64, den: u64) -> Self {
        F(num as f64 / den as f64)
    }
    fn count(n: u64) -> Self {
        F(n as f64)
    }
    fn nan() -> Self {
        F(f64::NAN)
    }
    fn min_value() -> Self {
        F(f64::MIN)
    }
    fn max_value() -> Self {
        F(f64::MAX)
    }
    fn plus(self, other: Self) -> Self {
        F(self.0 + other.0)
    }
    fn minus(self, other: Self) -> Self {
        F(self.0 - other.0)
    }
    fn times(self, other: Self) -> Self {
        F(self.0 * other.0)
    }
    fn over(self, other: Self) -> Self {
        F(self.0 / other.0)
    }
    fn neg(self) -> Self {
        F(-self.0)
    }
    fn abs(self) -> Self {
        F(self.0.abs())
    }
    fn floor(self) -> Self {
        F(self.0.floor())
    }
    fn ceil(self) -> Self {
        F(self.0.ceil())
    }
    fn round(self) -> Self {
        F(self.0.round())
    }
    fn is_nan(self) -> bool {
        self.0.is_nan()
    }
    fn is_finite(self) -> bool {
        self.0.is_finite()
    }
    fn below(self, other: Self) -> bool {
        self.0 < other.0
    }
    fn at_most(self, other: Self) -> bool {
        self.0 <= other.0
    }
    fn equals(self, other: Self) -> bool {
        self.0 == other.0
    }
    fn ranked(self, other: Self) -> bool {
        self.0.total_cmp(&other.0).is_le()
    }
    fn to_index(self) -> usize {
        self.0 as usize
    }
    fn to_fixed(self, decimals: usize) -> String {
        format!("{:.*}", decimals, self.0)
    }
    fn to_fixed_signed(self, decimals: usize) -> String {
        format!("{:+.*}", decimals, self.0)
    }
    fn to_shortest(self) -> String {
        format!("{}", self.0)
    }
    fn parse(text: &str) -> Option<Self> {
        text.parse().ok().map(F)
    }
}

fn f(v: f64) -> F {
    F(v)
}

/// Four-hour bar starting at `open_time` (epoch ms).
fn bar(open_time: u64, open: f64, high: f64, low: f64, close: f64) -> Candle<F> {
    Candle {
        open_time,
        open: f(open),
        high: f(high),
        low: f(low),
        close: f(close),
        volume: f(1.0),
        close_time: open_time + 4 * 3_600_000 - 1,
    }
}

const DAY: u64 = 86_400_000;
const H4: u64 = 4 * 3_600_000;

#[test]
fn partial_daily_aggregates_the_current_day_only() {
    // Yesterday's final bar, then three bars of today.
    let bars = [
        bar(DAY - H4, 10.0, 11.0, 9.0, 10.5),
        bar(DAY, 100.0, 105.0, 99.0, 104.0),
        bar(DAY + H4, 104.0, 112.0, 103.0, 108.0),
        bar(DAY + 2 * H4, 108.0, 110.0, 101.0, 102.0),
    ];

    let partial = partial_daily(&bars, DAY).expect("today has bars");
    // Open from the day's first bar, close from its last.
    assert_eq!(partial.open.0, 100.0);
    assert_eq!(partial.close.0, 102.0);
    // Extremes across today only: yesterday's 9.0 low must not leak in.
    assert_eq!(partial.high.0, 112.0);
    assert_eq!(partial.low.0, 99.0);
    assert_eq!(partial.volume.0, 3.0);
    assert_eq!(partial.open_time, DAY);
}

#[test]
fn partial_daily_handles_the_first_bar_of_a_day() {
    let bars = [
        bar(DAY - H4, 10.0, 11.0, 9.0, 10.5),
        bar(DAY, 100.0, 105.0, 99.0, 104.0),
    ];
    let partial = partial_daily(&bars, DAY).unwrap();
    assert_eq!(partial.open.0, 100.0);
    assert_eq!(partial.close.0, 104.0);
    assert_eq!(partial.high.0, 105.0);
    assert_eq!(partial.low.0, 99.0);
}

#[test]
fn partial_daily_is_none_when_the_day_has_not_started() {
    // The latest bar still belongs to the previous day, so no candle is in
    // progress and the daily view must not gain a phantom entry.
    let bars = [bar(DAY - H4, 10.0, 11.0, 9.0, 10.5)];
    assert!(partial_daily(&bars, DAY).is_none());
}

#[test]
fn partial_daily_is_none_for_an_empty_series() {
    assert!(partial_daily::<F>(&[], DAY).is_none());
}

#[test]
fn partial_daily_never_reads_beyond_the_slice() {
    // The aggregate must reflect only bars up to the end of the slice.
    let bars = [
        bar(DAY, 100.0, 105.0, 99.0, 104.0),
        bar(DAY + H4, 104.0, 112.0, 103.0, 108.0),
        bar(DAY + 2 * H4, 108.0, 999.0, 1.0, 102.0),
    ];
    let partial = partial_daily(&bars[..=1], DAY).unwrap();
    assert_eq!(partial.high.0, 112.0);
    assert_eq!(partial.low.0, 99.0);
    assert_eq!(partial.close.0, 108.0);
}

#[test]
fn percentile_returns_nearest_sorted_value() {
    let values = [f(10.0), f(20.0), f(30.0), f(40.0), f(50.0)];

    assert_eq!(percentile(&values, f(0.0)).0, 10.0);
    assert_eq!(percentile(&values, f(0.5)).0, 30.0);
    assert_eq!(percentile(&values, f(1.0)).0, 50.0);
}

#[test]
fn a_percentile_of_nothing_is_missing() {
    assert_eq!(try_percentile::<F>(&[], f(0.5)), None);
    assert_eq!(try_percentile(&[f(7.0)], f(0.5)), Some(f(7.0)));
    assert_eq!(try_percentile(&[f(7.0)], f(3.0)), Some(f(7.0)));
    assert_eq!(try_percentile(&[f(7.0), f(8.0)], f(3.0)), None);
}

#[test]
fn sorting_places_every_value() {
    let sorted = sort(&vec![f(3.0), f(f64::NAN), f(-1.0), f(2.0), f(-1.0)]);
    let plain: Vec<f64> = sorted.iter().map(|v| v.0).collect();
    assert_eq!(&plain[..4], &[-1.0, -1.0, 2.0, 3.0]);
    assert!(plain[4].is_nan());
}

// ----- settlement -----

fn position() -> SimPosition<F> {
    SimPosition {
        entry_price: f(100.0),
        quantity: f(2.0),
        stop_loss: f(90.0),
        take_profit: f(120.0),
        entry_fee: f(0.2),
        equity_at_entry: f(1_000.0),
    }
}

#[test]
fn a_target_fills_at_its_price_and_a_stop_slips() {
    let costs: CostModel<F> = CostModel::default();
    let target = settle(&position(), f(120.0), ExitReason::TakeProfit, &costs);
    assert_eq!(target.exit_price.0, 120.0);
    // Fees: 0.2 in, 0.1% of 240 out. Gross 40.
    assert!((target.fees.0 - 0.44).abs() < 1e-9);
    assert!((target.pnl.0 - 39.56).abs() < 1e-9);
    assert!((target.pnl_pct.0 - 19.78).abs() < 1e-9);
    assert!((target.equity_return.0 - 0.03956).abs() < 1e-9);
    let stop = settle(&position(), f(90.0), ExitReason::StopLoss, &costs);
    assert!((stop.exit_price.0 - 89.955).abs() < 1e-9);
    assert!(stop.pnl.0 < -20.0);
}

#[test]
fn exits_have_labels() {
    assert_eq!(ExitReason::StopLoss.label(), "SL");
    assert_eq!(ExitReason::TakeProfit.label(), "TP");
    assert_eq!(ExitReason::Signal.label(), "signal");
    assert_eq!(ExitReason::EndOfData.label(), "end");
}

// ----- simulation -----

/// A history that rises faster and faster, one daily candle for six bars.
fn rising(days: u64) -> (Vec<Candle<F>>, Vec<Candle<F>>) {
    let mut four_hour = Vec::new();
    for i in 0..days * 6 {
        let close = 100.0 * 1.001f64.powi(i as i32);
        four_hour.push(bar(i * H4, close, close * 1.001, close * 0.995, close));
    }
    let daily = (0..days)
        .map(|d| Candle {
            close_time: (d + 1) * DAY - 1,
            ..partial_daily(&four_hour[..(d as usize + 1) * 6], d * DAY).unwrap()
        })
        .collect();
    (daily, four_hour)
}

/// Rules that let a rising market in.
fn open_rules() -> StrategyParams<F> {
    StrategyParams {
        rsi_max: f(100.0),
        macd_require_cross: false,
        ..Default::default()
    }
}

#[test]
fn a_rising_market_is_bought_and_marked_out() {
    let (daily, four_hour) = rising(230);
    let free: CostModel<F> = CostModel::frictionless();
    let r = simulate("BTCUSDC", &daily, &four_hour, &free, f(0.015), &open_rules());
    // The two hundredth day closes with bar 1199.
    assert_eq!(r.first_bar, Some(1199));
    assert!(!r.trades.is_empty());
    assert!(r.final_balance.0 > 10_000.0);
    let booked: f64 = r.trades.iter().map(|t| t.pnl.0).sum();
    assert!((r.final_balance.0 - 10_000.0 - booked).abs() < 1e-6);
    assert!(r.diagnostics.all_aligned > 0);
    assert_eq!(r.diagnostics.evaluated as usize, four_hour.len() - 1199);
    // The default rules keep out of so steep a market.
    let strict = simulate(
        "BTCUSDC",
        &daily,
        &four_hour,
        &free,
        f(0.015),
        &StrategyParams::default(),
    );
    assert!(strict.trades.is_empty());
    assert_eq!(strict.final_balance.0, 10_000.0);
    assert_eq!(strict.max_drawdown.0, 0.0);
}

#[test]
fn the_stake_changes_no_signal() {
    let (daily, four_hour) = rising(230);
    let costs: CostModel<F> = CostModel::default();
    let free: CostModel<F> = CostModel::frictionless();
    let small = simulate("A", &daily, &four_hour, &costs, f(0.015), &open_rules());
    let large = simulate("A", &daily, &four_hour, &free, f(0.3), &open_rules());
    assert_ne!(small.final_balance, large.final_balance);
    assert_eq!(small.first_bar, large.first_bar);
    assert_eq!(
        Diagnostics {
            blocked_in_position: 0,
            ..small.diagnostics
        },
        Diagnostics {
            blocked_in_position: 0,
            ..large.diagnostics
        }
    );
}

#[test]
fn a_longer_history_only_adds() {
    let (daily, four_hour) = rising(300);
    let costs: CostModel<F> = CostModel::default();
    let run = |k: usize| simulate("A", &daily, &four_hour[..k], &costs, f(0.015), &open_rules());
    let full = run(four_hour.len());
    assert!(full.trades.len() > 1);
    let mut seen = 0;
    for k in [0, 1_199, 1_200, 1_300, 1_450, 1_600, 1_799] {
        let part = run(k);
        let made: Vec<SimTrade<F>> = part
            .trades
            .iter()
            .copied()
            .filter(|t| t.exit_reason != ExitReason::EndOfData)
            .collect();
        assert_eq!(made[..], full.trades[..made.len()]);
        seen = seen.max(made.len());
        if part.first_bar.is_some() {
            assert_eq!(part.first_bar, full.first_bar);
        }
        assert!(part.max_drawdown.0 <= full.max_drawdown.0);
    }
    assert!(seen > 0);
}

#[test]
fn what_comes_later_changes_nothing_earlier() {
    let (daily, four_hour) = rising(230);
    let free: CostModel<F> = CostModel::frictionless();
    let whole = simulate("A", &daily, &four_hour, &free, f(0.015), &open_rules());
    let mut broken = four_hour.clone();
    let last = broken.len() - 1;
    broken[last] = bar(last as u64 * H4, 1.0, 1.0, 1.0, 1.0);
    let other = simulate("A", &daily, &broken, &free, f(0.015), &open_rules());
    assert_eq!(whole.first_bar, other.first_bar);
    assert_eq!(whole.trades[0].entry_price, other.trades[0].entry_price);
    assert_eq!(whole.trades[0].quantity, other.trades[0].quantity);
}

#[test]
fn holding_pays_both_fees() {
    let costs: CostModel<F> = CostModel::default();
    assert_eq!(buy_and_hold::<F>(&[], &costs), (f(10_000.0), f(0.0)));
    let free: CostModel<F> = CostModel::frictionless();
    let bars = [
        bar(0, 100.0, 100.0, 100.0, 100.0),
        bar(H4, 100.0, 200.0, 80.0, 200.0),
        bar(2 * H4, 200.0, 200.0, 100.0, 150.0),
    ];
    let (end, drawdown) = buy_and_hold(&bars, &free);
    assert_eq!(end.0, 15_000.0);
    // From 20,000 at the second close to 10,000 at the third low; the second
    // bar's own low of 8,000 is held against its own close.
    assert_eq!(drawdown.0, 60.0);
    assert!(buy_and_hold(&bars, &costs).0 .0 < 15_000.0);
}

#[test]
fn diagnostics_count_conditions() {
    let mut d = Diagnostics::default();
    let all = EntryConditions {
        trend_bullish: true,
        rsi_ok: true,
        macd_crossed: true,
        stop_valid: true,
    };
    d.record(&all, true);
    d.record(
        &EntryConditions {
            rsi_ok: false,
            ..all
        },
        false,
    );
    assert_eq!((d.evaluated, d.trend, d.rsi), (2, 2, 1));
    assert_eq!((d.all_aligned, d.blocked_in_position), (1, 1));
    let shares = SignalShares::<F>::from_diagnostics(&d, 1);
    assert_eq!(shares.rsi.0, 50.0);
    assert_eq!(shares.all_aligned.0, 50.0);
    assert!((shares.days.0 - 2.0 / 6.0).abs() < 1e-12);
    assert_eq!(shares.gap_days.unwrap().0, shares.days.0);
    let none = SignalShares::<F>::from_diagnostics(&Diagnostics::default(), 0);
    assert_eq!(none.trend.0, 0.0);
    assert!(none.gap_days.is_none());
}

// ----- portfolio -----

fn feed(symbol: &str, days: u64) -> SymbolFeed<F> {
    let (daily, four_hour) = rising(days);
    SymbolFeed {
        symbol: symbol.into(),
        daily,
        four_hour,
    }
}

#[test]
fn a_portfolio_holds_several_symbols_at_once() {
    let feeds: Vec<SymbolFeed<F>> = ["A", "B", "C", "D", "E"]
        .iter()
        .map(|s| feed(s, 230))
        .collect();
    let free: CostModel<F> = CostModel::frictionless();
    let (r, peak) = simulate_portfolio(&feeds, &free, f(0.002), &open_rules());
    assert_eq!(r.first_bar, Some(1199));
    assert!(r.final_balance.0 > 10_000.0);
    // Five symbols qualify; four fit.
    assert_eq!(peak, 4);
    assert_eq!(
        r.diagnostics.evaluated as usize,
        (feeds[0].four_hour.len() - 1199) * 5
    );
}

#[test]
fn a_portfolio_of_one_trades_like_the_symbol() {
    let feeds = vec![feed("A", 230)];
    let free: CostModel<F> = CostModel::frictionless();
    let (r, peak) = simulate_portfolio(&feeds, &free, f(0.015), &open_rules());
    let single = simulate(
        "A",
        &feeds[0].daily,
        &feeds[0].four_hour,
        &free,
        f(0.015),
        &open_rules(),
    );
    assert_eq!(peak, 1);
    assert_eq!(r.trades.len(), single.trades.len());
    assert!((r.final_balance.0 - single.final_balance.0).abs() < 1e-6);
    // Running it again, after another run over the same feeds, gives the same.
    let _ = simulate_portfolio(&feeds, &free, f(0.3), &StrategyParams::default());
    let (again, peak_again) = simulate_portfolio(&feeds, &free, f(0.015), &open_rules());
    assert_eq!(again.trades, r.trades);
    assert_eq!(again.final_balance, r.final_balance);
    assert_eq!(again.max_drawdown, r.max_drawdown);
    assert_eq!(again.first_bar, r.first_bar);
    assert_eq!(again.diagnostics, r.diagnostics);
    assert_eq!(peak_again, peak);
}

#[test]
fn portfolio_cash_agrees_with_the_trade_log() {
    let feeds: Vec<SymbolFeed<F>> = ["A", "B", "C"].iter().map(|s| feed(s, 300)).collect();
    let costs = CostModel {
        taker_fee: f(0.002),
        maker_fee: f(0.0005),
        slippage: f(0.0005),
    };
    let (r, _) = simulate_portfolio(&feeds, &costs, f(0.002), &open_rules());
    assert!(r
        .trades
        .iter()
        .any(|t| t.exit_reason == ExitReason::TakeProfit));
    assert!(r
        .trades
        .iter()
        .any(|t| t.exit_reason != ExitReason::TakeProfit));
    let booked: f64 = r.trades.iter().map(|t| t.pnl.0).sum();
    assert!((r.final_balance.0 - 10_000.0 - booked).abs() < 1e-6);
}

#[test]
fn an_empty_portfolio_keeps_its_balance() {
    let free: CostModel<F> = CostModel::frictionless();
    let (r, peak) = simulate_portfolio(&vec![], &free, f(0.015), &open_rules());
    assert_eq!(r.final_balance.0, 10_000.0);
    assert_eq!(peak, 0);
    assert_eq!(count_common_bars::<F>(&vec![]), 0);
    assert_eq!(
        portfolio_buy_and_hold(&vec![], &free, 0),
        (f(10_000.0), f(0.0))
    );
}

#[test]
fn equal_weights_share_the_balance() {
    let make = |symbol: &str, closes: [f64; 2]| SymbolFeed {
        symbol: symbol.into(),
        daily: vec![],
        four_hour: closes
            .iter()
            .enumerate()
            .map(|(i, c)| bar(i as u64 * H4, *c, *c, *c, *c))
            .collect(),
    };
    let feeds = vec![make("A", [100.0, 200.0]), make("B", [50.0, 25.0])];
    let free: CostModel<F> = CostModel::frictionless();
    // 5,000 doubles, 5,000 halves.
    let (end, drawdown) = portfolio_buy_and_hold(&feeds, &free, 0);
    assert_eq!(end.0, 12_500.0);
    assert_eq!(drawdown.0, 0.0);
    assert_eq!(portfolio_buy_and_hold(&feeds, &free, 9).0 .0, 10_000.0);
}

#[test]
fn an_equal_weight_holding_of_one_symbol_is_buy_and_hold() {
    let costs: CostModel<F> = CostModel::default();
    let mut feeds = vec![feed("A", 30)];
    for first_bar in [0, 7, 179] {
        assert_eq!(
            portfolio_buy_and_hold(&feeds, &costs, first_bar),
            buy_and_hold(&feeds[0].four_hour[first_bar..], &costs)
        );
    }
    // What lies before has no effect.
    let before = portfolio_buy_and_hold(&feeds, &costs, 7);
    feeds[0].four_hour[6] = bar(6 * H4, 1.0, 1.0, 1.0, 1.0);
    assert_eq!(portfolio_buy_and_hold(&feeds, &costs, 7), before);
}

fn times(symbol: &str, times: &[u64]) -> SymbolFeed<F> {
    SymbolFeed {
        symbol: symbol.into(),
        daily: vec![],
        four_hour: times
            .iter()
            .map(|t| bar(*t, 1.0, 1.0, 1.0, 1.0))
            .collect(),
    }
}

#[test]
fn feeds_are_aligned_on_the_times_they_share() {
    let aligned = align(vec![times("A", &[1, 2, 3, 5]), times("B", &[2, 3, 4, 5])]).unwrap();
    for feed in &aligned {
        let left: Vec<u64> = feed.four_hour.iter().map(|c| c.open_time).collect();
        assert_eq!(left, vec![2, 3, 5]);
    }
    // A time that one feed has twice cannot be aligned.
    assert_eq!(
        align(vec![times("A", &[1, 2]), times("B", &[1, 1, 2])]).unwrap_err(),
        Misaligned
    );
    assert_eq!(
        Misaligned.describe(),
        "portfolio feeds could not be aligned"
    );
}

#[test]
fn a_portfolio_needs_two_feeds_with_history() {
    assert!(assemble(vec![feed("A", 230), times("B", &[1, 2])])
        .unwrap()
        .is_none());
    let free: CostModel<F> = CostModel::frictionless();
    let study = portfolio_backtest(
        vec![feed("A", 230), times("B", &[1, 2]), feed("C", 230)],
        &free,
        f(0.015),
        &open_rules(),
    )
    .unwrap()
    .unwrap();
    assert_eq!(study.feeds.len(), 2);
    assert_eq!(study.concurrent_peak, 2);
    assert!(study.hold.0 .0 > 10_000.0);
    let rows = sweep_buffers(&study.feeds, &free, f(0.015));
    assert_eq!(rows.len(), 7);
    assert_eq!(rows[4].entry_buffer_atr.0, 0.5);
    assert_eq!(rows[4].exit_buffer_atr.0, 1.0);
}

#[test]
fn longer_feeds_only_add() {
    let costs: CostModel<F> = CostModel::default();
    let run = |k: usize| {
        let feeds: Vec<SymbolFeed<F>> = ["A", "B"]
            .iter()
            .map(|s| {
                let mut feed = feed(s, 300);
                feed.four_hour.truncate(k);
                feed
            })
            .collect();
        simulate_portfolio(&feeds, &costs, f(0.002), &open_rules()).0
    };
    let full = run(1_800);
    assert!(full.trades.len() > 2);
    let mut seen = 0;
    for k in [0, 1_199, 1_300, 1_600, 1_799] {
        let part = run(k);
        for (i, trade) in part.trades.iter().enumerate() {
            if trade.exit_reason != ExitReason::EndOfData {
                assert_eq!(*trade, full.trades[i]);
                seen += 1;
            }
        }
        if part.first_bar.is_some() {
            assert_eq!(part.first_bar, full.first_bar);
        }
        assert!(part.max_drawdown.0 <= full.max_drawdown.0);
    }
    assert!(seen > 0);
}

#[test]
fn gates_are_swept_over_the_same_history() {
    let feeds = vec![feed("A", 230), feed("B", 230)];
    let free: CostModel<F> = CostModel::frictionless();
    let rules = StrategyParams {
        rsi_min: f(30.0),
        ..Default::default()
    };
    let rows = sweep_gates(&feeds, &free, f(0.002), &rules);
    let gates: Vec<(f64, f64, bool)> = rows
        .iter()
        .map(|r| (r.rsi_min.0, r.rsi_max.0, r.macd_require_cross))
        .collect();
    assert_eq!(
        gates,
        vec![
            (30.0, 55.0, true),
            (30.0, 60.0, true),
            (30.0, 65.0, true),
            (30.0, 70.0, true),
            (30.0, 55.0, false),
            (30.0, 60.0, false),
            (30.0, 65.0, false),
            (30.0, 70.0, false),
        ]
    );
    let wide = StrategyParams {
        rsi_max: f(70.0),
        macd_require_cross: false,
        ..rules
    };
    let (r, _) = simulate_portfolio(&feeds, &free, f(0.002), &wide);
    assert_eq!(rows[7].final_balance, r.final_balance);
    assert_eq!(rows[7].total_return, total_return(r.final_balance));
    assert_eq!(rows[7].trades, r.trades.len());
    assert_eq!(rows[7].max_drawdown, r.max_drawdown);
}

// ----- studies -----

#[test]
fn a_short_history_is_refused() {
    let (daily, four_hour) = rising(230);
    let costs: CostModel<F> = CostModel::default();
    let params = open_rules();
    let err = backtest_symbol("A", &daily[..209], &four_hour, &costs, f(0.015), &params)
        .unwrap_err();
    assert_eq!(err, ShortHistory::Daily(209));
    assert_eq!(
        err.describe(),
        "Only 209 daily candles available, need 210+"
    );
    let err = backtest_symbol("A", &daily, &four_hour[..49], &costs, f(0.015), &params)
        .unwrap_err();
    assert_eq!(err.describe(), "Only 49 4H candles available, need 50+");
}

#[test]
fn costs_are_set_against_a_frictionless_run() {
    let (daily, four_hour) = rising(230);
    let costs: CostModel<F> = CostModel::default();
    let study =
        backtest_symbol("A", &daily, &four_hour, &costs, f(0.015), &open_rules()).unwrap();
    let impact = CostImpact::compare(&study.gross, &study.net);
    assert!(impact.fees.0 > 0.0);
    assert!(impact.drag.0 > 0.0);
    assert!(impact.drag_points.0 < 0.0);
    assert!(!impact.edge_lost);
    let (hold, _) = study.hold.unwrap();
    let benchmark = Benchmark::compare(study.net.final_balance, hold);
    assert_eq!(benchmark.shortfall.is_some(), benchmark.edge.0 < 0.0);
    assert_eq!(total_return(f(12_500.0)).0, 25.0);
}

#[test]
fn stakes_are_swept_over_the_same_signals() {
    let (daily, four_hour) = rising(230);
    let free: CostModel<F> = CostModel::frictionless();
    let rows = sweep_stakes("A", &daily, &four_hour, &free, &open_rules());
    let stakes: Vec<f64> = rows.iter().map(|r| r.risk_pct.0).collect();
    assert_eq!(stakes, vec![1.5, 3.0, 5.0, 10.0, 15.0, 20.0, 30.0]);
    let single = simulate("A", &daily, &four_hour, &free, f(0.015), &open_rules());
    assert_eq!(rows[0].final_balance, single.final_balance);
}

#[test]
fn a_history_is_split_in_half() {
    let (daily, four_hour) = rising(230);
    let free: CostModel<F> = CostModel::frictionless();
    let params = open_rules();
    let split = split_periods(
        "A",
        &daily,
        &four_hour,
        &free,
        f(0.015),
        Some(1199),
        &params,
    )
    .unwrap();
    assert!(split.in_sample.final_balance.0 > 10_000.0);
    assert!(split.out_sample.final_balance.0 > 10_000.0);
    assert_eq!(split.verdict, SplitVerdict::Neither);
    assert!(split_periods("A", &daily, &four_hour, &free, f(0.015), None, &params).is_none());
    let last = Some(four_hour.len() - 1);
    assert!(split_periods("A", &daily, &four_hour, &free, f(0.015), last, &params).is_none());
}

// ----- reports -----

fn trade(pnl: f64, equity_return: f64) -> SimTrade<F> {
    SimTrade {
        entry_price: f(100.0),
        exit_price: f(100.0 + pnl),
        quantity: f(1.0),
        pnl: f(pnl),
        pnl_pct: f(pnl),
        equity_return: f(equity_return),
        fees: f(0.1),
        exit_reason: ExitReason::Signal,
    }
}

#[test]
fn trades_are_summed_up() {
    let stats = TradeStats::from_trades(&vec![
        trade(30.0, 0.03),
        trade(-10.0, -0.01),
        trade(10.0, 0.01),
        trade(0.0, 0.0),
    ]);
    assert_eq!((stats.total_trades, stats.winners, stats.losers), (4, 2, 2));
    assert_eq!(stats.total_pnl.0, 30.0);
    assert_eq!(stats.avg_win.0, 20.0);
    assert_eq!(stats.avg_loss.0, -5.0);
    assert_eq!(stats.win_rate.0, 50.0);
    assert_eq!(stats.profit_factor.unwrap().0, 4.0);
    let none = TradeStats::<F>::from_trades(&vec![]);
    assert_eq!(none.win_rate.0, 0.0);
    assert_eq!(none.profit_factor, None);
}

#[test]
fn a_run_compounds_what_was_drawn() {
    let gains = vec![f(0.1), f(-0.5)];
    let outcome = resample(&gains, &vec![0, 1, 1, 0]);
    // 10,000 -> 11,000 -> 5,500 -> 2,750 -> 3,025
    assert!((outcome.final_balance.0 - 3_025.0).abs() < 1e-6);
    assert!((outcome.max_drawdown.0 - 75.0).abs() < 1e-9);
    assert_eq!(outcome.losing_streak, 2);
    let still = resample(&gains, &vec![]);
    assert_eq!(still.final_balance.0, 10_000.0);
    assert_eq!(still.losing_streak, 0);
}

#[test]
fn resampling_stays_within_what_can_be_drawn() {
    assert!(monte_carlo::<F>(&vec![]).is_none());
    let report = monte_carlo(&vec![trade(1.0, 0.1), trade(-1.0, -0.5)]).unwrap();
    // Two draws out of {+10%, -50%}.
    let p5 = report.final_balance.p5.unwrap().0;
    let p50 = report.final_balance.p50.unwrap().0;
    let p95 = report.final_balance.p95.unwrap().0;
    assert!((p5 - 2_500.0).abs() < 1e-6);
    assert!((p50 - 5_500.0).abs() < 1e-6);
    assert!((p95 - 12_100.0).abs() < 1e-6);
    assert_eq!(report.losing_streak.p95.unwrap().0, 2.0);
    assert_eq!(report.max_drawdown.p5.unwrap().0, 0.0);
}

#[test]
fn outcomes_are_summarised_by_place() {
    let gains: Vec<F> = (0..21).map(|i| f(i as f64 / 100.0)).collect();
    let outcomes: Vec<_> = (0..21).map(|i| resample(&gains, &vec![20 - i])).collect();
    let report = MonteCarloReport::summarize(&outcomes);
    assert!((report.final_balance.p5.unwrap().0 - 10_100.0).abs() < 1e-6);
    assert!((report.final_balance.p50.unwrap().0 - 11_000.0).abs() < 1e-6);
    assert!((report.final_balance.p95.unwrap().0 - 11_900.0).abs() < 1e-6);
}
