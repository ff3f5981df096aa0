use tempest::clock::utc_day_of;
use tempest::config::Environment;
use tempest::costs::CostModel;
use tempest::exchange::{
    decimals_for, protective_levels, weighted_average_price, Candle, Fill, OpenOrder, OrderKind,
    OrderOutcome, OrderRejection, Side, SymbolFilters,
};
use tempest::indicators::{atr, ema, find_nearest_swing_low, macd, rsi};
use tempest::number::Number;
use tempest::risk::{Position, RiskLimits, RiskManager};
use tempest::strategy::{
    compute_indicators, evaluate, EntryConditions, IndicatorSnapshot, Signal, StrategyParams,
};

/// Machine floats.
#[derive(Debug, Clone, Copy, PartialEq)]
struct F(f64);

impl Number for F {
    fn ratio(num: i64, den: u64) -> Self {
        F(num as f64 / den as f64)
    }
    fn count(n: u64) -> Self {
        F(n as f64)
    }
    fn nan() -> Self {
        F(f64::NAN)
    }
    fn min_value() -> Self {
        F(f64::MIN)
    }
    fn max_value() -> Self {
        F(f64::MAX)
    }
    fn plus(self, other: Self) -> Self {
        F(self.0 + other.0)
    }
    fn minus(self, other: Self) -> Self {
        F(self.0 - other.0)
    }
    fn times(self, other: Self) -> Self {
        F(self.0 * other.0)
    }
    fn over(self, other: Self) -> Self {
        F(self.0 / other.0)
    }
    fn neg(self) -> Self {
        F(-self.0)
    }
    fn abs(self) -> Self {
        F(self.0.abs())
    }
    fn floor(self) -> Self {
        F(self.0.floor())
    }
    fn ceil(self) -> Self {
        F(self.0.ceil())
    }
    fn round(self) -> Self {
        F(self.0.round())
    }
    fn is_nan(self) -> bool {
        self.0.is_nan()
    }
    fn is_finite(self) -> bool {
        self.0.is_finite()
    }
    fn below(self, other: Self) -> bool {
        self.0 < other.0
    }
    fn at_most(self, other: Self) -> bool {
        self.0 <= other.0
    }
    fn equals(self, other: Self) -> bool {
        self.0 == other.0
    }
    fn ranked(self, other: Self) -> bool {
        self.0.total_cmp(&other.0).is_le()
    }
    fn to_index(self) -> usize {
        self.0 as usize
    }
    fn to_fixed(self, decimals: usize) -> String {
        format!("{:.*}", decimals, self.0)
    }
    fn to_fixed_signed(self, decimals: usize) -> String {
        format!("{:+.*}", decimals, self.0)
    }
    fn to_shortest(self) -> String {
        format!("{}", self.0)
    }
    fn parse(text: &str) -> Option<Self> {
        text.parse().ok().map(F)
    }
}

fn env(vars: &[(&str, &str)]) -> Environment {
    Environment {
        vars: vars
            .iter()
            .map(|(k, v)| (k.to_string(), v.to_string()))
            .collect(),
    }
}

fn f(v: f64) -> F {
    F(v)
}

fn series(values: &[f64]) -> Vec<F> {
    values.iter().map(|v| F(*v)).collect()
}

// ----- costs -----

fn model() -> CostModel<F> {
    // 0.1% fees, 5bps slippage.
    CostModel::default()
}

#[test]
fn slippage_always_moves_against_the_trader() {
    let m = model();
    assert!(m.buy_fill(f(100.0)).0 > 100.0, "a buy pays up");
    assert!(m.sell_fill(f(100.0)).0 < 100.0, "a sell receives less");
    assert_eq!(m.buy_fill(f(100.0)).0, 100.05);
    assert_eq!(m.sell_fill(f(100.0)).0, 99.95);
}

#[test]
fn resting_limit_orders_do_not_slip() {
    assert_eq!(model().limit_fill(f(52_000.0)).0, 52_000.0);
}

#[test]
fn fees_scale_with_notional() {
    let m = model();
    assert!((m.taker_cost(f(10_000.0)).0 - 10.0).abs() < 1e-9);
    assert!((m.maker_cost(f(10_000.0)).0 - 10.0).abs() < 1e-9);
}

#[test]
fn fees_are_never_negative_for_a_short_notional() {
    assert!(model().taker_cost(f(-10_000.0)).0 > 0.0);
}

#[test]
fn frictionless_model_is_free() {
    let m: CostModel<F> = CostModel::frictionless();
    assert_eq!(m.buy_fill(f(100.0)).0, 100.0);
    assert_eq!(m.sell_fill(f(100.0)).0, 100.0);
    assert_eq!(m.taker_cost(f(10_000.0)).0, 0.0);
}

#[test]
fn round_trip_drag_is_the_sum_of_both_sides() {
    // 0.1% in, 0.1% out, plus 5bps slippage each way = 30bps to overcome
    // before a trade is profitable.
    let m = model();
    let quoted = 100.0;
    let entry = m.buy_fill(f(quoted)).0;
    let exit = m.sell_fill(f(quoted)).0;
    let qty = 1.0;
    let drag =
        (entry - exit) * qty + m.taker_cost(f(entry * qty)).0 + m.taker_cost(f(exit * qty)).0;
    assert!((drag / quoted - 0.0030).abs() < 1e-4, "drag was {drag}");
}

#[test]
fn costs_come_from_the_environment() {
    let m: CostModel<F> = CostModel::from_env(&env(&[
        ("TAKER_FEE_BPS", "7.5"),
        ("MAKER_FEE_BPS", "2"),
        ("SLIPPAGE_BPS", "10"),
    ]));
    assert!((m.taker_fee.0 - 0.00075).abs() < 1e-12);
    assert!((m.maker_fee.0 - 0.0002).abs() < 1e-12);
    assert!((m.slippage.0 - 0.001).abs() < 1e-12);
}

// ----- orders and filters -----

fn sell(kind: OrderKind, price: f64, stop_price: f64) -> OpenOrder<F> {
    OpenOrder {
        order_id: 1,
        symbol: "BTCUSDC".into(),
        side: Side::Sell,
        kind,
        price: f(price),
        stop_price: f(stop_price),
        quantity: f(0.1),
    }
}

#[test]
fn protective_levels_from_oco() {
    let orders = vec![
        sell(OrderKind::LimitMaker, 62_000.0, 0.0),
        sell(OrderKind::StopLossLimit, 56_888.0, 57_000.0),
    ];
    let (sl, tp) = protective_levels(&orders);
    assert!((sl.0 - 57_000.0).abs() < 1e-9);
    assert!((tp.0 - 62_000.0).abs() < 1e-9);
}

#[test]
fn protective_levels_ignores_buy_orders() {
    // A stray buy carries no protection, so both levels stay unset.
    let orders = vec![OpenOrder {
        side: Side::Buy,
        ..sell(OrderKind::Limit, 50_000.0, 0.0)
    }];
    assert_eq!(protective_levels(&orders), (f(0.0), f(0.0)));
}

#[test]
fn protective_levels_empty() {
    assert_eq!(protective_levels::<F>(&[]), (f(0.0), f(0.0)));
}

#[test]
fn protective_levels_ignores_unknown_kind() {
    // An unrecognised type must not be mistaken for a stop at 0.0.
    let orders = vec![sell(OrderKind::Other("TRAILING_STOP".into()), 100.0, 90.0)];
    assert_eq!(protective_levels(&orders), (f(0.0), f(0.0)));
}

#[test]
fn order_kind_round_trips_known_wire_values() {
    assert_eq!(OrderKind::from_wire("LIMIT_MAKER"), OrderKind::LimitMaker);
    assert_eq!(
        OrderKind::from_wire("STOP_LOSS_LIMIT"),
        OrderKind::StopLossLimit
    );
    assert!(OrderKind::from_wire("STOP_LOSS").is_stop());
    assert!(OrderKind::from_wire("TAKE_PROFIT").is_target());
    assert_eq!(
        OrderKind::from_wire("MYSTERY"),
        OrderKind::Other("MYSTERY".into())
    );
}

#[test]
fn sides_have_wire_names() {
    assert_eq!(Side::Buy.as_str(), "BUY");
    assert_eq!(Side::Sell.as_str(), "SELL");
    assert_eq!(Side::from_wire("BUY"), Some(Side::Buy));
    assert_eq!(Side::from_wire("SELL"), Some(Side::Sell));
    assert_eq!(Side::from_wire("buy"), None);
}

fn fill(price: f64, quantity: f64) -> Fill<F> {
    Fill {
        price: f(price),
        quantity: f(quantity),
        commission: f(0.0),
        commission_asset: "BNB".into(),
    }
}

#[test]
fn weighted_average_price_is_volume_weighted() {
    // (100*1 + 200*3) / 4 = 175
    assert_eq!(
        weighted_average_price(&[fill(100.0, 1.0), fill(200.0, 3.0)]),
        Some(f(175.0))
    );
}

#[test]
fn weighted_average_price_none_when_nothing_filled() {
    assert_eq!(weighted_average_price::<F>(&[]), None);
    assert_eq!(weighted_average_price(&[fill(100.0, 0.0)]), None);
}

/// The BTCUSDC rules that Binance publishes.
fn btcusdc() -> SymbolFilters<F> {
    SymbolFilters {
        symbol: "BTCUSDC".into(),
        base_asset: "BTC".into(),
        quote_asset: "USDC".into(),
        step_size: f(0.00001),
        min_qty: f(0.00001),
        max_qty: f(9000.0),
        tick_size: f(0.01),
        min_notional: f(5.0),
    }
}

#[test]
fn quantity_rounds_down_to_the_step_size() {
    let filters = btcusdc();
    // Six-decimal sizing output is not a legal multiple of a 1e-5 step.
    assert_eq!(filters.round_quantity(f(0.000123)).0, 0.00012);
    assert_eq!(filters.round_quantity(f(0.056103)).0, 0.0561);
    assert_eq!(filters.round_quantity(f(0.090946)).0, 0.09094);
}

#[test]
fn quantity_already_on_a_step_boundary_is_unchanged() {
    // 0.00007 / 0.00001 is 6.999... in binary floating point; a naive floor
    // would round a valid quantity down to 0.00006.
    let filters = btcusdc();
    assert_eq!(filters.round_quantity(f(0.00007)).0, 0.00007);
    assert_eq!(filters.round_quantity(f(0.00003)).0, 0.00003);
    assert_eq!(filters.round_quantity(f(0.29)).0, 0.29);
}

#[test]
fn quantity_below_one_step_rounds_to_zero() {
    assert_eq!(btcusdc().round_quantity(f(0.000004)).0, 0.0);
}

#[test]
fn price_rounds_down_to_the_tick_size() {
    let filters = btcusdc();
    assert_eq!(filters.round_price(f(77_214.249)).0, 77_214.24);
    assert_eq!(filters.round_price(f(77_214.24)).0, 77_214.24);
}

#[test]
fn price_rounding_handles_coarse_and_fine_ticks() {
    // A venue tick coarser than a cent: 2-decimal formatting would emit an
    // illegal price.
    let coarse = SymbolFilters {
        tick_size: f(0.1),
        ..btcusdc()
    };
    assert_eq!(coarse.round_price(f(123.45)).0, 123.4);
    // And a sub-cent tick, where 2 decimals would destroy the price.
    let fine = SymbolFilters {
        tick_size: f(0.00000001),
        ..btcusdc()
    };
    assert_eq!(fine.round_price(f(0.00001234)).0, 0.00001234);
}

#[test]
fn order_below_min_notional_is_rejected() {
    let filters = btcusdc();
    // 0.00003 BTC at 77,214 is ~2.32 USDC, under the 5.00 minimum.
    let err = filters.check_order(f(0.00003), f(77_214.24)).unwrap_err();
    assert!(matches!(err, OrderRejection::BelowMinNotional { .. }));
    assert!(err.describe().contains("below the venue minimum"));
}

#[test]
fn order_below_min_quantity_is_rejected() {
    let filters = btcusdc();
    assert!(matches!(
        filters.check_order(f(0.0), f(77_214.24)).unwrap_err(),
        OrderRejection::BelowMinQuantity { .. }
    ));
}

#[test]
fn order_above_max_quantity_is_rejected() {
    let err = btcusdc().check_order(f(9000.5), f(77_214.24)).unwrap_err();
    assert!(matches!(err, OrderRejection::AboveMaxQuantity { .. }));
}

#[test]
fn order_meeting_every_filter_is_accepted() {
    // 0.00012 BTC at 77,214 is ~9.27 USDC, which clears both minimums.
    assert!(btcusdc().check_order(f(0.00012), f(77_214.24)).is_ok());
}

#[test]
fn min_tradable_quantity_clears_the_notional_floor() {
    let filters = btcusdc();
    let price = f(77_214.24);
    let min = filters.min_tradable_quantity(price);
    // 5.00 / 77214.24 = 0.0000647..., which must round *up* to a step.
    assert_eq!(min.0, 0.00007);
    assert!(filters.check_order(min, price).is_ok());
    // One step less must fail, or the floor is not tight.
    assert!(filters
        .check_order(f(min.0 - filters.step_size.0), price)
        .is_err());
}

#[test]
fn decimals_are_derived_from_the_increment() {
    assert_eq!(decimals_for(f(0.00001)), 5);
    assert_eq!(decimals_for(f(0.01)), 2);
    assert_eq!(decimals_for(f(1.0)), 0);
    assert_eq!(decimals_for(f(0.00000001)), 8);
}

#[test]
fn commission_is_summed_per_asset() {
    let outcome = OrderOutcome {
        symbol: "BTCUSDC".into(),
        side: Side::Buy,
        filled_quantity: f(0.00012),
        average_price: f(77_214.24),
        fills: vec![
            Fill {
                price: f(77_214.24),
                quantity: f(0.00008),
                commission: f(0.00000008),
                commission_asset: "BTC".into(),
            },
            Fill {
                price: f(77_215.00),
                quantity: f(0.00004),
                commission: f(0.00000004),
                commission_asset: "BTC".into(),
            },
        ],
    };
    assert!((outcome.commission_paid_in("BTC").0 - 0.00000012).abs() < 1e-12);
    // Fees paid in another asset do not reduce the base holding.
    assert_eq!(outcome.commission_paid_in("BNB").0, 0.0);
}

// ----- indicators -----

#[test]
fn test_atr_basic_range() {
    // Every bar spans exactly 2.0 with no gaps, so ATR must converge on 2.0.
    let highs = series(&[11.0, 12.0, 13.0, 14.0, 15.0, 16.0]);
    let lows = series(&[9.0, 10.0, 11.0, 12.0, 13.0, 14.0]);
    let closes = series(&[10.0, 11.0, 12.0, 13.0, 14.0, 15.0]);
    let out = atr(&highs, &lows, &closes, 3);
    assert!(out[0].is_nan() && out[2].is_nan(), "warmup must be NAN");
    assert!(out[3].is_finite());
    assert!((out[5].0 - 2.0).abs() < 0.5, "got {}", out[5].0);
}

#[test]
fn test_atr_counts_gaps() {
    // A bar that gaps far above the previous close has a true range much
    // larger than its own high-minus-low.
    let highs = series(&[11.0, 12.0, 13.0, 40.0]);
    let lows = series(&[9.0, 10.0, 11.0, 38.0]);
    let closes = series(&[10.0, 11.0, 12.0, 39.0]);
    let out = atr(&highs, &lows, &closes, 3);
    // Final TR is 40 - 12 = 28, far beyond the 2.0 intrabar range.
    assert!(out[3].0 > 5.0, "gap ignored: {}", out[3].0);
}

#[test]
fn test_atr_insufficient_data() {
    let out = atr(
        &series(&[1.0, 2.0]),
        &series(&[0.5, 1.5]),
        &series(&[1.0, 2.0]),
        14,
    );
    assert_eq!(out.len(), 2);
    assert!(out.iter().all(|v| v.is_nan()));
}

#[test]
fn test_atr_is_never_negative() {
    let highs = series(&[11.0, 9.0, 13.0, 8.0, 15.0, 7.0]);
    let lows = series(&[9.0, 7.0, 11.0, 6.0, 13.0, 5.0]);
    let closes = series(&[10.0, 8.0, 12.0, 7.0, 14.0, 6.0]);
    for v in atr(&highs, &lows, &closes, 3)
        .into_iter()
        .filter(|v| v.is_finite())
    {
        assert!(v.0 >= 0.0, "ATR went negative: {}", v.0);
    }
}

#[test]
fn test_atr_mismatched_series_is_rejected() {
    assert!(atr(
        &series(&[1.0, 2.0, 3.0]),
        &series(&[1.0]),
        &series(&[1.0, 2.0, 3.0]),
        2
    )
    .iter()
    .all(|v| v.is_nan()));
}

#[test]
fn test_ema_basic() {
    let data = series(&[
        10.0, 11.0, 12.0, 13.0, 14.0, 15.0, 16.0, 17.0, 18.0, 19.0,
    ]);
    let result = ema(&data, 3);
    assert_eq!(result.len(), data.len());
    assert!(result[0].is_nan());
    assert!(result[1].is_nan());
    // SMA of first 3 = (10+11+12)/3 = 11.0
    assert!((result[2].0 - 11.0).abs() < 0.001);
    // Subsequent values should trend upward
    for i in 3..result.len() {
        assert!(result[i].0 > result[i - 1].0);
    }
}

#[test]
fn test_ema_insufficient_data() {
    let data = series(&[1.0, 2.0]);
    let result = ema(&data, 5);
    assert!(result.iter().all(|v| v.is_nan()));
}

#[test]
fn ema_weighs_the_newest_value_by_two_over_the_period_plus_one() {
    // k = 2/4, seed 2.0: 10*0.5 + 2*0.5 = 6.
    let result = ema(&series(&[1.0, 2.0, 3.0, 10.0]), 3);
    assert_eq!(result[2].0, 2.0);
    assert_eq!(result[3].0, 6.0);
}

#[test]
fn test_rsi_range() {
    // Steadily rising prices should produce RSI near 100
    let data: Vec<F> = (0..50).map(|i| f(100.0 + i as f64)).collect();
    let result = rsi(&data, 14);
    for v in &result[14..] {
        assert!((0.0..=100.0).contains(&v.0), "RSI out of range: {}", v.0);
    }
}

#[test]
fn test_rsi_all_gains() {
    let data: Vec<F> = (0..30).map(|i| f(100.0 + i as f64)).collect();
    let result = rsi(&data, 14);
    let last = result.last().unwrap().0;
    assert!(
        last > 95.0,
        "Pure gains should yield RSI near 100, got {last}"
    );
}

#[test]
fn test_rsi_all_losses() {
    let data: Vec<F> = (0..30).map(|i| f(100.0 - i as f64)).collect();
    let result = rsi(&data, 14);
    let last = result.last().unwrap().0;
    assert!(
        last < 5.0,
        "Pure losses should yield RSI near 0, got {last}"
    );
}

#[test]
fn rsi_of_equal_gains_and_losses_is_fifty() {
    let result = rsi(&series(&[10.0, 11.0, 10.0]), 2);
    assert_eq!(result[2].0, 50.0);
}

#[test]
fn test_macd_lengths() {
    let data: Vec<F> = (0..100)
        .map(|i| f(50.0 + (i as f64).sin() * 5.0))
        .collect();
    let result = macd(&data, 12, 26, 9);
    assert_eq!(result.macd_line.len(), 100);
    assert_eq!(result.signal_line.len(), 100);
    assert_eq!(result.histogram.len(), 100);
}

#[test]
fn macd_of_a_flat_series_is_zero_once_warm() {
    let result = macd(&vec![f(7.0); 40], 12, 26, 9);
    assert!(result.macd_line[24].is_nan());
    assert_eq!(result.macd_line[25].0, 0.0);
    assert_eq!(result.histogram[39].0, 0.0);
}

#[test]
fn macd_of_a_short_series_is_aligned_and_undefined() {
    let result = macd(&series(&[1.0, 2.0]), 12, 26, 9);
    for line in [result.macd_line, result.signal_line, result.histogram] {
        assert_eq!(line.len(), 2);
        assert!(line.iter().all(|v| v.is_nan()));
    }
    assert!(macd::<F>(&[], 12, 26, 9).macd_line.is_empty());
    // One bar short of the slow average, and just enough for it.
    assert!(macd(&vec![f(7.0); 25], 12, 26, 9).macd_line[24].is_nan());
    assert_eq!(macd(&vec![f(7.0); 26], 12, 26, 9).macd_line[25].0, 0.0);
}

#[test]
fn without_room_for_a_pivot_the_last_twenty_lows_count() {
    let mut lows = vec![f(5.0); 21];
    lows[0] = f(1.0);
    assert_eq!(find_nearest_swing_low(&lows, 11), Some(f(5.0)));
    lows[1] = f(2.0);
    assert_eq!(find_nearest_swing_low(&lows, 11), Some(f(2.0)));
    assert_eq!(find_nearest_swing_low::<F>(&[], 3), None);
}

#[test]
fn test_swing_low_basic() {
    //                     0     1     2     3     4     5     6     7     8     9
    let lows = series(&[10.0, 8.0, 5.0, 7.0, 9.0, 11.0, 6.0, 4.0, 7.0, 10.0]);
    // window=2: index 2 (5.0) is a pivot, index 7 (4.0) is a pivot
    let result = find_nearest_swing_low(&lows, 2);
    assert_eq!(result, Some(f(4.0)));
}

#[test]
fn test_swing_low_fallback() {
    // Too few candles for any pivot with window=5
    let lows = series(&[10.0, 9.0, 8.0, 7.0, 6.0]);
    let result = find_nearest_swing_low(&lows, 5);
    assert_eq!(result, Some(f(6.0))); // falls back to min
}

// ----- strategy -----

/// A snapshot that satisfies every entry condition.
fn qualifying() -> IndicatorSnapshot<F> {
    IndicatorSnapshot {
        ema_50: f(60_000.0),
        ema_200: f(55_000.0),
        rsi_14: f(45.0),
        macd_histogram: f(5.0),
        macd_above_signal: true,
        macd_bars_since_cross: Some(1),
        current_price: f(62_000.0),
        swing_low: f(59_000.0),
        atr_14: f(1_000.0),
    }
}

/// Entry and exit both sit exactly on EMA50.
fn bare() -> StrategyParams<F> {
    StrategyParams::default()
}

#[test]
fn a_qualifying_setup_meets_every_condition() {
    let c = EntryConditions::evaluate(&qualifying(), &bare());
    assert!(c.all_met());
    assert_eq!(c.met_count(), 4);
}

#[test]
fn buy_is_returned_exactly_when_all_conditions_hold() {
    // The invariant the status message depends on: if the checklist shows
    // 4/4, the strategy must actually take the trade. Otherwise a
    // notification could promise a setup that never fires.
    let snap = qualifying();
    assert!(EntryConditions::evaluate(&snap, &bare()).all_met());
    assert_eq!(evaluate("BTCUSDC", &snap, &bare()).signal, Signal::Buy);
}

#[test]
fn no_buy_while_any_condition_fails() {
    let mut snap = qualifying();
    snap.rsi_14 = f(80.0); // outside the 35-55 band
    let c = EntryConditions::evaluate(&snap, &bare());
    assert!(!c.all_met());
    assert_eq!(c.met_count(), 3);
    assert_ne!(evaluate("BTCUSDC", &snap, &bare()).signal, Signal::Buy);
}

#[test]
fn an_inverted_ema_stack_fails_the_trend_check() {
    // Price is above EMA50, but EMA50 sits below EMA200, so the trend
    // condition must still fail.
    let mut snap = qualifying();
    snap.ema_50 = f(66_756.0);
    snap.ema_200 = f(71_203.0);
    snap.current_price = f(77_214.0);
    let c = EntryConditions::evaluate(&snap, &bare());
    assert!(!c.trend_bullish);
}

#[test]
fn a_swing_low_above_price_invalidates_the_stop() {
    let mut snap = qualifying();
    snap.swing_low = f(snap.current_price.0 + 1.0);
    assert!(!EntryConditions::evaluate(&snap, &bare()).stop_valid);
}

#[test]
fn checklist_agrees_with_the_individual_flags() {
    let mut snap = qualifying();
    snap.macd_bars_since_cross = None;
    let c = EntryConditions::evaluate(&snap, &bare());
    let checklist = c.checklist();
    assert_eq!(checklist.len(), 4);
    assert_eq!(
        checklist.iter().filter(|(_, met)| *met).count(),
        c.met_count()
    );
    assert!(!checklist[2].1, "MACD row must reflect the failed cross");
}

#[test]
fn default_params_reproduce_the_bare_ema_rule() {
    // Without buffers the bare line decides.
    let mut snap = qualifying();
    snap.current_price = f(snap.ema_50.0 + 0.01);
    assert!(EntryConditions::evaluate(&snap, &bare()).trend_bullish);
}

#[test]
fn an_entry_buffer_rejects_a_marginal_cross() {
    // Price a hair above EMA50 is exactly the setup that buys, gets
    // stopped out by noise, and buys again.
    let mut snap = qualifying();
    snap.current_price = f(snap.ema_50.0 + 0.01);
    let buffered = StrategyParams {
        entry_buffer_atr: f(0.5),
        exit_buffer_atr: f(0.0),
        ..Default::default()
    };
    assert!(!EntryConditions::evaluate(&snap, &buffered).trend_bullish);

    // A decisive move still qualifies: 0.5 ATR is 500 here.
    snap.current_price = f(snap.ema_50.0 + 600.0);
    assert!(EntryConditions::evaluate(&snap, &buffered).trend_bullish);
}

#[test]
fn an_exit_buffer_holds_through_a_marginal_dip() {
    let mut snap = qualifying();
    snap.current_price = f(snap.ema_50.0 - 0.01);
    // Without a buffer this dip is a SELL.
    assert_eq!(evaluate("BTCUSDC", &snap, &bare()).signal, Signal::Sell);

    // With one, it is noise and the position is held.
    let buffered = StrategyParams {
        entry_buffer_atr: f(0.0),
        exit_buffer_atr: f(0.5),
        ..Default::default()
    };
    assert_ne!(evaluate("BTCUSDC", &snap, &buffered).signal, Signal::Sell);

    // A real breakdown still exits.
    snap.current_price = f(snap.ema_50.0 - 600.0);
    assert_eq!(evaluate("BTCUSDC", &snap, &buffered).signal, Signal::Sell);
}

#[test]
fn buffers_create_a_dead_zone_between_entry_and_exit() {
    // The whole point: a price that neither buys nor sells, instead of one
    // threshold doing both jobs.
    let mut snap = qualifying();
    snap.current_price = f(snap.ema_50.0 + 100.0);
    let buffered = StrategyParams {
        entry_buffer_atr: f(0.5),
        exit_buffer_atr: f(0.5),
        ..Default::default()
    };
    assert!(!EntryConditions::evaluate(&snap, &buffered).all_met());
    assert_ne!(evaluate("BTCUSDC", &snap, &buffered).signal, Signal::Sell);
}

#[test]
fn default_params_are_the_historical_rules() {
    let p: StrategyParams<F> = StrategyParams::default();
    assert_eq!(p.rsi_min.0, 35.0);
    assert_eq!(p.rsi_max.0, 55.0);
    assert!(p.macd_require_cross);
    assert_eq!(p.macd_lookback_bars, 3);
}

#[test]
fn a_raised_rsi_ceiling_admits_a_strong_trend() {
    // RSI 62 is typical of an established uptrend and is exactly what the
    // default 55 ceiling excludes.
    let mut snap = qualifying();
    snap.rsi_14 = f(62.0);
    assert!(!EntryConditions::evaluate(&snap, &bare()).rsi_ok);

    let wide = StrategyParams {
        rsi_max: f(70.0),
        ..Default::default()
    };
    assert!(EntryConditions::evaluate(&snap, &wide).rsi_ok);
    assert_eq!(evaluate("BTCUSDC", &snap, &wide).signal, Signal::Buy);
}

#[test]
fn the_rsi_floor_still_rejects_a_collapse() {
    let mut snap = qualifying();
    snap.rsi_14 = f(20.0);
    let wide = StrategyParams {
        rsi_max: f(70.0),
        ..Default::default()
    };
    assert!(!EntryConditions::evaluate(&snap, &wide).rsi_ok);
}

#[test]
fn a_stale_cross_fails_in_cross_mode_but_passes_in_state_mode() {
    // Above signal for 8 bars: a mature leg, not a fresh turn.
    let mut snap = qualifying();
    snap.macd_bars_since_cross = Some(8);
    assert!(!EntryConditions::evaluate(&snap, &bare()).macd_crossed);

    let state = StrategyParams {
        macd_require_cross: false,
        ..Default::default()
    };
    assert!(EntryConditions::evaluate(&snap, &state).macd_crossed);
}

#[test]
fn a_widened_lookback_admits_a_slightly_older_cross() {
    let mut snap = qualifying();
    snap.macd_bars_since_cross = Some(5);
    assert!(!EntryConditions::evaluate(&snap, &bare()).macd_crossed);

    let wider = StrategyParams {
        macd_lookback_bars: 6,
        ..Default::default()
    };
    assert!(EntryConditions::evaluate(&snap, &wider).macd_crossed);
}

#[test]
fn state_mode_still_requires_macd_above_its_signal() {
    // Loosening the recency rule must not turn a bearish MACD into a buy.
    let mut snap = qualifying();
    snap.macd_above_signal = false;
    snap.macd_bars_since_cross = None;
    let state = StrategyParams {
        macd_require_cross: false,
        ..Default::default()
    };
    assert!(!EntryConditions::evaluate(&snap, &state).macd_crossed);
    assert_ne!(evaluate("BTCUSDC", &snap, &state).signal, Signal::Buy);
}

#[test]
fn a_missing_atr_falls_back_to_the_bare_threshold() {
    // A NaN ATR must not disable trading or produce a NaN threshold.
    let mut snap = qualifying();
    snap.atr_14 = f(f64::NAN);
    snap.current_price = f(snap.ema_50.0 + 0.01);
    let buffered = StrategyParams {
        entry_buffer_atr: f(2.0),
        exit_buffer_atr: f(2.0),
        ..Default::default()
    };
    assert!(EntryConditions::evaluate(&snap, &buffered).trend_bullish);
}

#[test]
fn a_buy_aims_at_twice_the_risk() {
    let signal = evaluate("BTCUSDC", &qualifying(), &bare());
    assert_eq!(signal.asset, "BTCUSDC");
    assert_eq!(signal.entry_price.0, 62_000.0);
    assert_eq!(signal.stop_loss.0, 59_000.0);
    assert_eq!(signal.take_profit.0, 68_000.0);
    assert_eq!(signal.risk_reward_ratio.0, 2.0);
}

#[test]
fn params_come_from_the_environment() {
    let p: StrategyParams<F> = StrategyParams::from_env(&env(&[
        ("ENTRY_BUFFER_ATR", "0.5"),
        ("EXIT_BUFFER_ATR", "-1"),
        ("RSI_MIN", "60"),
        ("RSI_MAX", "50"),
        ("MACD_LOOKBACK_BARS", "99"),
    ]));
    assert_eq!(p.entry_buffer_atr.0, 0.5);
    // A negative buffer, an inverted band and a lookback beyond the window are
    // not usable.
    assert!(p.exit_buffer_atr.0 >= 0.0);
    assert!(p.rsi_min.0 < p.rsi_max.0);
    assert!(p.macd_lookback_bars <= 12);
}

#[test]
fn params_are_bounded_whatever_the_environment_says() {
    for text in ["inf", "-inf", "NaN", "1e999"] {
        let p: StrategyParams<F> = StrategyParams::from_env(&env(&[
            ("ENTRY_BUFFER_ATR", text),
            ("EXIT_BUFFER_ATR", text),
            ("TRAILING_STOP_ATR", text),
            ("RSI_MIN", text),
            ("RSI_MAX", text),
        ]));
        assert_eq!(p.entry_buffer_atr.0, 0.0);
        assert_eq!(p.exit_buffer_atr.0, 0.0);
        assert_eq!(p.trailing_stop_atr.0, 0.0);
        assert_eq!(p.rsi_min.0, 35.0);
        assert_eq!(p.rsi_max.0, 55.0);
    }
}

fn candle(i: u64, close: f64) -> Candle<F> {
    Candle {
        open_time: i,
        open: f(close),
        high: f(close + 1.0),
        low: f(close - 1.0),
        close: f(close),
        volume: f(1.0),
        close_time: i,
    }
}

#[test]
fn indicators_need_their_warmup() {
    let daily: Vec<Candle<F>> = (0..200).map(|i| candle(i, 100.0 + i as f64)).collect();
    let four_hour: Vec<Candle<F>> = (0..35).map(|i| candle(i, 300.0 + i as f64)).collect();
    assert!(compute_indicators(&daily[..199], &four_hour, f(340.0)).is_none());
    assert!(compute_indicators(&daily, &four_hour[..34], f(340.0)).is_none());
    let snap = compute_indicators(&daily, &four_hour, f(340.0)).unwrap();
    assert_eq!(snap.current_price.0, 340.0);
    assert!(snap.ema_50.0 > snap.ema_200.0);
    assert!(snap.rsi_14.0 > 99.0);
    assert!((snap.atr_14.0 - 2.0).abs() < 1e-9);
}

// ----- risk -----

fn position(symbol: &str, entry: f64, quantity: f64, stop: f64, target: f64) -> Position<F> {
    Position {
        symbol: symbol.into(),
        entry_price: f(entry),
        quantity: f(quantity),
        stop_loss: f(stop),
        take_profit: f(target),
        entry_time: 0,
        protected: true,
        highest_high: f(entry),
        atr_at_entry: f(0.0),
    }
}

#[test]
fn looser_rules_never_turn_a_condition_off() {
    let strict = StrategyParams {
        entry_buffer_atr: f(1.0),
        ..Default::default()
    };
    let loose = [
        StrategyParams {
            rsi_min: f(20.0),
            ..strict
        },
        StrategyParams {
            rsi_max: f(80.0),
            ..strict
        },
        StrategyParams {
            macd_lookback_bars: 9,
            ..strict
        },
        StrategyParams {
            entry_buffer_atr: f(0.25),
            ..strict
        },
        StrategyParams {
            macd_require_cross: false,
            ..strict
        },
    ];
    let mut admitted = [false; 5];
    for price in [60_100.0, 60_500.0, 61_500.0] {
        for rsi_14 in [25.0, 45.0, 70.0, f64::NAN] {
            for cross in [Some(2), Some(7), None] {
                for above in [true, false] {
                    let snap = IndicatorSnapshot {
                        current_price: f(price),
                        rsi_14: f(rsi_14),
                        macd_bars_since_cross: cross,
                        macd_above_signal: above,
                        ..qualifying()
                    };
                    let a = EntryConditions::evaluate(&snap, &strict);
                    for (i, params) in loose.iter().enumerate() {
                        let b = EntryConditions::evaluate(&snap, params);
                        assert!(!a.trend_bullish || b.trend_bullish);
                        assert!(!a.rsi_ok || b.rsi_ok);
                        assert!(!a.macd_crossed || b.macd_crossed);
                        assert!(!a.stop_valid || b.stop_valid);
                        assert!(above || !b.macd_crossed);
                        admitted[i] |= b.all_met() && !a.all_met();
                    }
                }
            }
        }
    }
    assert_eq!(admitted, [true; 5]);
}

#[test]
fn test_position_sizing() {
    let rm = RiskManager::new(f(10_000.0));
    // balance=10k, entry=50000, stop=49000: distance=1000
    // risk = 10000 * 0.015 = 150, so qty = 150/1000 = 0.15
    let (qty, dist) = rm.calculate_position_size(f(10_000.0), f(50_000.0), f(49_000.0));
    assert!((qty.0 - 0.15).abs() < 1e-6);
    assert!((dist.0 - 1000.0).abs() < 1e-6);
}

#[test]
fn a_position_never_costs_more_than_the_cash_allows() {
    let rm = RiskManager::new(f(10_000.0));
    // The risk alone would buy 1.5, for 75,000; 95% of the cash buys 0.19.
    let (qty, dist) = rm.calculate_position_size(f(10_000.0), f(50_000.0), f(49_900.0));
    assert!((qty.0 - 0.19).abs() < 1e-9);
    assert!((dist.0 - 100.0).abs() < 1e-9);
}

#[test]
fn test_position_sizing_invalid_stop() {
    let rm = RiskManager::new(f(10_000.0));
    // stop above entry: zero
    let (qty, _) = rm.calculate_position_size(f(10_000.0), f(50_000.0), f(51_000.0));
    assert_eq!(qty.0, 0.0);
}

#[test]
fn test_max_positions_enforced() {
    let mut rm = RiskManager::new(f(10_000.0));
    assert!(rm.can_open_position());

    for i in 0..4 {
        rm.open_position(position(&format!("PAIR{i}"), 100.0, 1.0, 90.0, 120.0));
    }
    assert!(!rm.can_open_position());
}

#[test]
fn test_drawdown_triggers_halt() {
    let mut rm = RiskManager::new(f(10_000.0));
    assert!(!rm.check_drawdown(f(9_600.0))); // 4%: OK
    assert!(rm.check_drawdown(f(9_400.0))); // 6%: halted
    assert!(rm.halted);
    assert!(!rm.can_open_position());
}

#[test]
fn a_halt_ends_with_the_day() {
    let mut rm = RiskManager::starting_on(f(10_000.0), RiskLimits::default(), 7);
    assert!(rm.check_drawdown(f(9_400.0)));
    // A recovery on the same day does not lift it.
    assert!(!rm.check_drawdown(f(10_500.0)));
    assert!(rm.halted);
    rm.start_day(7, f(9_400.0));
    assert!(rm.halted);
    rm.start_day(8, f(9_400.0));
    assert!(!rm.halted);
    assert_eq!(rm.day_open_balance.0, 9_400.0);
}

#[test]
fn test_close_position() {
    let mut rm = RiskManager::new(f(10_000.0));
    rm.open_position(position("BTCUSDT", 50_000.0, 0.1, 49_000.0, 52_000.0));
    assert!(rm.has_position("BTCUSDT"));
    let closed = rm.close_position("BTCUSDT");
    assert!(closed.is_some());
    assert!(!rm.has_position("BTCUSDT"));
}

#[test]
fn test_check_exits() {
    let mut rm = RiskManager::new(f(10_000.0));
    rm.open_position(position("ETHUSDT", 3_000.0, 1.0, 2_800.0, 3_400.0));
    // Price between SL and TP: no exit
    assert!(rm.check_exits("ETHUSDT", f(3_100.0)).is_none());
    // Price hits TP
    assert!(rm.check_exits("ETHUSDT", f(3_500.0)).is_some());
    // Price hits SL
    assert!(rm.check_exits("ETHUSDT", f(2_700.0)).is_some());
}

#[test]
fn unset_levels_never_trigger_an_exit() {
    let mut rm = RiskManager::new(f(10_000.0));
    rm.open_position(position("ETHUSDT", 3_000.0, 1.0, 0.0, 0.0));
    assert!(rm.check_exits("ETHUSDT", f(1.0)).is_none());
    assert!(rm.check_exits("ETHUSDT", f(1_000_000.0)).is_none());
}

#[test]
fn sizing_is_capped_by_the_free_balance() {
    let rm = RiskManager::new(f(10_000.0));
    // 150 at risk over a distance of 10 asks for 15 units, or 15,000; 95% of
    // the free 10,000 buys 9.5.
    let (qty, dist) =
        rm.calculate_capped_size(f(10_000.0), f(10_000.0), f(1_000.0), f(990.0));
    assert!((qty.0 - 9.5).abs() < 1e-9);
    assert!((dist.0 - 10.0).abs() < 1e-9);
}

#[test]
fn days_are_counted_from_the_epoch() {
    assert_eq!(utc_day_of(0), 0);
    assert_eq!(utc_day_of(86_399_999), 0);
    assert_eq!(utc_day_of(86_400_000), 1);
}
