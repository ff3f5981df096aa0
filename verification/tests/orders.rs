use tempest::clock::utc_day_of;
use tempest::config::{Config, Environment};
use tempest::cycle::{closed_only, force_close_asked, CycleRun, CycleStep};
use tempest::equity::{EquityRun, EquityStep};
use tempest::exchange::{
    AccountSnapshot, Balance, Candle, Fill, OcoPlacement, OpenOrder, OrderKind, OrderOutcome, Side,
    StopPlacement, SymbolFilters,
};
use tempest::executor::{format_holding_period, Executor};
use tempest::notify::Notifier;
use tempest::number::Number;
use tempest::reconcile::{Counts, ReconcileRun, ReconcileStep};
use tempest::risk::{Position, RiskLimits, RiskManager};
use tempest::strategy::{Signal, StrategyParams, TradeSignal};
use tempest::venue::{CycleError, ExecError, Interval, Notice, Reply, Request, Step, Trouble};

/// Machine floats.
#[derive(Debug, Clone, Copy, PartialEq)]
struct F(f64);

impl Number for F {
    fn ratio(num: i64, den: u64) -> Self {
        F(num as f64 / den as f64)
    }
    fn count(n: u64) -> Self {
        F(n as f64)
    }
    fn nan() -> Self {
        F(f64::NAN)
    }
    fn min_value() -> Self {
        F(f64::MIN)
    }
    fn max_value() -> Self {
        F(f64::MAX)
    }
    fn plus(self, other: Self) -> Self {
        F(self.0 + other.0)
    }
    fn minus(self, other: Self) -> Self {
        F(self.0 - other.0)
    }
    fn times(self, other: Self) -> Self {
        F(self.0 * other.0)
    }
    fn over(self, other: Self) -> Self {
        F(self.0 / other.0)
    }
    fn neg(self) -> Self {
        F(-self.0)
    }
    fn abs(self) -> Self {
        F(self.0.abs())
    }
    fn floor(self) -> Self {
        F(self.0.floor())
    }
    fn ceil(self) -> Self {
        F(self.0.ceil())
    }
    fn round(self) -> Self {
        F(self.0.round())
    }
    fn is_nan(self) -> bool {
        self.0.is_nan()
    }
    fn is_finite(self) -> bool {
        self.0.is_finite()
    }
    fn below(self, other: Self) -> bool {
        self.0 < other.0
    }
    fn at_most(self, other: Self) -> bool {
        self.0 <= other.0
    }
    fn equals(self, other: Self) -> bool {
        self.0 == other.0
    }
    fn ranked(self, other: Self) -> bool {
        self.0.total_cmp(&other.0).is_le()
    }
    fn to_index(self) -> usize {
        self.0 as usize
    }
    fn to_fixed(self, decimals: usize) -> String {
        format!("{:.*}", decimals, self.0)
    }
    fn to_fixed_signed(self, decimals: usize) -> String {
        format!("{:+.*}", decimals, self.0)
    }
    fn to_shortest(self) -> String {
        format!("{}", self.0)
    }
    fn parse(text: &str) -> Option<Self> {
        text.parse().ok().map(F)
    }
}

fn env(vars: &[(&str, &str)]) -> Environment {
    Environment {
        vars: vars
            .iter()
            .map(|(k, v)| (k.to_string(), v.to_string()))
            .collect(),
    }
}

fn f(v: f64) -> F {
    F(v)
}

const NOW: u64 = 1_700_000_000_000;

/// Scriptable stand-in for the venue. Records what was asked of it so tests can
/// assert on call order as well as on resulting state.
#[derive(Default)]
struct FakeExchange {
    /// `(symbol, side, quantity)` per market order, in call order.
    market_orders: Vec<(String, Side, f64)>,
    /// `(symbol, quantity, take_profit, stop)` per OCO attempt.
    oco_requests: Vec<(String, f64, f64, f64)>,
    /// `(symbol, quantity, stop_price)` per standalone stop attempt.
    stop_requests: Vec<(String, f64, f64)>,
    /// Every order operation in the order it happened.
    call_log: Vec<&'static str>,
    notices: Vec<Notice<F>>,

    /// `(average_price, filled_quantity)` the venue reports for a fill.
    fill: Option<(f64, f64)>,
    /// Fee charged in the base asset, as Binance does for spot BUYs.
    base_fee: f64,
    oco_rejects: bool,
    market_order_rejects: bool,
    stop_rejects: bool,
    cancel_rejects: bool,
    filters_fail: bool,
    account_fails: bool,
    price_fails: bool,
    free_quote: f64,
    holdings: Vec<(&'static str, f64)>,
    price: f64,
    resting: Vec<OpenOrder<F>>,
    daily: Vec<Candle<F>>,
    four_hour: Vec<Candle<F>>,
}

/// 1e-5 lot step, 0.01 tick, 5.00 USDC minimum.
fn btcusdc_filters() -> SymbolFilters<F> {
    SymbolFilters {
        symbol: "BTCUSDC".into(),
        base_asset: "BTC".into(),
        quote_asset: "USDC".into(),
        step_size: f(0.00001),
        min_qty: f(0.00001),
        max_qty: f(9000.0),
        tick_size: f(0.01),
        min_notional: f(5.0),
    }
}

impl FakeExchange {
    fn filling_at(price: f64, qty: f64) -> Self {
        Self {
            fill: Some((price, qty)),
            ..Default::default()
        }
    }

    fn calls(&self) -> Vec<&'static str> {
        self.call_log.clone()
    }

    fn answer(&mut self, request: Request<F>) -> Reply<F> {
        match request {
            Request::Filters { .. } => Reply::Filters(if self.filters_fail {
                Err("no exchange info".into())
            } else {
                Ok(btcusdc_filters())
            }),
            Request::MarketOrder {
                symbol,
                side,
                quantity,
            } => {
                self.call_log.push("market_order");
                self.market_orders.push((symbol.clone(), side, quantity.0));
                if self.market_order_rejects {
                    return Reply::Order(Err("insufficient balance".into()));
                }
                let (average_price, filled_quantity) = self.fill.unwrap_or((0.0, quantity.0));
                Reply::Order(Ok(OrderOutcome {
                    symbol,
                    side,
                    filled_quantity: f(filled_quantity),
                    average_price: f(average_price),
                    fills: vec![Fill {
                        price: f(average_price),
                        quantity: f(filled_quantity),
                        commission: f(self.base_fee),
                        commission_asset: "BTC".into(),
                    }],
                }))
            }
            Request::OcoSell {
                symbol,
                quantity,
                take_profit,
                stop,
                ..
            } => {
                self.call_log.push("place_oco_sell");
                self.oco_requests
                    .push((symbol, quantity.0, take_profit.0, stop.0));
                if self.oco_rejects {
                    return Reply::Oco(Err(
                        "Binance API error -1013: Filter failure: MIN_NOTIONAL".into()
                    ));
                }
                Reply::Oco(Ok(OcoPlacement {
                    order_list_id: 4242,
                    stop_price: stop,
                    take_profit_price: take_profit,
                }))
            }
            Request::StopLoss {
                symbol,
                quantity,
                stop,
                ..
            } => {
                self.call_log.push("place_stop_loss");
                self.stop_requests.push((symbol, quantity.0, stop.0));
                if self.stop_rejects {
                    return Reply::Stop(Err(
                        "Binance API error -2010: insufficient balance".into()
                    ));
                }
                Reply::Stop(Ok(StopPlacement {
                    order_id: 77,
                    stop_price: stop,
                }))
            }
            Request::CancelOrders { .. } => {
                self.call_log.push("cancel_open_orders");
                Reply::Cancelled(if self.cancel_rejects {
                    Err("unknown order".into())
                } else {
                    Ok(())
                })
            }
            Request::OpenOrders { .. } => {
                self.call_log.push("open_orders");
                Reply::Orders(Ok(std::mem::take(&mut self.resting)))
            }
            Request::Price { .. } => Reply::Price(if self.price_fails {
                Err("no price".into())
            } else {
                Ok(f(self.price))
            }),
            Request::Klines { interval, .. } => Reply::Klines(Ok(match interval {
                Interval::Daily => self.daily.clone(),
                Interval::FourHour => self.four_hour.clone(),
            })),
            Request::Account => Reply::Account(if self.account_fails {
                Err("invalid key".into())
            } else {
                Ok(AccountSnapshot {
                    free_quote: f(self.free_quote),
                    assets: self
                        .holdings
                        .iter()
                        .map(|(asset, quantity)| Balance {
                            asset: asset.to_string(),
                            quantity: f(*quantity),
                        })
                        .collect(),
                })
            }),
            Request::Notify(notice) => {
                self.notices.push(notice);
                Reply::Notified
            }
        }
    }
}

fn buy_signal() -> TradeSignal<F> {
    TradeSignal {
        asset: "BTCUSDC".into(),
        signal: Signal::Buy,
        confidence: "HIGH".into(),
        entry_price: f(50_000.0),
        stop_loss: f(49_000.0),
        take_profit: f(52_000.0),
        risk_reward_ratio: f(2.0),
        reasoning: "test".into(),
        warnings: Vec::new(),
        atr: f(1_000.0),
    }
}

fn open_position(rm: &mut RiskManager<F>, symbol: &str, qty: f64) {
    rm.open_position(Position {
        symbol: symbol.into(),
        entry_price: f(50_000.0),
        quantity: f(qty),
        stop_loss: f(49_000.0),
        take_profit: f(52_000.0),
        entry_time: 0,
        protected: true,
        highest_high: f(50_000.0),
        atr_at_entry: f(1_000.0),
    });
}

/// A 3-ATR chandelier.
fn trailing() -> StrategyParams<F> {
    StrategyParams {
        trailing_stop_atr: f(3.0),
        ..Default::default()
    }
}

fn execute_buy(
    venue: &mut FakeExchange,
    quantity: f64,
    rm: &mut RiskManager<F>,
    params: &StrategyParams<F>,
) -> Result<(), ExecError<F>> {
    let (mut run, mut step) = Executor::execute_buy(&buy_signal(), f(quantity), params);
    loop {
        match step {
            Step::Ask(request) => (run, step) = run.step(venue.answer(request), NOW, rm),
            Step::Done(result) => return result,
        }
    }
}

fn execute_sell(
    venue: &mut FakeExchange,
    symbol: &str,
    rm: &mut RiskManager<F>,
) -> Result<(), ExecError<F>> {
    let (mut run, mut step) = Executor::execute_sell(&symbol.to_string(), rm)?;
    loop {
        match step {
            Step::Ask(request) => (run, step) = run.step(venue.answer(request), rm),
            Step::Done(result) => return result,
        }
    }
}

fn maintain_protection(
    venue: &mut FakeExchange,
    symbol: &str,
    price: f64,
    params: &StrategyParams<F>,
    rm: &mut RiskManager<F>,
) -> Result<(), ExecError<F>> {
    let begun = Executor::maintain_protection(&symbol.to_string(), f(price), params, rm);
    let Some((mut run, mut step)) = begun else {
        return Ok(());
    };
    loop {
        match step {
            Step::Ask(request) => (run, step) = run.step(venue.answer(request), rm),
            Step::Done(result) => return result,
        }
    }
}

// ----- BUY -----

#[test]
fn buy_marks_position_protected_only_after_oco_confirms() {
    let mut venue = FakeExchange::filling_at(50_100.0, 0.003);
    let mut rm = RiskManager::new(f(10_000.0));

    execute_buy(&mut venue, 0.003, &mut rm, &StrategyParams::default()).unwrap();

    let pos = &rm.positions[0];
    assert!(
        pos.protected,
        "confirmed OCO must mark the position protected"
    );
    assert_eq!(pos.quantity.0, 0.003);
    // Entry is the realised fill, not the pre-trade quote.
    assert_eq!(pos.entry_price.0, 50_100.0);
    assert_eq!(venue.calls(), vec!["market_order", "place_oco_sell"]);
}

#[test]
fn buy_leaves_position_tracked_but_unprotected_when_oco_rejected() {
    let mut venue = FakeExchange {
        oco_rejects: true,
        ..FakeExchange::filling_at(50_100.0, 0.003)
    };
    let mut rm = RiskManager::new(f(10_000.0));

    // The buy itself still succeeded: the caller must not treat this as a
    // failed entry, or it would re-buy on the next cycle.
    execute_buy(&mut venue, 0.003, &mut rm, &StrategyParams::default()).unwrap();

    let pos = &rm.positions[0];
    assert!(!pos.protected, "rejected OCO must never read as protected");
    // Still tracked, and with live levels, so `check_exits` can act as the
    // only remaining stop.
    assert!(rm.has_position("BTCUSDC"));
    assert_eq!(pos.stop_loss.0, 49_000.0);
    assert!(pos.take_profit.0 > 0.0);
    // And the operator hears of it.
    assert!(venue
        .notices
        .iter()
        .any(|n| matches!(n, Notice::Error(Trouble::Unprotected { .. }))));
}

#[test]
fn take_profit_is_two_to_one_against_the_realised_fill() {
    // Filled 100 above the quote: risk is 50_100 - 49_000 = 1_100, so the
    // target must move to 50_100 + 2_200, not stay at the signal's 52_000.
    let mut venue = FakeExchange::filling_at(50_100.0, 0.003);
    let mut rm = RiskManager::new(f(10_000.0));

    execute_buy(&mut venue, 0.003, &mut rm, &StrategyParams::default()).unwrap();

    assert!((rm.positions[0].take_profit.0 - 52_300.0).abs() < 1e-6);
    // The OCO is placed at exactly the levels the position records.
    let (_, qty, tp, stop) = venue.oco_requests[0].clone();
    assert_eq!(qty, 0.003);
    assert!((tp - 52_300.0).abs() < 1e-6);
    assert_eq!(stop, 49_000.0);
}

#[test]
fn buy_falls_back_to_signal_entry_when_venue_reports_no_fill_price() {
    let mut venue = FakeExchange::default(); // average_price 0.0
    let mut rm = RiskManager::new(f(10_000.0));

    execute_buy(&mut venue, 0.003, &mut rm, &StrategyParams::default()).unwrap();

    assert_eq!(rm.positions[0].entry_price.0, 50_000.0);
}

#[test]
fn failed_buy_registers_no_position() {
    let mut venue = FakeExchange {
        market_order_rejects: true,
        ..Default::default()
    };
    let mut rm = RiskManager::new(f(10_000.0));

    let result = execute_buy(&mut venue, 0.003, &mut rm, &StrategyParams::default());

    assert!(result.is_err());
    assert!(rm.positions.is_empty());
    // No OCO should be attempted over a position that does not exist.
    assert_eq!(venue.calls(), vec!["market_order"]);
}

#[test]
fn buy_quantity_is_rounded_down_to_the_venue_step() {
    // 0.000123 is what 1.5%-of-equity sizing produces; it is not a legal
    // multiple of the 1e-5 step and Binance would reject it with -1013.
    let mut venue = FakeExchange::filling_at(50_000.0, 0.00012);
    let mut rm = RiskManager::new(f(19.0));

    execute_buy(&mut venue, 0.000123, &mut rm, &StrategyParams::default()).unwrap();

    let (_, _, sent_qty) = venue.market_orders[0].clone();
    assert_eq!(sent_qty, 0.00012, "quantity must be a whole step");
}

#[test]
fn buy_below_min_notional_is_refused_before_reaching_the_venue() {
    // 0.00003 BTC at 50,000 is 1.50 USDC, under the 5.00 minimum.
    let mut venue = FakeExchange::filling_at(50_000.0, 0.00003);
    let mut rm = RiskManager::new(f(19.0));

    let err = execute_buy(&mut venue, 0.00003, &mut rm, &StrategyParams::default())
        .unwrap_err()
        .describe();

    assert!(err.contains("below the venue minimum"), "got: {err}");
    // The point of pre-checking is that no doomed order is sent.
    assert!(venue.calls().is_empty());
    assert!(rm.positions.is_empty());
    // And the operator is told what size would actually work.
    assert!(err.contains("smallest tradable size"), "got: {err}");
}

#[test]
fn oco_brackets_only_what_the_fee_left_behind() {
    // Binance takes the spot BUY fee in BTC, so bracketing the gross fill
    // would be rejected for insufficient balance.
    let mut venue = FakeExchange {
        base_fee: 0.00000012,
        ..FakeExchange::filling_at(50_000.0, 0.00012)
    };
    let mut rm = RiskManager::new(f(19.0));

    execute_buy(&mut venue, 0.00012, &mut rm, &StrategyParams::default()).unwrap();

    // 0.00012 - 0.00000012 = 0.00011988, rounded down to a whole step.
    let (_, oco_qty, _, _) = venue.oco_requests[0].clone();
    assert_eq!(oco_qty, 0.00011);
    assert!(oco_qty < 0.00012);
}

#[test]
fn oco_prices_are_snapped_to_the_tick() {
    let mut venue = FakeExchange::filling_at(50_000.33, 0.00012);
    let mut rm = RiskManager::new(f(19.0));

    execute_buy(&mut venue, 0.00012, &mut rm, &StrategyParams::default()).unwrap();

    let (_, _, tp, stop) = venue.oco_requests[0].clone();
    // 50_000.33 + 2*(50_000.33 - 49_000) = 52_001.  Both legs must land on
    // a whole cent.
    assert_eq!((tp * 100.0).round() / 100.0, tp);
    assert_eq!((stop * 100.0).round() / 100.0, stop);
}

#[test]
fn oco_is_not_attempted_when_a_leg_cannot_clear_the_minimum() {
    // A fill so small that the stop leg falls under 5.00 USDC. Sending it
    // would be rejected, so the position must be reported unprotected
    // rather than appearing to have a bracket.
    let mut venue = FakeExchange::filling_at(50_000.0, 0.00002);
    let mut rm = RiskManager::new(f(19.0));

    execute_buy(&mut venue, 0.00012, &mut rm, &StrategyParams::default()).unwrap();

    assert!(!rm.positions[0].protected);
    assert_eq!(venue.calls(), vec!["market_order"], "no doomed OCO sent");
}

// ----- trailing stop -----

#[test]
fn a_trailing_entry_places_a_stop_and_no_target() {
    // Capping the winner is the thing the trail exists to avoid, so the
    // take-profit must be left unset rather than placed at 2R.
    let mut venue = FakeExchange::filling_at(50_000.0, 0.00012);
    let mut rm = RiskManager::new(f(19.0));

    execute_buy(&mut venue, 0.00012, &mut rm, &trailing()).unwrap();

    assert_eq!(venue.calls(), vec!["market_order", "place_stop_loss"]);
    let pos = &rm.positions[0];
    assert!(pos.protected);
    assert_eq!(pos.take_profit.0, 0.0, "no target under a trailing stop");
    assert_eq!(pos.atr_at_entry.0, 1_000.0);
}

#[test]
fn the_stop_ratchets_up_as_price_advances() {
    let mut venue = FakeExchange::default();
    let mut rm = RiskManager::new(f(10_000.0));
    open_position(&mut rm, "BTCUSDC", 0.001);

    // Price runs to 56,000: trail = 56,000 - 3*1,000 = 53,000.
    maintain_protection(&mut venue, "BTCUSDC", 56_000.0, &trailing(), &mut rm).unwrap();

    assert_eq!(rm.positions[0].stop_loss.0, 53_000.0);
    assert_eq!(rm.positions[0].highest_high.0, 56_000.0);
    // The old order must go before the new one, since it reserves the asset.
    assert_eq!(
        venue.calls(),
        vec!["cancel_open_orders", "place_stop_loss"]
    );
}

#[test]
fn the_stop_never_moves_down() {
    let mut venue = FakeExchange::default();
    let mut rm = RiskManager::new(f(10_000.0));
    open_position(&mut rm, "BTCUSDC", 0.001);

    maintain_protection(&mut venue, "BTCUSDC", 56_000.0, &trailing(), &mut rm).unwrap();
    // Price falls back; the ratchet must hold, not retreat.
    maintain_protection(&mut venue, "BTCUSDC", 51_000.0, &trailing(), &mut rm).unwrap();

    assert_eq!(rm.positions[0].stop_loss.0, 53_000.0);
    assert_eq!(rm.positions[0].highest_high.0, 56_000.0);
}

#[test]
fn many_calls_only_ever_raise_the_stop_and_the_mark() {
    let mut venue = FakeExchange::default();
    let mut rm = RiskManager::new(f(10_000.0));
    open_position(&mut rm, "ETHUSDC", 1.0);
    open_position(&mut rm, "BTCUSDC", 0.003);
    let first = rm.positions[1].clone();
    let other = rm.positions[0].clone();
    let mut mark = first.highest_high.0;
    let mut stop = first.stop_loss.0;
    for (i, price) in [56_000.0, 51_000.0, 57_123.456, 40_000.0, 57_200.0, 63_000.0]
        .into_iter()
        .enumerate()
    {
        // A stop that is refused on the way is placed again later.
        venue.stop_rejects = i == 2;
        let _ = maintain_protection(&mut venue, "BTCUSDC", price, &trailing(), &mut rm);
        mark = mark.max(price);
        let now = &rm.positions[1];
        assert!(now.stop_loss.0 >= stop);
        stop = now.stop_loss.0;
        assert_eq!(
            *now,
            Position {
                stop_loss: f(stop),
                highest_high: f(mark),
                protected: i != 2,
                ..first.clone()
            }
        );
        assert_eq!(rm.positions[0], other);
    }
    assert_eq!(mark, 63_000.0);
    assert_eq!(stop, 60_000.0);
}

#[test]
fn a_small_advance_does_not_churn_the_order() {
    // Every replace opens a window with nothing protecting the position,
    // so a few ticks of gain must not trigger one.
    let mut venue = FakeExchange::default();
    let mut rm = RiskManager::new(f(10_000.0));
    open_position(&mut rm, "BTCUSDC", 0.001);

    // Price 52,100 gives trail 49,100, under the 49,250 that a quarter of an
    // ATR above the stop asks for.
    maintain_protection(&mut venue, "BTCUSDC", 52_100.0, &trailing(), &mut rm).unwrap();

    assert_eq!(rm.positions[0].stop_loss.0, 49_000.0, "stop should not move");
    assert!(venue.calls().is_empty(), "no orders should be touched");
}

#[test]
fn a_failed_replace_marks_the_position_unprotected() {
    // The old order is already cancelled at this point, so the position is
    // genuinely naked and must not be recorded as safe.
    let mut venue = FakeExchange {
        stop_rejects: true,
        ..Default::default()
    };
    let mut rm = RiskManager::new(f(10_000.0));
    open_position(&mut rm, "BTCUSDC", 0.001);

    let result = maintain_protection(&mut venue, "BTCUSDC", 56_000.0, &trailing(), &mut rm);

    assert!(result.is_err());
    assert!(!rm.positions[0].protected);
    assert!(rm.has_position("BTCUSDC"), "position must stay tracked");
}

#[test]
fn an_unprotected_position_is_repaired_without_cancelling() {
    // Repairing after a failed replace: nothing is resting, so issuing a
    // cancel would be pointless and could mask a real error.
    let mut venue = FakeExchange::default();
    let mut rm = RiskManager::new(f(10_000.0));
    open_position(&mut rm, "BTCUSDC", 0.001);
    rm.positions[0].protected = false;

    maintain_protection(&mut venue, "BTCUSDC", 50_100.0, &trailing(), &mut rm).unwrap();

    assert!(rm.positions[0].protected);
    assert_eq!(venue.calls(), vec!["place_stop_loss"]);
}

#[test]
fn maintenance_is_inert_without_a_position() {
    let mut venue = FakeExchange::default();
    let mut rm = RiskManager::new(f(10_000.0));

    maintain_protection(&mut venue, "BTCUSDC", 56_000.0, &trailing(), &mut rm).unwrap();

    assert!(venue.calls().is_empty());
}

#[test]
fn a_protected_position_is_left_alone_when_trailing_is_off() {
    let mut venue = FakeExchange::default();
    let mut rm = RiskManager::new(f(10_000.0));
    open_position(&mut rm, "BTCUSDC", 0.001);

    maintain_protection(
        &mut venue,
        "BTCUSDC",
        90_000.0,
        &StrategyParams::default(),
        &mut rm,
    )
    .unwrap();

    assert_eq!(rm.positions[0].stop_loss.0, 49_000.0);
    assert!(venue.calls().is_empty());
}

// ----- SELL -----

#[test]
fn sell_cancels_resting_oco_before_market_selling() {
    // The resting OCO reserves the base asset; selling first would be
    // rejected for insufficient balance.
    let mut venue = FakeExchange::filling_at(51_000.0, 0.003);
    let mut rm = RiskManager::new(f(10_000.0));
    open_position(&mut rm, "BTCUSDC", 0.003);

    execute_sell(&mut venue, "BTCUSDC", &mut rm).unwrap();

    assert_eq!(venue.calls(), vec!["cancel_open_orders", "market_order"]);
    assert!(!rm.has_position("BTCUSDC"));
    let (_, side, qty) = venue.market_orders[0].clone();
    assert_eq!(side, Side::Sell);
    assert_eq!(qty, 0.003);
}

#[test]
fn failed_sell_keeps_the_position_tracked() {
    // The bot still holds the base asset. Dropping it from the risk manager
    // would leave real exposure invisible to every later cycle.
    let mut venue = FakeExchange {
        market_order_rejects: true,
        ..Default::default()
    };
    let mut rm = RiskManager::new(f(10_000.0));
    open_position(&mut rm, "BTCUSDC", 0.003);

    let result = execute_sell(&mut venue, "BTCUSDC", &mut rm);

    assert!(result.is_err());
    assert!(
        rm.has_position("BTCUSDC"),
        "position must survive a failed sell"
    );
    assert_eq!(rm.positions[0].quantity.0, 0.003);
}

#[test]
fn a_sale_without_filters_keeps_the_position_as_it_was() {
    let mut venue = FakeExchange {
        filters_fail: true,
        ..Default::default()
    };
    let mut rm = RiskManager::new(f(10_000.0));
    open_position(&mut rm, "BTCUSDC", 0.003);
    open_position(&mut rm, "ETHUSDC", 0.05);
    let held = rm.positions[0].clone();
    let other = rm.positions[1].clone();

    let err = execute_sell(&mut venue, "BTCUSDC", &mut rm).unwrap_err();
    assert_eq!(err.describe(), "no exchange info");
    assert_eq!(venue.calls(), vec!["cancel_open_orders"]);
    assert_eq!(rm.positions, vec![other, held]);

    // The next cycle can retry.
    let mut working = FakeExchange::filling_at(51_000.0, 0.003);
    execute_sell(&mut working, "BTCUSDC", &mut rm).unwrap();
    assert!(!rm.has_position("BTCUSDC"));
    assert!(rm.has_position("ETHUSDC"));
}

#[test]
fn selling_an_untracked_symbol_is_an_error_and_places_no_order() {
    let mut venue = FakeExchange::default();
    let mut rm = RiskManager::new(f(10_000.0));

    assert!(execute_sell(&mut venue, "BTCUSDC", &mut rm).is_err());
    assert!(venue.calls().is_empty());
}

#[test]
fn execution_errors_are_told_apart() {
    let mut rm = RiskManager::new(f(10_000.0));
    let params = StrategyParams::default();
    let mut no_rules = FakeExchange {
        filters_fail: true,
        ..Default::default()
    };
    let err = execute_buy(&mut no_rules, 0.003, &mut rm, &params).unwrap_err();
    assert!(matches!(err, ExecError::Venue(_)));
    assert_eq!(err.describe(), "no exchange info");

    let mut venue = FakeExchange::default();
    let err = execute_buy(&mut venue, 0.00003, &mut rm, &params).unwrap_err();
    assert!(matches!(err, ExecError::Refused { .. }));
    let err = execute_sell(&mut venue, "BTCUSDC", &mut rm).unwrap_err();
    assert!(matches!(err, ExecError::NoPosition { .. }));
    assert_eq!(err.describe(), "No open position for BTCUSDC");

    open_position(&mut rm, "BTCUSDC", 0.003);
    let mut refusing = FakeExchange {
        market_order_rejects: true,
        ..Default::default()
    };
    let err = execute_sell(&mut refusing, "BTCUSDC", &mut rm).unwrap_err();
    assert!(matches!(err, ExecError::SellFailed { .. }));
    assert_eq!(
        err.describe(),
        "Market sell failed for BTCUSDC: insufficient balance"
    );

    let mut stuck = FakeExchange {
        cancel_rejects: true,
        ..Default::default()
    };
    let err =
        maintain_protection(&mut stuck, "BTCUSDC", 56_000.0, &trailing(), &mut rm).unwrap_err();
    assert!(matches!(err, ExecError::CancelFailed { .. }));
    // The old stop is still in place.
    assert!(rm.positions[0].protected);
    assert_eq!(rm.positions[0].stop_loss.0, 49_000.0);
    assert_eq!(stuck.calls(), vec!["cancel_open_orders"]);
}

#[test]
fn holding_period_is_unknown_for_reconciled_positions() {
    // Reconciliation cannot recover the original entry time.
    assert_eq!(format_holding_period(0, 1_700_000_000_000), "unknown");
}

#[test]
fn holding_period_never_reports_a_negative_span() {
    // Clock skew must not produce a wrapped, enormous duration.
    assert_eq!(
        format_holding_period(1_700_000_000_000, 1_699_000_000_000),
        "unknown"
    );
}

#[test]
fn holding_period_scales_its_unit() {
    let base = 1_700_000_000_000u64;
    assert_eq!(format_holding_period(base, base + 45 * 60_000), "45m");
    assert_eq!(format_holding_period(base, base + 150 * 60_000), "2h30m");
    // A swing trade held four and a half days.
    assert_eq!(format_holding_period(base, base + 6_480 * 60_000), "4d12h");
}

#[test]
fn close_all_positions_empties_the_book() {
    let mut venue = FakeExchange::filling_at(51_000.0, 1.0);
    let mut rm = RiskManager::new(f(10_000.0));
    open_position(&mut rm, "BTCUSDC", 0.003);
    open_position(&mut rm, "ETHUSDC", 0.5);

    let (mut run, mut step) = Executor::close_all_positions(&mut rm);
    while let Step::Ask(request) = step {
        (run, step) = run.step(venue.answer(request), &mut rm);
    }

    assert!(rm.positions.is_empty());
    assert_eq!(venue.market_orders.len(), 2);
}

// ----- equity -----

fn config() -> Config<F> {
    Config {
        base_url: "https://testnet.binance.vision".to_string(),
        api_key: "test_key".to_string(),
        api_secret: "test_secret".to_string(),
        quote_asset: "USDC".to_string(),
        trading_pairs: vec!["BTCUSDC".to_string()],
        poll_interval_secs: 300,
        backtest_mode: false,
        risk: Default::default(),
    }
}

#[test]
fn equity_prices_what_is_configured() {
    // The stray asset trades on no configured pair and is left out.
    let mut venue = FakeExchange {
        free_quote: 100.0,
        holdings: vec![("BTC", 2.0), ("DOGE", 1_000.0)],
        price: 50.0,
        ..Default::default()
    };
    let (mut run, mut step) = EquityRun::begin();
    let equity = loop {
        match step {
            EquityStep::Ask(request) => (run, step) = run.step(venue.answer(request), &config()),
            EquityStep::Done(result) => break result.unwrap(),
        }
    };
    assert_eq!(equity.free_quote.0, 100.0);
    assert_eq!(equity.total.0, 200.0);
}

#[test]
fn equity_without_a_price_is_an_error() {
    let mut venue = FakeExchange {
        free_quote: 100.0,
        holdings: vec![("BTC", 2.0)],
        price_fails: true,
        ..Default::default()
    };
    let (mut run, mut step) = EquityRun::begin();
    let result = loop {
        match step {
            EquityStep::Ask(request) => (run, step) = run.step(venue.answer(request), &config()),
            EquityStep::Done(result) => break result,
        }
    };
    assert!(matches!(result, Err(CycleError::CannotPrice { .. })));
}

// ----- the cycle -----

fn candle(close_time: u64, close: f64) -> Candle<F> {
    Candle {
        open_time: close_time,
        open: f(close),
        high: f(close * 1.01),
        low: f(close * 0.99),
        close: f(close),
        volume: f(1.0),
        close_time,
    }
}

/// A market that rises faster and faster.
fn rising(venue: &mut FakeExchange) {
    venue.daily = (0..220)
        .map(|i| candle(NOW - 1_000_000 + i, 100.0 + i as f64))
        .collect();
    venue.four_hour = (0..60)
        .map(|i| candle(NOW - 1_000_000 + i, 300.0 * 1.002f64.powi(i as i32)))
        .collect();
    venue.price = 340.0;
}

/// Rules that let a rising market in.
fn open_rules() -> StrategyParams<F> {
    StrategyParams {
        rsi_max: f(100.0),
        macd_require_cross: false,
        ..Default::default()
    }
}

fn run_cycle(
    venue: &mut FakeExchange,
    force_close: bool,
    params: StrategyParams<F>,
    rm: &mut RiskManager<F>,
) -> Result<(), CycleError> {
    let (mut run, mut step) = CycleRun::begin(force_close, params, rm);
    loop {
        match step {
            CycleStep::Ask(request) => {
                (run, step) = run.step(venue.answer(request), NOW, &config(), rm)
            }
            CycleStep::Done(result) => return result,
        }
    }
}

#[test]
fn a_cycle_buys_a_qualifying_setup_once() {
    let mut venue = FakeExchange {
        free_quote: 10_000.0,
        fill: Some((340.0, 1.0)),
        ..Default::default()
    };
    rising(&mut venue);
    let mut rm = RiskManager::new(f(10_000.0));
    run_cycle(&mut venue, false, open_rules(), &mut rm).unwrap();
    assert_eq!(venue.calls(), vec!["market_order", "place_oco_sell"]);
    assert!(rm.has_position("BTCUSDC"));
    // What is held already is not bought again.
    run_cycle(&mut venue, false, open_rules(), &mut rm).unwrap();
    assert_eq!(venue.market_orders.len(), 1);
}

#[test]
fn a_cycle_ignores_the_bar_that_is_still_open() {
    let bars = vec![
        candle(NOW - 2, 1.0),
        candle(NOW - 1, 1.5),
        candle(NOW, 2.0),
        candle(NOW + 1, 3.0),
    ];
    assert_eq!(closed_only(&bars, NOW), bars[..2].to_vec());

    // A crash in a bar that closes at `last`, on both series.
    let cycle = |last: Option<u64>| {
        let mut venue = FakeExchange {
            free_quote: 10_000.0,
            fill: Some((340.0, 1.0)),
            ..Default::default()
        };
        rising(&mut venue);
        if let Some(close_time) = last {
            venue.daily.push(candle(close_time, 1.0));
            venue.four_hour.push(candle(close_time, 1.0));
        }
        let mut rm = RiskManager::new(f(10_000.0));
        run_cycle(&mut venue, false, open_rules(), &mut rm).unwrap();
        (
            venue.calls(),
            venue.market_orders,
            venue.oco_requests,
            rm.positions,
        )
    };
    let without = cycle(None);
    assert_eq!(without.0, vec!["market_order", "place_oco_sell"]);
    assert_eq!(cycle(Some(NOW + 1_000)), without);
    assert_eq!(cycle(Some(NOW)), without);
    // Once it has closed it counts.
    assert!(cycle(Some(NOW - 1)).0.is_empty());
}

#[test]
fn a_halted_cycle_opens_nothing() {
    let mut venue = FakeExchange {
        free_quote: 9_000.0,
        ..Default::default()
    };
    rising(&mut venue);
    let mut rm =
        RiskManager::starting_on(f(10_000.0), RiskLimits::default(), utc_day_of(NOW));
    run_cycle(&mut venue, false, open_rules(), &mut rm).unwrap();
    assert!(rm.halted);
    assert!(venue.calls().is_empty());
    assert!(venue
        .notices
        .iter()
        .any(|n| matches!(n, Notice::Halt { .. })));
}

#[test]
fn a_cycle_without_equity_is_an_error() {
    let mut venue = FakeExchange {
        account_fails: true,
        ..Default::default()
    };
    let mut rm = RiskManager::new(f(10_000.0));
    assert!(matches!(
        run_cycle(&mut venue, false, open_rules(), &mut rm),
        Err(CycleError::Venue(_))
    ));
}

#[test]
fn a_forced_close_sells_everything_and_trades_no_more() {
    let mut venue = FakeExchange::filling_at(51_000.0, 0.003);
    let mut rm = RiskManager::new(f(10_000.0));
    open_position(&mut rm, "BTCUSDC", 0.003);
    run_cycle(&mut venue, true, open_rules(), &mut rm).unwrap();
    assert!(rm.positions.is_empty());
    assert_eq!(venue.calls(), vec!["cancel_open_orders", "market_order"]);
}

#[test]
fn a_cycle_exits_where_a_level_is_hit() {
    let mut venue = FakeExchange {
        free_quote: 10_000.0,
        fill: Some((340.0, 0.5)),
        ..Default::default()
    };
    rising(&mut venue);
    let mut rm = RiskManager::new(f(10_000.0));
    open_position(&mut rm, "BTCUSDC", 0.5);
    // 340 is far below the stop of 49,000.
    run_cycle(&mut venue, false, StrategyParams::default(), &mut rm).unwrap();
    assert!(!rm.has_position("BTCUSDC"));
    assert_eq!(venue.calls(), vec!["cancel_open_orders", "market_order"]);
}

#[test]
fn a_forced_close_is_asked_for_in_the_environment() {
    assert!(force_close_asked(&env(&[("FORCE_CLOSE", "true")])));
    assert!(!force_close_asked(&env(&[])));
}

// ----- reconciliation -----

fn reconcile(venue: &mut FakeExchange, rm: &mut RiskManager<F>) {
    let (mut run, mut step) = ReconcileRun::begin();
    while let ReconcileStep::Ask(request) = step {
        (run, step) = run.step(venue.answer(request), &config(), rm);
    }
}

fn resting(kind: OrderKind, price: f64, stop_price: f64) -> OpenOrder<F> {
    OpenOrder {
        order_id: 1,
        symbol: "BTCUSDC".into(),
        side: Side::Sell,
        kind,
        price: f(price),
        stop_price: f(stop_price),
        quantity: f(0.5),
    }
}

#[test]
fn a_holding_with_resting_orders_is_restored() {
    let mut venue = FakeExchange {
        holdings: vec![("BTC", 0.5)],
        price: 50_000.0,
        resting: vec![
            resting(OrderKind::LimitMaker, 55_000.0, 0.0),
            resting(OrderKind::StopLossLimit, 47_900.0, 48_000.0),
        ],
        ..Default::default()
    };
    let mut rm = RiskManager::new(f(10_000.0));
    reconcile(&mut venue, &mut rm);
    let pos = &rm.positions[0];
    assert_eq!(pos.symbol, "BTCUSDC");
    assert_eq!(pos.stop_loss.0, 48_000.0);
    assert_eq!(pos.take_profit.0, 55_000.0);
    assert!(pos.protected);
    assert_eq!(venue.calls(), vec!["open_orders"]);
}

#[test]
fn a_naked_holding_gets_an_emergency_bracket() {
    let mut venue = FakeExchange {
        holdings: vec![("BTC", 0.5)],
        price: 50_000.0,
        ..Default::default()
    };
    let mut rm = RiskManager::new(f(10_000.0));
    reconcile(&mut venue, &mut rm);
    assert_eq!(venue.calls(), vec!["open_orders", "place_oco_sell"]);
    let pos = &rm.positions[0];
    assert!(pos.protected);
    let (_, qty, tp, stop) = venue.oco_requests[0].clone();
    assert_eq!(qty, 0.5);
    assert!(stop < 50_000.0 && 50_000.0 < tp);
    assert_eq!(pos.stop_loss.0, stop);
    assert_eq!(pos.take_profit.0, tp);
}

#[test]
fn a_holding_without_an_identified_stop_gets_an_emergency_bracket() {
    let mut venue = FakeExchange {
        holdings: vec![("BTC", 0.5)],
        price: 50_000.0,
        resting: vec![resting(OrderKind::LimitMaker, 55_000.0, 0.0)],
        ..Default::default()
    };
    let mut rm = RiskManager::new(f(10_000.0));
    reconcile(&mut venue, &mut rm);
    assert_eq!(venue.calls(), vec!["open_orders", "place_oco_sell"]);
    let (symbol, qty, tp, stop) = venue.oco_requests[0].clone();
    assert_eq!(symbol, "BTCUSDC");
    assert_eq!(qty, 0.5);
    assert!((stop - 48_500.0).abs() < 0.011);
    assert!((tp - 53_000.0).abs() < 0.011);
    assert!(rm.positions[0].protected);
    assert_eq!(rm.positions[0].stop_loss.0, stop);
    assert!(venue.notices.iter().any(|n| matches!(
        n,
        Notice::Reconcile {
            restored: 0,
            emergency: 1,
            failed: 0
        }
    )));
}

#[test]
fn a_refused_emergency_bracket_is_reported() {
    let mut venue = FakeExchange {
        holdings: vec![("BTC", 0.5)],
        price: 50_000.0,
        oco_rejects: true,
        ..Default::default()
    };
    let mut rm = RiskManager::new(f(10_000.0));
    reconcile(&mut venue, &mut rm);
    assert!(rm.positions.iter().all(|p| !p.protected));
    assert!(venue
        .notices
        .iter()
        .any(|n| matches!(n, Notice::Reconcile { failed: 1, .. })));
}

#[test]
fn every_unprotected_holding_is_counted_as_failed() {
    // One stop is on the venue; the other holding's bracket is refused.
    let mut both = config();
    both.trading_pairs.push("ETHUSDC".to_string());
    let mut venue = FakeExchange {
        holdings: vec![("BTC", 0.5), ("ETH", 2.0), ("DOGE", 9.0)],
        price: 50_000.0,
        resting: vec![resting(OrderKind::StopLossLimit, 47_900.0, 48_000.0)],
        oco_rejects: true,
        ..Default::default()
    };
    let mut rm = RiskManager::new(f(10_000.0));
    let (mut run, mut step) = ReconcileRun::begin();
    while let ReconcileStep::Ask(request) = step {
        (run, step) = run.step(venue.answer(request), &both, &mut rm);
    }
    assert_eq!(
        run.counts,
        Counts {
            restored: 1,
            emergency: 0,
            failed: 1
        }
    );
    let held: Vec<(&str, bool)> = rm
        .positions
        .iter()
        .map(|p| (p.symbol.as_str(), p.protected))
        .collect();
    assert_eq!(held, vec![("BTCUSDC", true), ("ETHUSDC", false)]);
    // The levels are tracked all the same.
    assert!((rm.positions[1].stop_loss.0 - 48_500.0).abs() < 0.011);
}

// ----- notices -----

#[test]
fn notices_are_rendered_for_the_operator() {
    let off = Notifier::disabled("USDC");
    let text = off
        .render(&Notice::Sell {
            symbol: "BTCUSDC".into(),
            price: f(51_000.0),
            pnl: f(12.5),
            pnl_pct: f(2.0),
        })
        .unwrap();
    assert!(text.contains("BTCUSDC"));
    assert!(text.contains("51000.00"));
    assert!(off
        .render(&Notice::<F>::Reconcile {
            restored: 0,
            emergency: 0,
            failed: 0
        })
        .is_none());
}
