//! Historical simulation of one symbol.
//!
//! The walk follows the four-hour grid, and the daily series is reconstructed at
//! each step as the venue would report it. Nothing later than the bar at hand is
//! ever read.

use vstd::prelude::*;
use crate::amount::{Amount, SCALE};
use crate::costs::CostModel;
use crate::exchange::Candle;
use crate::number::{
    larger, larger_of, law_larger_and_smaller, lemma_ordered, lemma_zero, smaller, smaller_of, total,
    zero, Lawful, Number,
};
use crate::risk::{capped_size, sized_within};
use crate::strategy::{
    compute_indicators, conditions_of, decision, evaluate, indicators_of, EntryConditions,
    IndicatorSnapshot, Signal, StrategyParams, MIN_DAILY_CANDLES, MIN_FOUR_HOUR_CANDLES,
};

verus! {

/// Why a simulated position was closed. Recorded at the exit site: the price
/// alone cannot tell a stop fill from a signal exit that landed near the stop.
#[derive(Debug, Clone, Copy, PartialEq, Eq, Structural)]
pub enum ExitReason {
    StopLoss,
    TakeProfit,
    /// The strategy said SELL before either level was touched.
    Signal,
    /// Still open when history ran out; marked to the final close.
    EndOfData,
}

impl ExitReason {
    pub open spec fn name(self) -> Seq<char> {
        match self {
            ExitReason::StopLoss => "SL"@,
            ExitReason::TakeProfit => "TP"@,
            ExitReason::Signal => "signal"@,
            ExitReason::EndOfData => "end"@,
        }
    }

    pub fn label(self) -> (r: &'static str)
        ensures
            r@ == self.name(),
    {
        match self {
            ExitReason::StopLoss => "SL",
            ExitReason::TakeProfit => "TP",
            ExitReason::Signal => "signal",
            ExitReason::EndOfData => "end",
        }
    }
}

/// How often each entry condition held, and how often they held together.
#[derive(Debug, Clone, Copy, PartialEq, Eq, Structural)]
pub struct Diagnostics {
    pub evaluated: u32,
    pub trend: u32,
    pub rsi: u32,
    pub macd: u32,
    pub rr: u32,
    pub all_aligned: u32,
    pub blocked_in_position: u32,
}

pub open spec fn one_if(held: bool) -> int {
    if held {
        1
    } else {
        0
    }
}

impl Default for Diagnostics {
    fn default() -> (r: Self)
        ensures
            r == no_diagnostics(),
    {
        Diagnostics {
            evaluated: 0,
            trend: 0,
            rsi: 0,
            macd: 0,
            rr: 0,
            all_aligned: 0,
            blocked_in_position: 0,
        }
    }
}

pub open spec fn no_diagnostics() -> Diagnostics {
    Diagnostics {
        evaluated: 0,
        trend: 0,
        rsi: 0,
        macd: 0,
        rr: 0,
        all_aligned: 0,
        blocked_in_position: 0,
    }
}

fn one(held: bool) -> (r: u32)
    ensures
        r == one_if(held),
{
    if held {
        1
    } else {
        0
    }
}

impl Diagnostics {
    /// No condition is counted more often than bars were evaluated, all of them
    /// together no more often than any one, and a blocked signal is a signal.
    pub open spec fn consistent(self) -> bool {
        &&& self.trend <= self.evaluated
        &&& self.rsi <= self.evaluated
        &&& self.macd <= self.evaluated
        &&& self.rr <= self.evaluated
        &&& self.all_aligned <= self.trend
        &&& self.all_aligned <= self.rsi
        &&& self.all_aligned <= self.macd
        &&& self.all_aligned <= self.rr
        &&& self.blocked_in_position <= self.all_aligned
    }

    /// The counts after one more evaluation.
    pub open spec fn recorded(self, conditions: EntryConditions, already_long: bool) -> Diagnostics {
        Diagnostics {
            evaluated: (self.evaluated + 1) as u32,
            trend: (self.trend + one_if(conditions.trend_bullish)) as u32,
            rsi: (self.rsi + one_if(conditions.rsi_ok)) as u32,
            macd: (self.macd + one_if(conditions.macd_crossed)) as u32,
            rr: (self.rr + one_if(conditions.stop_valid)) as u32,
            all_aligned: (self.all_aligned + one_if(conditions.met())) as u32,
            blocked_in_position: (self.blocked_in_position + one_if(
                conditions.met() && already_long,
            )) as u32,
        }
    }

    pub fn record(&mut self, conditions: &EntryConditions, already_long: bool)
        requires
            old(self).consistent(),
            old(self).evaluated < u32::MAX,
        ensures
            *final(self) == old(self).recorded(*conditions, already_long),
            final(self).consistent(),
    {
        self.evaluated = self.evaluated + 1;
        self.trend = self.trend + one(conditions.trend_bullish);
        self.rsi = self.rsi + one(conditions.rsi_ok);
        self.macd = self.macd + one(conditions.macd_crossed);
        self.rr = self.rr + one(conditions.stop_valid);
        if conditions.all_met() {
            self.all_aligned = self.all_aligned + 1;
            self.blocked_in_position = self.blocked_in_position + one(already_long);
        }
    }
}

// ---------------------------------------------------------------------------
// Trades
// ---------------------------------------------------------------------------

/// What a simulation starts with.
pub open spec fn starting_balance<S: Number>() -> S {
    S::of_ratio(10_000, 1)
}

/// A closed trade.
#[derive(Debug, Clone, Copy, PartialEq)]
pub struct SimTrade<S> {
    pub entry_price: S,
    pub exit_price: S,
    pub quantity: S,
    /// Net of both fees.
    pub pnl: S,
    /// Return on the position's own notional, in percent.
    pub pnl_pct: S,
    /// Return on portfolio equity at entry, as a fraction. This is what compounds:
    /// sizing risks a fixed fraction of equity rather than deploying all of it.
    pub equity_return: S,
    pub fees: S,
    pub exit_reason: ExitReason,
}

/// An open simulated position.
#[derive(Debug, Clone, Copy, PartialEq)]
pub struct SimPosition<S> {
    /// The price actually paid: the quote plus slippage.
    pub entry_price: S,
    pub quantity: S,
    pub stop_loss: S,
    pub take_profit: S,
    pub entry_fee: S,
    /// Portfolio equity when the position was opened.
    pub equity_at_entry: S,
}

/// The fee on what an exit brings in: the maker fee for a take-profit, which rests
/// on the book, and the taker fee for everything else.
pub open spec fn exit_charge<S: Number>(
    proceeds: S,
    reason: ExitReason,
    costs: CostModel<S>,
) -> S {
    if reason == ExitReason::TakeProfit {
        costs.maker_charge(proceeds)
    } else {
        costs.taker_charge(proceeds)
    }
}

pub fn exit_cost<S: Number>(proceeds: S, reason: ExitReason, costs: &CostModel<S>) -> (r: S)
    ensures
        r == exit_charge(proceeds, reason, *costs),
{
    match reason {
        ExitReason::TakeProfit => costs.maker_cost(proceeds),
        _ => costs.taker_cost(proceeds),
    }
}

/// The trade that closing a position at a quote makes.
///
/// A take-profit is a resting limit order: it fills at its price and pays the
/// maker fee. Everything else crosses the book and pays taker and slippage.
pub open spec fn settled<S: Number>(
    pos: SimPosition<S>,
    exit_quote: S,
    reason: ExitReason,
    costs: CostModel<S>,
) -> SimTrade<S> {
    let resting = reason == ExitReason::TakeProfit;
    let exit_price = if resting {
        exit_quote
    } else {
        costs.sold_at(exit_quote)
    };
    let exit_notional = exit_price.product(pos.quantity);
    let exit_fee = exit_charge(exit_notional, reason, costs);
    let fees = pos.entry_fee.sum(exit_fee);
    let pnl = exit_price.difference(pos.entry_price).product(pos.quantity).difference(fees);
    let entry_notional = pos.entry_price.product(pos.quantity);
    SimTrade {
        entry_price: pos.entry_price,
        exit_price,
        quantity: pos.quantity,
        pnl,
        pnl_pct: if zero::<S>().lt(entry_notional) {
            pnl.quotient(entry_notional).product(S::of_ratio(100, 1))
        } else {
            zero::<S>()
        },
        equity_return: if zero::<S>().lt(pos.equity_at_entry) {
            pnl.quotient(pos.equity_at_entry)
        } else {
            zero::<S>()
        },
        fees,
        exit_reason: reason,
    }
}

/// Closes a position at a quote and prices the fill by how the exit happens.
pub fn settle<S: Number>(
    pos: &SimPosition<S>,
    exit_quote: S,
    reason: ExitReason,
    costs: &CostModel<S>,
) -> (r: SimTrade<S>)
    ensures
        r == settled(*pos, exit_quote, reason, *costs),
{
    let resting = match reason {
        ExitReason::TakeProfit => true,
        _ => false,
    };
    let exit_price = if resting {
        costs.limit_fill(exit_quote)
    } else {
        costs.sell_fill(exit_quote)
    };
    let exit_notional = exit_price.times(pos.quantity);
    let exit_fee = exit_cost(exit_notional, reason, costs);
    let fees = pos.entry_fee.plus(exit_fee);
    let gross = exit_price.minus(pos.entry_price).times(pos.quantity);
    let pnl = gross.minus(fees);
    let entry_notional = pos.entry_price.times(pos.quantity);
    let pnl_pct = if S::ratio(0, 1).below(entry_notional) {
        pnl.over(entry_notional).times(S::ratio(100, 1))
    } else {
        S::ratio(0, 1)
    };
    let equity_return = if S::ratio(0, 1).below(pos.equity_at_entry) {
        pnl.over(pos.equity_at_entry)
    } else {
        S::ratio(0, 1)
    };
    SimTrade {
        entry_price: pos.entry_price,
        exit_price,
        quantity: pos.quantity,
        pnl,
        pnl_pct,
        equity_return,
        fees,
        exit_reason: reason,
    }
}

/// The position that a snapshot's BUY opens, risked against `equity` and funded
/// from `free`. The target is derived from the realised fill, as it is live.
pub open spec fn entered<S: Number>(
    price: S,
    stop_loss: S,
    equity: S,
    free: S,
    risk_per_trade: S,
    costs: CostModel<S>,
) -> SimPosition<S> {
    let fill = costs.bought_at(price);
    let quantity = sized_within(equity, free, risk_per_trade, fill, stop_loss).0;
    SimPosition {
        entry_price: fill,
        quantity,
        stop_loss,
        take_profit: fill.sum(S::of_ratio(2, 1).product(fill.difference(stop_loss))),
        entry_fee: costs.taker_charge(fill.product(quantity)),
        equity_at_entry: equity,
    }
}

pub fn enter<S: Number>(
    price: S,
    stop_loss: S,
    equity: S,
    free: S,
    risk_per_trade: S,
    costs: &CostModel<S>,
) -> (r: SimPosition<S>)
    ensures
        r == entered(price, stop_loss, equity, free, risk_per_trade, *costs),
{
    let fill = costs.buy_fill(price);
    let (quantity, _) = capped_size(equity, free, risk_per_trade, fill, stop_loss);
    SimPosition {
        entry_price: fill,
        quantity,
        stop_loss,
        take_profit: fill.plus(S::ratio(2, 1).times(fill.minus(stop_loss))),
        entry_fee: costs.taker_cost(fill.times(quantity)),
        equity_at_entry: equity,
    }
}

/// The level at which a bar takes a position out, and why. A bar that touches both
/// levels resolves as the stop, which is the conservative reading.
pub open spec fn touched<S: Number>(pos: SimPosition<S>, low: S, high: S) -> Option<
    (S, ExitReason),
> {
    if low.le(pos.stop_loss) {
        Some((pos.stop_loss, ExitReason::StopLoss))
    } else if pos.take_profit.le(high) {
        Some((pos.take_profit, ExitReason::TakeProfit))
    } else {
        None
    }
}

pub fn touch<S: Number>(pos: &SimPosition<S>, low: S, high: S) -> (r: Option<(S, ExitReason)>)
    ensures
        r == touched(*pos, low, high),
{
    if low.at_most(pos.stop_loss) {
        Some((pos.stop_loss, ExitReason::StopLoss))
    } else if pos.take_profit.at_most(high) {
        Some((pos.take_profit, ExitReason::TakeProfit))
    } else {
        None
    }
}

// ---------------------------------------------------------------------------
// The day in progress
// ---------------------------------------------------------------------------

/// The largest of the values, from the lowest number up.
pub open spec fn top<S: Number>(values: Seq<S>) -> S
    decreases values.len(),
{
    if values.len() == 0 {
        S::lowest()
    } else {
        larger_of(top(values.drop_last()), values.last())
    }
}

/// The smallest of the values, from the highest number down.
pub open spec fn bottom<S: Number>(values: Seq<S>) -> S
    decreases values.len(),
{
    if values.len() == 0 {
        S::highest()
    } else {
        smaller_of(bottom(values.drop_last()), values.last())
    }
}

/// Where the run of bars that opened at `day_open` or later begins, going back
/// from bar `i`.
pub open spec fn day_start<S>(bars: Seq<Candle<S>>, day_open: u64, i: int) -> int
    decreases i,
{
    if i > 0 && bars[i - 1].open_time >= day_open {
        day_start(bars, day_open, i - 1)
    } else {
        i
    }
}

/// The bars as one candle.
pub open spec fn merged<S: Number>(bars: Seq<Candle<S>>) -> Candle<S> {
    Candle {
        open_time: bars.first().open_time,
        open: bars.first().open,
        high: top(bars.map_values(|c: Candle<S>| c.high)),
        low: bottom(bars.map_values(|c: Candle<S>| c.low)),
        close: bars.last().close,
        volume: total(bars.map_values(|c: Candle<S>| c.volume)),
        close_time: bars.last().close_time,
    }
}

/// The candle in progress for the day that starts at `day_open`, where the latest
/// bar belongs to it.
pub open spec fn partial_of<S: Number>(bars: Seq<Candle<S>>, day_open: u64) -> Option<Candle<S>> {
    if bars.len() == 0 || bars.last().open_time < day_open {
        None
    } else {
        Some(merged(bars.skip(day_start(bars, day_open, bars.len() - 1))))
    }
}

/// Merges `bars[start..end]`.
fn merge<S: Number>(bars: &[Candle<S>], start: usize, end: usize) -> (r: Candle<S>)
    requires
        start < end <= bars@.len(),
    ensures
        r == merged(bars@.subrange(start as int, end as int)),
{
    let ghost window = bars@.subrange(start as int, end as int);
    let ghost highs = window.map_values(|c: Candle<S>| c.high);
    let ghost lows = window.map_values(|c: Candle<S>| c.low);
    let ghost volumes = window.map_values(|c: Candle<S>| c.volume);
    let mut high = S::min_value();
    let mut low = S::max_value();
    let mut volume = S::ratio(0, 1);
    let mut i: usize = start;
    while i < end
        invariant
            start <= i <= end <= bars@.len(),
            window == bars@.subrange(start as int, end as int),
            highs == window.map_values(|c: Candle<S>| c.high),
            lows == window.map_values(|c: Candle<S>| c.low),
            volumes == window.map_values(|c: Candle<S>| c.volume),
            high == top(highs.take(i - start)),
            low == bottom(lows.take(i - start)),
            volume == total(volumes.take(i - start)),
        decreases end - i,
    {
        high = larger(high, bars[i].high);
        low = smaller(low, bars[i].low);
        volume = volume.plus(bars[i].volume);
        proof {
            let n = i - start;
            assert(highs.take(n + 1).drop_last() =~= highs.take(n));
            assert(lows.take(n + 1).drop_last() =~= lows.take(n));
            assert(volumes.take(n + 1).drop_last() =~= volumes.take(n));
        }
        i = i + 1;
    }
    proof {
        let n = end - start;
        assert(highs.take(n) =~= highs);
        assert(lows.take(n) =~= lows);
        assert(volumes.take(n) =~= volumes);
    }
    Candle {
        open_time: bars[start].open_time,
        open: bars[start].open,
        high,
        low,
        close: bars[end - 1].close,
        volume,
        close_time: bars[end - 1].close_time,
    }
}

/// Aggregates the trailing four-hour bars of the unfinished day that starts at
/// `day_open` into the partial daily candle a venue would report.
///
/// `None` where the last bar predates `day_open`: the day has no bars yet.
pub fn partial_daily<S: Number>(bars: &[Candle<S>], day_open: u64) -> (r: Option<Candle<S>>)
    ensures
        r == partial_of(bars@, day_open),
{
    if bars.len() == 0 {
        return None;
    }
    let end: usize = bars.len() - 1;
    if bars[end].open_time < day_open {
        return None;
    }
    let mut start: usize = end;
    while start > 0 && bars[start - 1].open_time >= day_open
        invariant
            start <= end < bars@.len(),
            day_start(bars@, day_open, end as int) == day_start(bars@, day_open, start as int),
        decreases start,
    {
        start = start - 1;
    }
    assert(bars@.skip(start as int) =~= bars@.subrange(start as int, bars@.len() as int));
    Some(merge(bars, start, bars.len()))
}

// ---------------------------------------------------------------------------
// The walk
// ---------------------------------------------------------------------------

/// How many daily candles have closed by `time`, of which `from` are known to
/// have.
pub open spec fn absorbed<S>(daily: Seq<Candle<S>>, from: int, time: u64) -> int
    decreases daily.len() - from,
{
    if 0 <= from < daily.len() && daily[from].close_time <= time {
        absorbed(daily, from + 1, time)
    } else {
        from
    }
}

/// The daily series as the venue would report it at a bar: `closed` candles, and
/// the one in progress where the day has begun.
pub open spec fn daily_view<S: Number>(
    daily: Seq<Candle<S>>,
    closed: int,
    bars: Seq<Candle<S>>,
) -> Seq<Candle<S>> {
    if closed < daily.len() {
        match partial_of(bars, daily[closed].open_time) {
            Some(partial) => daily.take(closed).push(partial),
            None => daily.take(closed),
        }
    } else {
        daily.take(closed)
    }
}

/// The snapshot at the last of `bars`.
pub open spec fn snapshot_at<S: Number>(
    daily: Seq<Candle<S>>,
    closed: int,
    bars: Seq<Candle<S>>,
) -> Option<IndicatorSnapshot<S>> {
    indicators_of(daily_view(daily, closed, bars), bars, bars.last().close)
}

/// The snapshot at the last of `bars`, where `closed` candles of `daily` have
/// closed and stand in `view`.
pub fn snapshot<S: Number>(
    daily: &[Candle<S>],
    closed: usize,
    view: &mut Vec<Candle<S>>,
    bars: &[Candle<S>],
) -> (r: Option<IndicatorSnapshot<S>>)
    requires
        closed <= daily@.len(),
        old(view)@ == daily@.take(closed as int),
        bars@.len() > 0,
    ensures
        r == snapshot_at(daily@, closed as int, bars@),
        final(view)@ == old(view)@,
{
    let partial = if closed < daily.len() {
        partial_daily(bars, daily[closed].open_time)
    } else {
        None
    };
    let current_price = bars[bars.len() - 1].close;
    match partial {
        Some(candle) => {
            view.push(candle);
            let snap = compute_indicators(view.as_slice(), bars, current_price);
            view.pop();
            assert(view@ =~= old(view)@);
            snap
        },
        None => compute_indicators(view.as_slice(), bars, current_price),
    }
}

/// Peak equity and the deepest fall from it, in percent.
#[derive(Debug, Clone, Copy, PartialEq)]
pub struct Drawdown<S> {
    pub peak: S,
    pub deepest: S,
}

impl<S: Number> Drawdown<S> {
    pub open spec fn from(balance: S) -> Drawdown<S> {
        Drawdown { peak: balance, deepest: zero::<S>() }
    }

    /// With one more mark: the peak rises with `high`, and the fall is measured to
    /// `low`.
    pub open spec fn after(self, high: S, low: S) -> Drawdown<S> {
        let peak = larger_of(self.peak, high);
        Drawdown {
            peak,
            deepest: if zero::<S>().lt(peak) {
                larger_of(
                    self.deepest,
                    peak.difference(low).quotient(peak).product(S::of_ratio(100, 1)),
                )
            } else {
                self.deepest
            },
        }
    }

    pub fn new(balance: S) -> (r: Self)
        ensures
            r == Self::from(balance),
    {
        Drawdown { peak: balance, deepest: S::ratio(0, 1) }
    }

    pub fn mark(&mut self, high: S, low: S)
        ensures
            *final(self) == old(self).after(high, low),
    {
        self.peak = larger(self.peak, high);
        if S::ratio(0, 1).below(self.peak) {
            self.deepest = larger(
                self.deepest,
                self.peak.minus(low).over(self.peak).times(S::ratio(100, 1)),
            );
        }
    }
}

/// Where a walk stands after some bars.
pub struct SimState<S> {
    /// Daily candles that have closed.
    pub closed: int,
    pub balance: S,
    pub position: Option<SimPosition<S>>,
    pub trades: Seq<SimTrade<S>>,
    pub drawdown: Drawdown<S>,
    /// The first bar that cleared the warmup.
    pub first_bar: Option<int>,
    pub diagnostics: Diagnostics,
}

pub open spec fn sim_start<S: Number>() -> SimState<S> {
    SimState {
        closed: 0,
        balance: starting_balance::<S>(),
        position: None,
        trades: Seq::empty(),
        drawdown: Drawdown::from(starting_balance::<S>()),
        first_bar: None,
        diagnostics: no_diagnostics(),
    }
}

impl<S: Number> SimState<S> {
    /// With the position closed at a quote.
    pub open spec fn with_exit(
        self,
        pos: SimPosition<S>,
        quote: S,
        reason: ExitReason,
        costs: CostModel<S>,
    ) -> SimState<S> {
        let trade = settled(pos, quote, reason, costs);
        SimState {
            balance: self.balance.sum(trade.pnl),
            position: None,
            trades: self.trades.push(trade),
            ..self
        }
    }

    /// After the levels of an open position were held against a bar.
    pub open spec fn after_levels(self, bar: Candle<S>, costs: CostModel<S>) -> SimState<S> {
        match self.position {
            Some(pos) => match touched(pos, bar.low, bar.high) {
                Some((level, reason)) => self.with_exit(pos, level, reason, costs),
                None => self,
            },
            None => self,
        }
    }

    /// With the drawdown marked on mark-to-market equity: realised cash alone hides
    /// every loss that is still open.
    pub open spec fn marked(self, close: S) -> SimState<S> {
        let open_pnl = match self.position {
            Some(pos) => close.difference(pos.entry_price).product(pos.quantity),
            None => zero::<S>(),
        };
        let equity = self.balance.sum(open_pnl);
        SimState { drawdown: self.drawdown.after(equity, equity), ..self }
    }

    /// After the rules were applied to a snapshot.
    pub open spec fn after_signal(
        self,
        snap: IndicatorSnapshot<S>,
        costs: CostModel<S>,
        risk_per_trade: S,
        params: StrategyParams<S>,
    ) -> SimState<S> {
        let noted = SimState {
            diagnostics: self.diagnostics.recorded(
                conditions_of(snap, params),
                self.position is Some,
            ),
            ..self
        };
        match (decision(snap, params), self.position) {
            (Signal::Buy, None) => {
                let pos = entered(
                    snap.current_price,
                    snap.swing_low,
                    self.balance,
                    self.balance,
                    risk_per_trade,
                    costs,
                );
                if pos.quantity.le(zero::<S>()) {
                    noted
                } else {
                    (SimState { position: Some(pos), ..noted }).marked(snap.current_price)
                }
            },
            (Signal::Sell, Some(pos)) => noted.with_exit(
                pos,
                snap.current_price,
                ExitReason::Signal,
                costs,
            ).marked(snap.current_price),
            _ => noted.marked(snap.current_price),
        }
    }

    /// After one more bar, the last of `bars`.
    pub open spec fn after_bar(
        self,
        daily: Seq<Candle<S>>,
        bars: Seq<Candle<S>>,
        costs: CostModel<S>,
        risk_per_trade: S,
        params: StrategyParams<S>,
    ) -> SimState<S> {
        let bar = bars.last();
        let caught_up = SimState { closed: absorbed(daily, self.closed, bar.close_time), ..self };
        if caught_up.closed < MIN_DAILY_CANDLES || bars.len() < MIN_FOUR_HOUR_CANDLES {
            caught_up
        } else {
            let warm = SimState {
                first_bar: match self.first_bar {
                    Some(first) => Some(first),
                    None => Some(bars.len() - 1),
                },
                ..caught_up
            }.after_levels(bar, costs);
            match snapshot_at(daily, caught_up.closed, bars) {
                Some(snap) => warm.after_signal(snap, costs, risk_per_trade, params),
                None => warm,
            }
        }
    }

    /// With what is still open marked out at `close`.
    pub open spec fn marked_out(self, close: S, costs: CostModel<S>) -> SimState<S> {
        match self.position {
            Some(pos) => self.with_exit(pos, close, ExitReason::EndOfData, costs),
            None => self,
        }
    }
}

/// Where the walk stands after the first `n` bars.
pub open spec fn walk<S: Number>(
    daily: Seq<Candle<S>>,
    four_hour: Seq<Candle<S>>,
    costs: CostModel<S>,
    risk_per_trade: S,
    params: StrategyParams<S>,
    n: nat,
) -> SimState<S>
    decreases n,
{
    if n == 0 {
        sim_start::<S>()
    } else {
        walk(daily, four_hour, costs, risk_per_trade, params, (n - 1) as nat).after_bar(
            daily,
            four_hour.take(n as int),
            costs,
            risk_per_trade,
            params,
        )
    }
}

/// Where the walk ends.
pub open spec fn walked<S: Number>(
    daily: Seq<Candle<S>>,
    four_hour: Seq<Candle<S>>,
    costs: CostModel<S>,
    risk_per_trade: S,
    params: StrategyParams<S>,
) -> SimState<S> {
    walk(daily, four_hour, costs, risk_per_trade, params, four_hour.len()).marked_out(
        four_hour.last().close,
        costs,
    )
}

/// Everything the walk produced.
#[derive(Debug, Clone)]
pub struct SimResult<S> {
    pub trades: Vec<SimTrade<S>>,
    pub final_balance: S,
    /// Peak to trough on mark-to-market equity, in percent.
    pub max_drawdown: S,
    /// The first bar that cleared the warmup, so a benchmark can be measured over
    /// exactly the same window.
    pub first_bar: Option<usize>,
    pub diagnostics: Diagnostics,
}

pub open spec fn same_bar(first: Option<usize>, bar: Option<int>) -> bool {
    match (first, bar) {
        (Some(i), Some(j)) => i == j,
        (None, None) => true,
        _ => false,
    }
}

impl<S: Number> SimResult<S> {
    /// Whether this is what a walk came to.
    pub open spec fn reports(self, end: SimState<S>) -> bool {
        &&& self.trades@ == end.trades
        &&& self.final_balance == end.balance
        &&& self.max_drawdown == end.drawdown.deepest
        &&& same_bar(self.first_bar, end.first_bar)
        &&& self.diagnostics == end.diagnostics
    }
}

/// Walks the history once under a cost model.
pub fn simulate<S: Number>(
    symbol: &str,
    daily: &[Candle<S>],
    four_hour: &[Candle<S>],
    costs: &CostModel<S>,
    risk_per_trade: S,
    params: &StrategyParams<S>,
) -> (r: SimResult<S>)
    requires
        four_hour@.len() <= u32::MAX,
    ensures
        r.reports(walked(daily@, four_hour@, *costs, risk_per_trade, *params)),
        r.diagnostics.consistent(),
{
    let start = S::ratio(10_000, 1);
    let mut balance = start;
    let mut trades: Vec<SimTrade<S>> = Vec::new();
    let mut position: Option<SimPosition<S>> = None;
    let mut drawdown = Drawdown::new(start);
    let mut diagnostics = Diagnostics::default();
    let mut view: Vec<Candle<S>> = Vec::new();
    let mut closed: usize = 0;
    let mut first_bar: Option<usize> = None;
    let ghost mut state = sim_start::<S>();
    assert(view@ =~= daily@.take(0));
    assert(trades@ =~= state.trades);
    let mut j: usize = 0;
    while j < four_hour.len()
        invariant
            j <= four_hour@.len() <= u32::MAX,
            closed <= daily@.len(),
            view@ == daily@.take(closed as int),
            state == walk(daily@, four_hour@, *costs, risk_per_trade, *params, j as nat),
            state.closed == closed,
            state.balance == balance,
            state.position == position,
            state.trades == trades@,
            state.drawdown == drawdown,
            same_bar(first_bar, state.first_bar),
            state.diagnostics == diagnostics,
            diagnostics.consistent(),
            diagnostics.evaluated <= j,
        decreases four_hour@.len() - j,
    {
        let bar = &four_hour[j];
        let bars = vstd::slice::slice_subrange(four_hour, 0, j + 1);
        let ghost before = state;
        proof {
            assert(bars@ =~= four_hour@.take(j + 1));
            state =
            before.after_bar(daily@, four_hour@.take(j + 1), *costs, risk_per_trade, *params);
            assert(bars@.last() == *bar);
        }
        let known: usize = closed;
        while closed < daily.len() && daily[closed].close_time <= bar.close_time
            invariant
                known <= closed <= daily@.len(),
                view@ == daily@.take(closed as int),
                absorbed(daily@, known as int, bar.close_time) == absorbed(
                    daily@,
                    closed as int,
                    bar.close_time,
                ),
            decreases daily@.len() - closed,
        {
            view.push(daily[closed]);
            closed = closed + 1;
            assert(view@ =~= daily@.take(closed as int));
        }
        j = j + 1;
        if closed < MIN_DAILY_CANDLES || j < MIN_FOUR_HOUR_CANDLES {
            continue;
        }
        if first_bar.is_none() {
            first_bar = Some(j - 1);
        }
        let ghost warm = SimState {
            closed: closed as int,
            first_bar: match before.first_bar {
                Some(first) => Some(first),
                None => Some(j - 1),
            },
            ..before
        };
        if let Some(pos) = position {
            if let Some((level, reason)) = touch(&pos, bar.low, bar.high) {
                let trade = settle(&pos, level, reason, costs);
                balance = balance.plus(trade.pnl);
                trades.push(trade);
                position = None;
            }
        }
        proof {
            assert(trades@ =~= warm.after_levels(*bar, *costs).trades);
        }
        let snap = match snapshot(daily, closed, &mut view, bars) {
            Some(snap) => snap,
            None => continue,
        };
        let conditions = EntryConditions::evaluate(&snap, params);
        diagnostics.record(&conditions, position.is_some());
        let signal = evaluate(symbol, &snap, params);
        match signal.signal {
            Signal::Buy => {
                if position.is_none() {
                    let pos = enter(
                        signal.entry_price,
                        signal.stop_loss,
                        balance,
                        balance,
                        risk_per_trade,
                        costs,
                    );
                    if pos.quantity.at_most(S::ratio(0, 1)) {
                        continue;
                    }
                    position = Some(pos);
                }
            },
            Signal::Sell => {
                if let Some(pos) = position {
                    let trade = settle(&pos, snap.current_price, ExitReason::Signal, costs);
                    balance = balance.plus(trade.pnl);
                    trades.push(trade);
                    position = None;
                }
            },
            _ => {},
        }
        let open_pnl = match position {
            Some(pos) => bar.close.minus(pos.entry_price).times(pos.quantity),
            None => S::ratio(0, 1),
        };
        let equity = balance.plus(open_pnl);
        drawdown.mark(equity, equity);
        assert(trades@ =~= state.trades);
    }
    if let Some(pos) = position {
        let last_close = match four_hour.last() {
            Some(bar) => bar.close,
            None => pos.entry_price,
        };
        let trade = settle(&pos, last_close, ExitReason::EndOfData, costs);
        balance = balance.plus(trade.pnl);
        trades.push(trade);
    }
    SimResult { trades, final_balance: balance, max_drawdown: drawdown.deepest, first_bar, diagnostics }
}

// ---------------------------------------------------------------------------
// Buy and hold
// ---------------------------------------------------------------------------

/// The drawdown that a holder of `quantity` lived through: marked against each
/// bar's low, not only against closes.
pub open spec fn held_drawdown<S: Number>(bars: Seq<Candle<S>>, quantity: S) -> Drawdown<S>
    decreases bars.len(),
{
    if bars.len() == 0 {
        Drawdown::from(starting_balance::<S>())
    } else {
        held_drawdown(bars.drop_last(), quantity).after(
            bars.last().close.product(quantity),
            bars.last().low.product(quantity),
        )
    }
}

/// The final balance and the deepest drawdown of holding the asset: one market buy
/// in, one market sell out, costed as the strategy is.
pub open spec fn held<S: Number>(bars: Seq<Candle<S>>, costs: CostModel<S>) -> (S, S) {
    let start = starting_balance::<S>();
    let entry = costs.bought_at(bars.first().close);
    if bars.len() == 0 || entry.le(zero::<S>()) {
        (start, zero::<S>())
    } else {
        let quantity = start.difference(costs.taker_charge(start)).quotient(entry);
        let proceeds = costs.sold_at(bars.last().close).product(quantity);
        (
            proceeds.difference(costs.taker_charge(proceeds)),
            held_drawdown(bars, quantity).deepest,
        )
    }
}

/// Holds the asset over the same window, for comparison, as
/// `(final_balance, max_drawdown_pct)`.
pub fn buy_and_hold<S: Number>(bars: &[Candle<S>], costs: &CostModel<S>) -> (r: (S, S))
    ensures
        r == held(bars@, *costs),
{
    let start = S::ratio(10_000, 1);
    if bars.len() == 0 {
        return (start, S::ratio(0, 1));
    }
    let entry = costs.buy_fill(bars[0].close);
    if entry.at_most(S::ratio(0, 1)) {
        return (start, S::ratio(0, 1));
    }
    let quantity = start.minus(costs.taker_cost(start)).over(entry);
    let mut drawdown = Drawdown::new(start);
    let mut i: usize = 0;
    while i < bars.len()
        invariant
            i <= bars@.len(),
            drawdown == held_drawdown(bars@.take(i as int), quantity),
        decreases bars@.len() - i,
    {
        drawdown.mark(bars[i].close.times(quantity), bars[i].low.times(quantity));
        proof {
            assert(bars@.take(i + 1).drop_last() =~= bars@.take(i as int));
        }
        i = i + 1;
    }
    assert(bars@.take(i as int) =~= bars@);
    let proceeds = costs.sell_fill(bars[bars.len() - 1].close).times(quantity);
    (proceeds.minus(costs.taker_cost(proceeds)), drawdown.deepest)
}

// ---------------------------------------------------------------------------
// Laws
// ---------------------------------------------------------------------------

/// The walk does not look ahead: where it stands after `n` bars is decided by those
/// bars alone, whatever comes later.
pub proof fn law_no_look_ahead<S: Number>(
    daily: Seq<Candle<S>>,
    history: Seq<Candle<S>>,
    other: Seq<Candle<S>>,
    costs: CostModel<S>,
    risk_per_trade: S,
    params: StrategyParams<S>,
    n: nat,
)
    requires
        n <= history.len(),
        n <= other.len(),
        history.take(n as int) == other.take(n as int),
    ensures
        walk(daily, history, costs, risk_per_trade, params, n) == walk(
            daily,
            other,
            costs,
            risk_per_trade,
            params,
            n,
        ),
    decreases n,
{
    if n > 0 {
        assert(history.take(n - 1) =~= history.take(n as int).take(n - 1));
        assert(other.take(n - 1) =~= other.take(n as int).take(n - 1));
        law_no_look_ahead(daily, history, other, costs, risk_per_trade, params, (n - 1) as nat);
    }
}

/// Whether two daily series agree on the first `closed` candles and on when the next
/// one opens and closes.
pub open spec fn agree_until<S>(daily: Seq<Candle<S>>, other: Seq<Candle<S>>, closed: int) -> bool {
    &&& 0 <= closed <= daily.len()
    &&& closed <= other.len()
    &&& daily.take(closed) == other.take(closed)
    &&& closed < daily.len() <==> closed < other.len()
    &&& closed < daily.len() ==> daily[closed].open_time == other[closed].open_time
        && daily[closed].close_time == other[closed].close_time
}

proof fn lemma_agree_earlier<S>(daily: Seq<Candle<S>>, other: Seq<Candle<S>>, closed: int, k: int)
    requires
        agree_until(daily, other, closed),
        0 <= k <= closed,
    ensures
        agree_until(daily, other, k),
{
    assert(daily.take(k) =~= daily.take(closed).take(k));
    assert(other.take(k) =~= other.take(closed).take(k));
    if k < closed {
        assert(daily[k] == daily.take(closed)[k]);
        assert(other[k] == other.take(closed)[k]);
    }
}

proof fn lemma_absorbed<S>(daily: Seq<Candle<S>>, other: Seq<Candle<S>>, from: int, time: u64)
    requires
        0 <= from <= daily.len(),
        agree_until(daily, other, absorbed(daily, from, time)),
    ensures
        absorbed(daily, from, time) == absorbed(other, from, time),
    decreases daily.len() - from,
{
    lemma_absorbed_bounds(daily, from, time);
    lemma_agree_earlier(daily, other, absorbed(daily, from, time), from);
    if from < daily.len() && daily[from].close_time <= time {
        lemma_absorbed(daily, other, from + 1, time);
    }
}

proof fn lemma_absorbed_bounds<S>(daily: Seq<Candle<S>>, from: int, time: u64)
    requires
        0 <= from <= daily.len(),
    ensures
        from <= absorbed(daily, from, time) <= daily.len(),
    decreases daily.len() - from,
{
    if from < daily.len() && daily[from].close_time <= time {
        lemma_absorbed_bounds(daily, from + 1, time);
    }
}

proof fn lemma_walk_closed<S: Number>(
    daily: Seq<Candle<S>>,
    four_hour: Seq<Candle<S>>,
    costs: CostModel<S>,
    risk_per_trade: S,
    params: StrategyParams<S>,
    n: nat,
)
    ensures
        0 <= walk(daily, four_hour, costs, risk_per_trade, params, n).closed <= daily.len(),
        n > 0 ==> {
            let before = walk(daily, four_hour, costs, risk_per_trade, params, (n - 1) as nat);
            let now = walk(daily, four_hour, costs, risk_per_trade, params, n);
            &&& now.closed == absorbed(daily, before.closed, four_hour.take(n as int).last().close_time)
            &&& before.closed <= now.closed
        },
    decreases n,
{
    if n > 0 {
        lemma_walk_closed(daily, four_hour, costs, risk_per_trade, params, (n - 1) as nat);
        let before = walk(daily, four_hour, costs, risk_per_trade, params, (n - 1) as nat);
        lemma_absorbed_bounds(daily, before.closed, four_hour.take(n as int).last().close_time);
    }
}

/// Nor does it look ahead in the daily series: it is decided by the candles that
/// have closed, and by when the next one opens and closes.
pub proof fn law_no_daily_look_ahead<S: Number>(
    daily: Seq<Candle<S>>,
    other: Seq<Candle<S>>,
    four_hour: Seq<Candle<S>>,
    costs: CostModel<S>,
    risk_per_trade: S,
    params: StrategyParams<S>,
    n: nat,
)
    requires
        n <= four_hour.len(),
        agree_until(
            daily,
            other,
            walk(daily, four_hour, costs, risk_per_trade, params, n).closed,
        ),
    ensures
        walk(daily, four_hour, costs, risk_per_trade, params, n) == walk(
            other,
            four_hour,
            costs,
            risk_per_trade,
            params,
            n,
        ),
    decreases n,
{
    if n > 0 {
        let k = (n - 1) as nat;
        lemma_walk_closed(daily, four_hour, costs, risk_per_trade, params, n);
        lemma_walk_closed(daily, four_hour, costs, risk_per_trade, params, k);
        let before = walk(daily, four_hour, costs, risk_per_trade, params, k);
        let now = walk(daily, four_hour, costs, risk_per_trade, params, n);
        lemma_agree_earlier(daily, other, now.closed, before.closed);
        law_no_daily_look_ahead(daily, other, four_hour, costs, risk_per_trade, params, k);
        lemma_absorbed(daily, other, before.closed, four_hour.take(n as int).last().close_time);
    }
}

/// A balance with the profit of each trade added in turn.
pub open spec fn booked<S: Number>(start: S, trades: Seq<SimTrade<S>>) -> S
    decreases trades.len(),
{
    if trades.len() == 0 {
        start
    } else {
        booked(start, trades.drop_last()).sum(trades.last().pnl)
    }
}

proof fn lemma_exit_books<S: Number>(
    state: SimState<S>,
    pos: SimPosition<S>,
    quote: S,
    reason: ExitReason,
    costs: CostModel<S>,
)
    requires
        state.balance == booked(starting_balance::<S>(), state.trades),
    ensures
        ({
            let after = state.with_exit(pos, quote, reason, costs);
            after.balance == booked(starting_balance::<S>(), after.trades)
        }),
{
    let trade = settled(pos, quote, reason, costs);
    assert(state.trades.push(trade).drop_last() =~= state.trades);
}

proof fn lemma_walk_books<S: Number>(
    daily: Seq<Candle<S>>,
    four_hour: Seq<Candle<S>>,
    costs: CostModel<S>,
    risk_per_trade: S,
    params: StrategyParams<S>,
    n: nat,
)
    ensures
        ({
            let state = walk(daily, four_hour, costs, risk_per_trade, params, n);
            state.balance == booked(starting_balance::<S>(), state.trades)
        }),
    decreases n,
{
    if n > 0 {
        let k = (n - 1) as nat;
        lemma_walk_books(daily, four_hour, costs, risk_per_trade, params, k);
        let before = walk(daily, four_hour, costs, risk_per_trade, params, k);
        let bars = four_hour.take(n as int);
        let bar = bars.last();
        let caught_up = SimState { closed: absorbed(daily, before.closed, bar.close_time), ..before };
        let warm = SimState {
            first_bar: match before.first_bar {
                Some(first) => Some(first),
                None => Some(bars.len() - 1),
            },
            ..caught_up
        };
        if let Some(pos) = warm.position {
            if let Some((level, reason)) = touched(pos, bar.low, bar.high) {
                lemma_exit_books(warm, pos, level, reason, costs);
            }
        }
        let levelled = warm.after_levels(bar, costs);
        if let Some(snap) = snapshot_at(daily, caught_up.closed, bars) {
            if let Some(pos) = levelled.position {
                let noted = SimState {
                    diagnostics: levelled.diagnostics.recorded(
                        conditions_of(snap, params),
                        levelled.position is Some,
                    ),
                    ..levelled
                };
                lemma_exit_books(noted, pos, snap.current_price, ExitReason::Signal, costs);
            }
        }
    }
}

/// The final balance is the starting balance with the profit of every trade booked
/// in turn: nothing else moves it.
pub proof fn law_final_balance_is_the_sum_of_trades<S: Number>(
    daily: Seq<Candle<S>>,
    four_hour: Seq<Candle<S>>,
    costs: CostModel<S>,
    risk_per_trade: S,
    params: StrategyParams<S>,
)
    ensures
        ({
            let end = walked(daily, four_hour, costs, risk_per_trade, params);
            end.balance == booked(starting_balance::<S>(), end.trades)
        }),
{
    lemma_walk_books(daily, four_hour, costs, risk_per_trade, params, four_hour.len());
    let last = walk(daily, four_hour, costs, risk_per_trade, params, four_hour.len());
    if let Some(pos) = last.position {
        lemma_exit_books(last, pos, four_hour.last().close, ExitReason::EndOfData, costs);
    }
}

/// Whether two counts are of the same signals: they may differ only in how many were
/// blocked by a position that was open.
pub open spec fn same_signals(a: Diagnostics, b: Diagnostics) -> bool {
    a == Diagnostics { blocked_in_position: a.blocked_in_position, ..b }
}

/// What one more bar does to what is known of the signals.
proof fn lemma_bar_signals<S: Number>(
    state: SimState<S>,
    daily: Seq<Candle<S>>,
    bars: Seq<Candle<S>>,
    costs: CostModel<S>,
    risk_per_trade: S,
    params: StrategyParams<S>,
)
    ensures
        ({
            let after = state.after_bar(daily, bars, costs, risk_per_trade, params);
            let closed = absorbed(daily, state.closed, bars.last().close_time);
            let cold = closed < MIN_DAILY_CANDLES || bars.len() < MIN_FOUR_HOUR_CANDLES;
            let snap = snapshot_at(daily, closed, bars);
            &&& after.closed == closed
            &&& after.first_bar == if cold || state.first_bar is Some {
                state.first_bar
            } else {
                Some(bars.len() - 1)
            }
            &&& cold || snap is None ==> after.diagnostics == state.diagnostics
            &&& !cold && snap is Some ==> exists|long: bool|
                after.diagnostics == #[trigger] state.diagnostics.recorded(
                    conditions_of(snap->0, params),
                    long,
                )
        }),
{
    let closed = absorbed(daily, state.closed, bars.last().close_time);
    if !(closed < MIN_DAILY_CANDLES || bars.len() < MIN_FOUR_HOUR_CANDLES) {
        let warm = SimState {
            closed,
            first_bar: match state.first_bar {
                Some(first) => Some(first),
                None => Some(bars.len() - 1),
            },
            ..state
        }.after_levels(bars.last(), costs);
        if let Some(snap) = snapshot_at(daily, closed, bars) {
            let noted = state.diagnostics.recorded(
                conditions_of(snap, params),
                warm.position is Some,
            );
            assert(warm.after_signal(snap, costs, risk_per_trade, params).diagnostics == noted);
        }
    }
}

/// The signals are the same whatever is staked on them and whatever trading costs: two
/// walks over one history warm up at the same bar, see the same daily candles, and
/// count the same conditions.
#[verifier::spinoff_prover]
pub proof fn law_signals_do_not_depend_on_the_stake<S: Number>(
    daily: Seq<Candle<S>>,
    four_hour: Seq<Candle<S>>,
    costs: CostModel<S>,
    other_costs: CostModel<S>,
    risk_per_trade: S,
    other_risk: S,
    params: StrategyParams<S>,
    n: nat,
)
    ensures
        ({
            let a = walk(daily, four_hour, costs, risk_per_trade, params, n);
            let b = walk(daily, four_hour, other_costs, other_risk, params, n);
            &&& a.closed == b.closed
            &&& a.first_bar == b.first_bar
            &&& same_signals(a.diagnostics, b.diagnostics)
        }),
    decreases n,
{
    if n > 0 {
        law_signals_do_not_depend_on_the_stake(
            daily,
            four_hour,
            costs,
            other_costs,
            risk_per_trade,
            other_risk,
            params,
            (n - 1) as nat,
        );
        let m = (n - 1) as nat;
        let bars = four_hour.take(n as int);
        let a = walk(daily, four_hour, costs, risk_per_trade, params, m);
        let b = walk(daily, four_hour, other_costs, other_risk, params, m);
        lemma_bar_signals(a, daily, bars, costs, risk_per_trade, params);
        lemma_bar_signals(b, daily, bars, other_costs, other_risk, params);
    }
}

/// Whether no trade was closed for want of further bars.
pub open spec fn none_at_the_end<S>(trades: Seq<SimTrade<S>>) -> bool {
    forall|i: int|
        0 <= i < trades.len() ==> (#[trigger] trades[i]).exit_reason != ExitReason::EndOfData
}

/// The trades without the one that marked out what was open at the end, if any.
pub open spec fn without_the_end<S>(trades: Seq<SimTrade<S>>) -> Seq<SimTrade<S>> {
    if trades.len() > 0 && trades.last().exit_reason == ExitReason::EndOfData {
        trades.drop_last()
    } else {
        trades
    }
}

/// Whether a later state of a walk only adds to an earlier one.
pub open spec fn only_adds<S: Number>(earlier: SimState<S>, later: SimState<S>) -> bool {
    &&& earlier.trades.is_prefix_of(later.trades)
    &&& earlier.first_bar is Some ==> later.first_bar == earlier.first_bar
    &&& earlier.drawdown.deepest.le(later.drawdown.deepest)
}

/// A deepest fall that is a number does not shrink with one more mark.
pub proof fn lemma_drawdown_deepens<S: Lawful>(drawdown: Drawdown<S>, high: S, low: S)
    requires
        !drawdown.deepest.is_undefined(),
    ensures
        drawdown.deepest.le(drawdown.after(high, low).deepest),
        !drawdown.after(high, low).deepest.is_undefined(),
{
    let next = drawdown.after(high, low).deepest;
    S::law_total(drawdown.deepest, drawdown.deepest);
    if drawdown.deepest.lt(next) {
        lemma_ordered(drawdown.deepest, next);
    }
}

proof fn lemma_marked_adds<S: Lawful>(earlier: SimState<S>, state: SimState<S>, close: S)
    requires
        only_adds(earlier, state),
    ensures
        only_adds(earlier, state.marked(close)),
        !state.marked(close).drawdown.deepest.is_undefined(),
        state.marked(close).trades == state.trades,
{
    let open_pnl = match state.position {
        Some(pos) => close.difference(pos.entry_price).product(pos.quantity),
        None => zero::<S>(),
    };
    let equity = state.balance.sum(open_pnl);
    lemma_ordered(earlier.drawdown.deepest, state.drawdown.deepest);
    lemma_drawdown_deepens(state.drawdown, equity, equity);
    S::law_transitive(
        earlier.drawdown.deepest,
        state.drawdown.deepest,
        state.marked(close).drawdown.deepest,
    );
}

proof fn lemma_exit_adds<S: Lawful>(
    earlier: SimState<S>,
    state: SimState<S>,
    pos: SimPosition<S>,
    quote: S,
    reason: ExitReason,
    costs: CostModel<S>,
)
    requires
        only_adds(earlier, state),
        none_at_the_end(state.trades),
        reason != ExitReason::EndOfData,
    ensures
        only_adds(earlier, state.with_exit(pos, quote, reason, costs)),
        none_at_the_end(state.with_exit(pos, quote, reason, costs).trades),
{
}

proof fn lemma_bar_adds<S: Lawful>(
    state: SimState<S>,
    daily: Seq<Candle<S>>,
    bars: Seq<Candle<S>>,
    costs: CostModel<S>,
    risk_per_trade: S,
    params: StrategyParams<S>,
)
    requires
        !state.drawdown.deepest.is_undefined(),
        none_at_the_end(state.trades),
    ensures
        only_adds(state, state.after_bar(daily, bars, costs, risk_per_trade, params)),
        none_at_the_end(state.after_bar(daily, bars, costs, risk_per_trade, params).trades),
{
    let bar = bars.last();
    let closed = absorbed(daily, state.closed, bar.close_time);
    S::law_total(state.drawdown.deepest, state.drawdown.deepest);
    if !(closed < MIN_DAILY_CANDLES || bars.len() < MIN_FOUR_HOUR_CANDLES) {
        let begun = SimState {
            closed,
            first_bar: match state.first_bar {
                Some(first) => Some(first),
                None => Some(bars.len() - 1),
            },
            ..state
        };
        assert(only_adds(state, begun));
        if let Some(pos) = begun.position {
            if let Some((level, reason)) = touched(pos, bar.low, bar.high) {
                lemma_exit_adds(state, begun, pos, level, reason, costs);
            }
        }
        let warm = begun.after_levels(bar, costs);
        assert(only_adds(state, warm) && none_at_the_end(warm.trades));
        if let Some(snap) = snapshot_at(daily, closed, bars) {
            let noted = SimState {
                diagnostics: warm.diagnostics.recorded(
                    conditions_of(snap, params),
                    warm.position is Some,
                ),
                ..warm
            };
            let price = snap.current_price;
            match (decision(snap, params), warm.position) {
                (Signal::Buy, None) => {
                    let pos = entered(
                        price,
                        snap.swing_low,
                        warm.balance,
                        warm.balance,
                        risk_per_trade,
                        costs,
                    );
                    lemma_marked_adds(state, SimState { position: Some(pos), ..noted }, price);
                },
                (Signal::Sell, Some(pos)) => {
                    lemma_exit_adds(state, noted, pos, price, ExitReason::Signal, costs);
                    let sold = noted.with_exit(pos, price, ExitReason::Signal, costs);
                    lemma_marked_adds(state, sold, price);
                },
                _ => lemma_marked_adds(state, noted, price),
            }
        }
    }
}

/// Later bars only add to a walk: after more bars every trade made so far is still
/// there, in the same place, a first bar once set stays, and the deepest drawdown has
/// not shrunk.
pub proof fn law_later_bars_only_add<S: Lawful>(
    daily: Seq<Candle<S>>,
    four_hour: Seq<Candle<S>>,
    costs: CostModel<S>,
    risk_per_trade: S,
    params: StrategyParams<S>,
    n: nat,
    m: nat,
)
    requires
        n <= m,
    ensures
        only_adds(
            walk(daily, four_hour, costs, risk_per_trade, params, n),
            walk(daily, four_hour, costs, risk_per_trade, params, m),
        ),
        none_at_the_end(walk(daily, four_hour, costs, risk_per_trade, params, m).trades),
    decreases m,
{
    let a = walk(daily, four_hour, costs, risk_per_trade, params, n);
    let b = walk(daily, four_hour, costs, risk_per_trade, params, m);
    if m == 0 {
        lemma_zero::<S>();
    } else {
        let k = (m - 1) as nat;
        let from = if n < m {
            n
        } else {
            0
        };
        law_later_bars_only_add(daily, four_hour, costs, risk_per_trade, params, from, k);
        let start = walk(daily, four_hour, costs, risk_per_trade, params, from);
        let before = walk(daily, four_hour, costs, risk_per_trade, params, k);
        lemma_ordered(start.drawdown.deepest, before.drawdown.deepest);
        lemma_bar_adds(before, daily, four_hour.take(m as int), costs, risk_per_trade, params);
        lemma_ordered(before.drawdown.deepest, b.drawdown.deepest);
        S::law_total(b.drawdown.deepest, b.drawdown.deepest);
        if n < m {
            S::law_transitive(
                a.drawdown.deepest,
                before.drawdown.deepest,
                b.drawdown.deepest,
            );
        }
    }
}

/// A simulation of a longer history only adds to that of its beginning: apart from
/// what the shorter one marks out at its end, its trades come first in the longer one,
/// a first bar is the same, and the deepest drawdown is no larger.
pub proof fn law_a_longer_history_only_adds<S: Lawful>(
    daily: Seq<Candle<S>>,
    four_hour: Seq<Candle<S>>,
    costs: CostModel<S>,
    risk_per_trade: S,
    params: StrategyParams<S>,
    k: nat,
)
    requires
        k <= four_hour.len(),
    ensures
        ({
            let part = walked(daily, four_hour.take(k as int), costs, risk_per_trade, params);
            let full = walked(daily, four_hour, costs, risk_per_trade, params);
            &&& without_the_end(part.trades).is_prefix_of(full.trades)
            &&& part.first_bar is Some ==> full.first_bar == part.first_bar
            &&& part.drawdown.deepest.le(full.drawdown.deepest)
        }),
{
    let beginning = four_hour.take(k as int);
    assert(beginning.take(k as int) =~= four_hour.take(k as int));
    law_no_look_ahead(daily, beginning, four_hour, costs, risk_per_trade, params, k);
    law_later_bars_only_add(daily, four_hour, costs, risk_per_trade, params, k, four_hour.len());
    law_later_bars_only_add(daily, four_hour, costs, risk_per_trade, params, k, k);
    let at_k = walk(daily, four_hour, costs, risk_per_trade, params, k);
    let part = walked(daily, beginning, costs, risk_per_trade, params);
    assert(without_the_end(part.trades) =~= at_k.trades);
}

/// A bar that touches both levels resolves as the stop.
pub proof fn law_both_levels_resolve_as_the_stop<S: Number>(pos: SimPosition<S>, low: S, high: S)
    requires
        low.le(pos.stop_loss),
    ensures
        touched(pos, low, high) == Some((pos.stop_loss, ExitReason::StopLoss)),
{
}

/// The candle in progress is made of bars of its own day, up to the latest one and
/// none beyond the slice.
pub proof fn law_partial_day_is_its_own<S: Number>(bars: Seq<Candle<S>>, day_open: u64)
    requires
        partial_of(bars, day_open) is Some,
    ensures
        ({
            let start = day_start(bars, day_open, bars.len() - 1);
            &&& 0 <= start < bars.len()
            &&& forall|i: int| start <= i < bars.len() ==> (#[trigger] bars[i]).open_time >= day_open
            &&& start > 0 ==> bars[start - 1].open_time < day_open
            &&& partial_of(bars, day_open) == Some(merged(bars.skip(start)))
        }),
{
    lemma_day_start(bars, day_open, bars.len() - 1);
}

proof fn lemma_day_start<S>(bars: Seq<Candle<S>>, day_open: u64, i: int)
    requires
        0 <= i < bars.len(),
        bars[i].open_time >= day_open,
    ensures
        ({
            let start = day_start(bars, day_open, i);
            &&& 0 <= start <= i
            &&& forall|k: int| start <= k <= i ==> (#[trigger] bars[k]).open_time >= day_open
            &&& start > 0 ==> bars[start - 1].open_time < day_open
        }),
    decreases i,
{
    if i > 0 && bars[i - 1].open_time >= day_open {
        lemma_day_start(bars, day_open, i - 1);
    }
}

/// Whether `trade` is `pos` closed at `quote`. Everything but a target crosses the book:
/// it receives the quote less slippage and pays the taker fee, where a target receives
/// its price and pays the maker fee. The profit is the way from the entry to the exit,
/// times the quantity, less both fees; it is told as a percentage of what the entry cost
/// and as a share of the equity that stood behind it.
pub open spec fn closes_at<S: Number>(
    trade: SimTrade<S>,
    pos: SimPosition<S>,
    quote: S,
    reason: ExitReason,
    costs: CostModel<S>,
) -> bool {
    let nothing = S::of_ratio(0, 1);
    let proceeds = trade.exit_price.product(pos.quantity);
    let cost = pos.entry_price.product(pos.quantity);
    &&& trade.entry_price == pos.entry_price
    &&& trade.quantity == pos.quantity
    &&& trade.exit_reason == reason
    &&& reason == ExitReason::TakeProfit ==> trade.exit_price == quote && trade.fees
        == pos.entry_fee.sum(proceeds.magnitude().product(costs.maker_fee))
    &&& reason != ExitReason::TakeProfit ==> trade.exit_price == quote.product(
        S::of_ratio(1, 1).difference(costs.slippage),
    ) && trade.fees == pos.entry_fee.sum(proceeds.magnitude().product(costs.taker_fee))
    &&& trade.pnl == trade.exit_price.difference(pos.entry_price).product(
        pos.quantity,
    ).difference(trade.fees)
    &&& nothing.lt(cost) ==> trade.pnl_pct == trade.pnl.quotient(cost).product(
        S::of_ratio(100, 1),
    )
    &&& !nothing.lt(cost) ==> trade.pnl_pct == nothing
    &&& nothing.lt(pos.equity_at_entry) ==> trade.equity_return == trade.pnl.quotient(
        pos.equity_at_entry,
    )
    &&& !nothing.lt(pos.equity_at_entry) ==> trade.equity_return == nothing
}

/// What closing a position comes to.
pub proof fn law_settling<S: Number>(
    pos: SimPosition<S>,
    quote: S,
    reason: ExitReason,
    costs: CostModel<S>,
)
    ensures
        closes_at(settled(pos, quote, reason, costs), pos, quote, reason, costs),
{
}

/// Without costs, on exact amounts, a position that is closed above its entry makes a
/// profit and one closed below it a loss: the way between them, times the quantity.
pub proof fn law_without_costs_the_way_is_the_profit(
    pos: SimPosition<Amount>,
    quote: i64,
    reason: ExitReason,
    costs: CostModel<Amount>,
)
    requires
        pos.entry_price is Units,
        pos.quantity is Units,
        0 <= quote,
        0 <= pos.entry_price->0,
        0 <= pos.quantity->0,
        pos.entry_fee == Amount::Units(0),
        costs.taker_fee == Amount::Units(0),
        costs.maker_fee == Amount::Units(0),
        costs.slippage == Amount::Units(0),
        Amount::Units(quote).product(pos.quantity) is Units,
        pos.entry_price.product(pos.quantity) is Units,
    ensures
        ({
            let trade = settled(pos, Amount::Units(quote), reason, costs);
            &&& trade.pnl is Units
            &&& trade.fees == Amount::Units(0)
            &&& trade.pnl->0 as int == ((quote - pos.entry_price->0) * pos.quantity->0) / (
            SCALE as int)
            &&& quote >= pos.entry_price->0 ==> trade.pnl->0 >= 0
            &&& quote <= pos.entry_price->0 ==> trade.pnl->0 <= 0
        }),
{
    let s = SCALE as int;
    let e = pos.entry_price->0 as int;
    let q = pos.quantity->0 as int;
    let x = quote as int;
    assert((x * s) / s == x) by (nonlinear_arith)
        requires
            s == 100_000_000,
    ;
    let exit = Amount::Units(quote).product(Amount::of_ratio(1, 1).difference(costs.slippage));
    assert(exit == Amount::Units(quote));
    let proceeds = (x * q) / s;
    assert(proceeds >= 0) by (nonlinear_arith)
        requires
            proceeds == (x * q) / s,
            x >= 0,
            q >= 0,
            s == 100_000_000,
    ;
    assert(proceeds * 0 == 0) by (nonlinear_arith);
    let way = (x - e) * q;
    assert(-((e * q) / s) - 1 <= way / s <= (x * q) / s) by (nonlinear_arith)
        requires
            way == (x - e) * q,
            x >= 0,
            e >= 0,
            q >= 0,
            s == 100_000_000,
    ;
    if x >= e {
        assert(way / s >= 0) by (nonlinear_arith)
            requires
                way == (x - e) * q,
                x >= e,
                q >= 0,
                s == 100_000_000,
        ;
    }
    if x <= e {
        assert(way / s <= 0) by (nonlinear_arith)
            requires
                way == (x - e) * q,
                x <= e,
                q >= 0,
                s == 100_000_000,
        ;
    }
}

/// Whether bar `n` counts: by its close two hundred daily candles have closed, and it is
/// the thirty-fifth bar or a later one.
pub open spec fn counts<S: Number>(after: SimState<S>, n: nat) -> bool {
    after.closed >= 200 && n + 1 >= 35
}

/// Whether a bar leaves both levels of a position alone.
pub open spec fn between_levels<S: Number>(pos: SimPosition<S>, bar: Candle<S>) -> bool {
    !bar.low.le(pos.stop_loss) && !pos.take_profit.le(bar.high)
}

/// A SELL closes what is open. Where a position outlives the levels of a bar and the
/// rules say SELL on that bar, it is closed at the bar's close: nothing is open then, and
/// the log has one more trade, closed by the signal.
pub proof fn law_a_sell_signal_closes_the_position<S: Number>(
    daily: Seq<Candle<S>>,
    four_hour: Seq<Candle<S>>,
    costs: CostModel<S>,
    risk_per_trade: S,
    params: StrategyParams<S>,
    n: nat,
    snap: IndicatorSnapshot<S>,
)
    requires
        n < four_hour.len(),
        counts(walk(daily, four_hour, costs, risk_per_trade, params, n + 1), n),
        snapshot_at(
            daily,
            walk(daily, four_hour, costs, risk_per_trade, params, n + 1).closed,
            four_hour.take(n as int + 1),
        ) == Some(snap),
        decision(snap, params) == Signal::Sell,
        walk(daily, four_hour, costs, risk_per_trade, params, n).position matches Some(pos)
            && between_levels(pos, four_hour[n as int]),
    ensures
        ({
            let before = walk(daily, four_hour, costs, risk_per_trade, params, n);
            let after = walk(daily, four_hour, costs, risk_per_trade, params, n + 1);
            let trade = after.trades.last();
            &&& after.position is None
            &&& after.trades == before.trades.push(trade)
            &&& closes_at(
                trade,
                before.position->0,
                four_hour[n as int].close,
                ExitReason::Signal,
                costs,
            )
            &&& after.balance == before.balance.sum(trade.pnl)
        }),
{
    let bars = four_hour.take(n as int + 1);
    assert(bars.last() == four_hour[n as int]);
    lemma_snapshot_price(
        daily,
        walk(daily, four_hour, costs, risk_per_trade, params, n + 1).closed,
        bars,
    );
    lemma_walk_closed(daily, four_hour, costs, risk_per_trade, params, n + 1);
    let before = walk(daily, four_hour, costs, risk_per_trade, params, n);
    let after = walk(daily, four_hour, costs, risk_per_trade, params, n + 1);
    assert(after == before.after_bar(daily, bars, costs, risk_per_trade, params));
    assert(after.trades =~= before.trades.push(after.trades.last()));
}

proof fn lemma_snapshot_price<S: Number>(daily: Seq<Candle<S>>, closed: int, bars: Seq<Candle<S>>)
    ensures
        snapshot_at(daily, closed, bars) matches Some(snap) ==> snap.current_price
            == bars.last().close,
{
}

/// A level that a bar reaches closes the position there: the stop where the low is at it
/// or under it, whatever the high, else the target where the high is at it or over it.
/// The log has one more trade, and what was open is gone; a BUY on the same bar may open
/// anew.
pub proof fn law_a_level_closes_the_position<S: Number>(
    daily: Seq<Candle<S>>,
    four_hour: Seq<Candle<S>>,
    costs: CostModel<S>,
    risk_per_trade: S,
    params: StrategyParams<S>,
    n: nat,
)
    requires
        n < four_hour.len(),
        counts(walk(daily, four_hour, costs, risk_per_trade, params, n + 1), n),
        walk(daily, four_hour, costs, risk_per_trade, params, n).position matches Some(pos)
            && !between_levels(pos, four_hour[n as int]),
    ensures
        ({
            let before = walk(daily, four_hour, costs, risk_per_trade, params, n);
            let after = walk(daily, four_hour, costs, risk_per_trade, params, n + 1);
            let pos = before.position->0;
            let trade = after.trades.last();
            &&& after.trades == before.trades.push(trade)
            &&& four_hour[n as int].low.le(pos.stop_loss) ==> closes_at(
                trade,
                pos,
                pos.stop_loss,
                ExitReason::StopLoss,
                costs,
            )
            &&& !four_hour[n as int].low.le(pos.stop_loss) ==> closes_at(
                trade,
                pos,
                pos.take_profit,
                ExitReason::TakeProfit,
                costs,
            )
            &&& after.balance == before.balance.sum(trade.pnl)
            &&& after.position is Some ==> (snapshot_at(
                daily,
                after.closed,
                four_hour.take(n as int + 1),
            ) matches Some(snap) && decision(snap, params) == Signal::Buy)
        }),
{
    let bars = four_hour.take(n as int + 1);
    assert(bars.last() == four_hour[n as int]);
    let before = walk(daily, four_hour, costs, risk_per_trade, params, n);
    let after = walk(daily, four_hour, costs, risk_per_trade, params, n + 1);
    assert(after == before.after_bar(daily, bars, costs, risk_per_trade, params));
    assert(after.trades =~= before.trades.push(after.trades.last()));
}

/// A BUY opens what is not open yet: at the close and the slippage on it, with the swing
/// low as its stop and the target twice as far above the price paid, sized on the balance
/// and charged the taker fee. A size of nothing opens nothing.
pub proof fn law_a_buy_signal_opens_a_position<S: Number>(
    daily: Seq<Candle<S>>,
    four_hour: Seq<Candle<S>>,
    costs: CostModel<S>,
    risk_per_trade: S,
    params: StrategyParams<S>,
    n: nat,
    snap: IndicatorSnapshot<S>,
)
    requires
        n < four_hour.len(),
        counts(walk(daily, four_hour, costs, risk_per_trade, params, n + 1), n),
        snapshot_at(
            daily,
            walk(daily, four_hour, costs, risk_per_trade, params, n + 1).closed,
            four_hour.take(n as int + 1),
        ) == Some(snap),
        decision(snap, params) == Signal::Buy,
        walk(daily, four_hour, costs, risk_per_trade, params, n).position is None,
    ensures
        ({
            let before = walk(daily, four_hour, costs, risk_per_trade, params, n);
            let after = walk(daily, four_hour, costs, risk_per_trade, params, n + 1);
            let fill = four_hour[n as int].close.product(
                S::of_ratio(1, 1).sum(costs.slippage),
            );
            let size = sized_within(
                before.balance,
                before.balance,
                risk_per_trade,
                fill,
                snap.swing_low,
            ).0;
            &&& after.trades == before.trades
            &&& after.balance == before.balance
            &&& size.le(S::of_ratio(0, 1)) ==> after.position is None
            &&& !size.le(S::of_ratio(0, 1)) ==> (after.position matches Some(pos) && {
                &&& pos.entry_price == fill
                &&& pos.quantity == size
                &&& pos.stop_loss == snap.swing_low
                &&& pos.take_profit == fill.sum(
                    S::of_ratio(2, 1).product(fill.difference(snap.swing_low)),
                )
                &&& pos.entry_fee == fill.product(size).magnitude().product(costs.taker_fee)
                &&& pos.equity_at_entry == before.balance
            })
        }),
{
    let bars = four_hour.take(n as int + 1);
    assert(bars.last() == four_hour[n as int]);
    lemma_snapshot_price(
        daily,
        walk(daily, four_hour, costs, risk_per_trade, params, n + 1).closed,
        bars,
    );
    lemma_walk_closed(daily, four_hour, costs, risk_per_trade, params, n + 1);
    let before = walk(daily, four_hour, costs, risk_per_trade, params, n);
    let after = walk(daily, four_hour, costs, risk_per_trade, params, n + 1);
    assert(after == before.after_bar(daily, bars, costs, risk_per_trade, params));
}

/// Nothing else trades. A bar that does not count changes neither position nor log nor
/// balance; nor does one that leaves the levels alone and has no snapshot, or says HOLD,
/// or BUY with a position open, or SELL with none.
pub proof fn law_nothing_else_trades<S: Number>(
    daily: Seq<Candle<S>>,
    four_hour: Seq<Candle<S>>,
    costs: CostModel<S>,
    risk_per_trade: S,
    params: StrategyParams<S>,
    n: nat,
)
    requires
        n < four_hour.len(),
    ensures
        ({
            let before = walk(daily, four_hour, costs, risk_per_trade, params, n);
            let after = walk(daily, four_hour, costs, risk_per_trade, params, n + 1);
            let snap = snapshot_at(daily, after.closed, four_hour.take(n as int + 1));
            let open = before.position is Some;
            let quiet = open ==> between_levels(before.position->0, four_hour[n as int]);
            let idle = snap is None || decision(snap->0, params) == Signal::Hold || (open
                && decision(snap->0, params) == Signal::Buy) || (!open && decision(
                snap->0,
                params,
            ) == Signal::Sell);
            !counts(after, n) || (quiet && idle) ==> after.position == before.position
                && after.trades == before.trades && after.balance == before.balance
        }),
{
    let bars = four_hour.take(n as int + 1);
    assert(bars.last() == four_hour[n as int]);
    lemma_walk_closed(daily, four_hour, costs, risk_per_trade, params, n + 1);
    let before = walk(daily, four_hour, costs, risk_per_trade, params, n);
    let after = walk(daily, four_hour, costs, risk_per_trade, params, n + 1);
    assert(after == before.after_bar(daily, bars, costs, risk_per_trade, params));
}

/// A walk starts with ten thousand, nothing open and an empty log. What is open at its end
/// is closed at the last close and logged so; without anything open the end changes
/// nothing.
pub proof fn law_where_a_walk_starts_and_ends<S: Number>(
    daily: Seq<Candle<S>>,
    four_hour: Seq<Candle<S>>,
    costs: CostModel<S>,
    risk_per_trade: S,
    params: StrategyParams<S>,
)
    ensures
        ({
            let start = walk(daily, four_hour, costs, risk_per_trade, params, 0);
            let last = walk(daily, four_hour, costs, risk_per_trade, params, four_hour.len());
            let end = walked(daily, four_hour, costs, risk_per_trade, params);
            let trade = end.trades.last();
            &&& start.balance == S::of_ratio(10_000, 1)
            &&& start.position is None
            &&& start.trades.len() == 0
            &&& start.closed == 0
            &&& start.first_bar is None
            &&& start.diagnostics == no_diagnostics()
            &&& start.drawdown.peak == S::of_ratio(10_000, 1)
            &&& start.drawdown.deepest == S::of_ratio(0, 1)
            &&& last.position is None ==> end.trades == last.trades && end.balance == last.balance
            &&& last.position matches Some(pos) ==> {
                &&& end.trades == last.trades.push(trade)
                &&& closes_at(
                    trade,
                    pos,
                    four_hour[four_hour.len() - 1].close,
                    ExitReason::EndOfData,
                    costs,
                )
                &&& end.balance == last.balance.sum(trade.pnl)
            }
            &&& end.position is None
            &&& end.drawdown == last.drawdown
            &&& end.first_bar == last.first_bar
            &&& end.diagnostics == last.diagnostics
        }),
{
    let last = walk(daily, four_hour, costs, risk_per_trade, params, four_hour.len());
    let end = walked(daily, four_hour, costs, risk_per_trade, params);
    if last.position is Some {
        assert(end.trades =~= last.trades.push(end.trades.last()));
    }
}

/// The daily candles that have closed by a bar are all those in front whose close is not
/// after the bar's, and the first bar that counts is remembered.
pub proof fn law_the_day_is_known_by_its_close<S: Number>(
    daily: Seq<Candle<S>>,
    four_hour: Seq<Candle<S>>,
    costs: CostModel<S>,
    risk_per_trade: S,
    params: StrategyParams<S>,
    n: nat,
)
    requires
        n < four_hour.len(),
    ensures
        ({
            let before = walk(daily, four_hour, costs, risk_per_trade, params, n);
            let after = walk(daily, four_hour, costs, risk_per_trade, params, n + 1);
            let time = four_hour[n as int].close_time;
            &&& 0 <= before.closed <= after.closed <= daily.len()
            &&& forall|k: int|
                before.closed <= k < after.closed ==> (#[trigger] daily[k]).close_time <= time
            &&& after.closed < daily.len() ==> daily[after.closed].close_time > time
            &&& before.first_bar is Some ==> after.first_bar == before.first_bar
            &&& before.first_bar is None && counts(after, n) ==> after.first_bar == Some(n as int)
            &&& before.first_bar is None && !counts(after, n) ==> after.first_bar is None
        }),
{
    let bars = four_hour.take(n as int + 1);
    assert(bars.last() == four_hour[n as int]);
    lemma_walk_closed(daily, four_hour, costs, risk_per_trade, params, n);
    lemma_walk_closed(daily, four_hour, costs, risk_per_trade, params, n + 1);
    let before = walk(daily, four_hour, costs, risk_per_trade, params, n);
    let after = walk(daily, four_hour, costs, risk_per_trade, params, n + 1);
    lemma_absorbed_all(daily, before.closed, four_hour[n as int].close_time);
    assert(after == before.after_bar(daily, bars, costs, risk_per_trade, params));
    lemma_bar_signals(before, daily, bars, costs, risk_per_trade, params);
}

proof fn lemma_absorbed_all<S>(daily: Seq<Candle<S>>, from: int, time: u64)
    requires
        0 <= from <= daily.len(),
    ensures
        forall|k: int|
            from <= k < absorbed(daily, from, time) ==> (#[trigger] daily[k]).close_time <= time,
        absorbed(daily, from, time) < daily.len() ==> daily[absorbed(
            daily,
            from,
            time,
        )].close_time > time,
    decreases daily.len() - from,
{
    if from < daily.len() && daily[from].close_time <= time {
        lemma_absorbed_all(daily, from + 1, time);
    }
}

/// A snapshot is taken of the days that have closed, with the day in progress as the bars
/// of it show it, at the close of the last bar.
pub proof fn law_a_snapshot_is_of_the_moment<S: Number>(
    daily: Seq<Candle<S>>,
    closed: int,
    bars: Seq<Candle<S>>,
)
    requires
        0 <= closed <= daily.len(),
        bars.len() > 0,
    ensures
        ({
            let done = daily.subrange(0, closed);
            let price = bars[bars.len() - 1].close;
            let begun = closed < daily.len() && bars[bars.len() - 1].open_time
                >= daily[closed].open_time;
            &&& !begun ==> snapshot_at(daily, closed, bars) == indicators_of(done, bars, price)
            &&& begun ==> (partial_of(bars, daily[closed].open_time) matches Some(day)
                && snapshot_at(daily, closed, bars) == indicators_of(done.push(day), bars, price))
        }),
{
    assert(daily.take(closed) =~= daily.subrange(0, closed));
}

proof fn lemma_top_and_bottom<S: Lawful>(values: Seq<S>)
    ensures
        top(values) == S::lowest() || values.contains(top(values)),
        bottom(values) == S::highest() || values.contains(bottom(values)),
        forall|i: int|
            0 <= i < values.len() && !(#[trigger] values[i]).is_undefined() ==> values[i].le(
                top(values),
            ) && bottom(values).le(values[i]),
    decreases values.len(),
{
    if values.len() > 0 {
        let rest = values.drop_last();
        let last = values.last();
        assert(last == values[values.len() - 1]);
        lemma_top_and_bottom(rest);
        law_larger_and_smaller(top(rest), last);
        law_larger_and_smaller(bottom(rest), last);
        if !last.is_undefined() {
            S::law_total(last, last);
        }
        if rest.contains(top(rest)) {
            let k = choose|k: int| 0 <= k < rest.len() && rest[k] == top(rest);
            assert(values[k] == top(rest));
        }
        if rest.contains(bottom(rest)) {
            let k = choose|k: int| 0 <= k < rest.len() && rest[k] == bottom(rest);
            assert(values[k] == bottom(rest));
        }
        assert forall|i: int|
            0 <= i < values.len() && !(#[trigger] values[i]).is_undefined() implies values[i].le(
            top(values),
        ) && bottom(values).le(values[i]) by {
            if i < rest.len() {
                assert(rest[i] == values[i]);
                lemma_ordered(values[i], top(rest));
                lemma_ordered(bottom(rest), values[i]);
                S::law_total(top(rest), top(rest));
                S::law_total(bottom(rest), bottom(rest));
                S::law_transitive(values[i], top(rest), top(values));
                S::law_transitive(bottom(values), bottom(rest), values[i]);
            }
        }
    }
}

/// The day in progress is made of the bars of that day alone: it opens where the first of
/// them opens and closes where the last one closes, no bar of it is higher than its high or
/// lower than its low, those are highs and lows of bars of it, and its volume is theirs.
pub proof fn law_the_day_in_progress<S: Lawful>(bars: Seq<Candle<S>>, day_open: u64, start: int)
    requires
        0 <= start < bars.len(),
        start == 0 || bars[start - 1].open_time < day_open,
        forall|i: int| start <= i < bars.len() ==> (#[trigger] bars[i]).open_time >= day_open,
    ensures
        partial_of(bars, day_open) matches Some(day) && {
            &&& day.open_time == bars[start].open_time
            &&& day.open == bars[start].open
            &&& day.close == bars[bars.len() - 1].close
            &&& day.close_time == bars[bars.len() - 1].close_time
            &&& day.volume == total(
                Seq::new((bars.len() - start) as nat, |i: int| bars[start + i].volume),
            )
            &&& forall|i: int|
                start <= i < bars.len() && !(#[trigger] bars[i]).high.is_undefined()
                    ==> bars[i].high.le(day.high)
            &&& forall|i: int|
                start <= i < bars.len() && !(#[trigger] bars[i]).low.is_undefined()
                    ==> day.low.le(bars[i].low)
            &&& day.high == S::lowest() || exists|i: int|
                start <= i < bars.len() && (#[trigger] bars[i]).high == day.high
            &&& day.low == S::highest() || exists|i: int|
                start <= i < bars.len() && (#[trigger] bars[i]).low == day.low
        },
{
    lemma_day_start(bars, day_open, bars.len() - 1);
    let found = day_start(bars, day_open, bars.len() - 1);
    assert(bars[found].open_time >= day_open);
    if found < start {
        assert(bars[start - 1].open_time >= day_open);
    }
    if found > start {
        assert(bars[found - 1].open_time >= day_open);
    }
    let own = bars.skip(start);
    let highs = own.map_values(|c: Candle<S>| c.high);
    let lows = own.map_values(|c: Candle<S>| c.low);
    let volumes = own.map_values(|c: Candle<S>| c.volume);
    assert(volumes =~= Seq::new((bars.len() - start) as nat, |i: int| bars[start + i].volume));
    lemma_top_and_bottom(highs);
    lemma_top_and_bottom(lows);
    let day = partial_of(bars, day_open)->0;
    assert forall|i: int| start <= i < bars.len() && !(#[trigger] bars[i]).high.is_undefined()
        implies bars[i].high.le(day.high) by {
        assert(highs[i - start] == bars[i].high);
    }
    assert forall|i: int| start <= i < bars.len() && !(#[trigger] bars[i]).low.is_undefined()
        implies day.low.le(bars[i].low) by {
        assert(lows[i - start] == bars[i].low);
    }
    if highs.contains(day.high) {
        let k = choose|k: int| 0 <= k < highs.len() && highs[k] == day.high;
        assert(bars[start + k].high == day.high);
    }
    if lows.contains(day.low) {
        let k = choose|k: int| 0 <= k < lows.len() && lows[k] == day.low;
        assert(bars[start + k].low == day.low);
    }
}

/// A day of which no bar has opened yet is not in progress.
pub proof fn law_a_day_without_bars<S: Number>(bars: Seq<Candle<S>>, day_open: u64)
    requires
        bars.len() == 0 || bars[bars.len() - 1].open_time < day_open,
    ensures
        partial_of(bars, day_open) is None,
{
}

/// A drawdown is the deepest fall from a peak, in percent of it. The peak takes in every
/// new high, and where it is above zero the fall from it down to the low is taken in.
pub proof fn law_a_drawdown_takes_in_every_mark<S: Lawful>(drawdown: Drawdown<S>, high: S, low: S)
    requires
        !drawdown.peak.is_undefined(),
        !high.is_undefined(),
        !drawdown.deepest.is_undefined(),
    ensures
        ({
            let after = drawdown.after(high, low);
            let fall = after.peak.difference(low).quotient(after.peak).product(
                S::of_ratio(100, 1),
            );
            &&& after.peak == high || after.peak == drawdown.peak
            &&& high.le(after.peak) && drawdown.peak.le(after.peak)
            &&& S::of_ratio(0, 1).lt(after.peak) ==> {
                &&& after.deepest == drawdown.deepest || after.deepest == fall
                &&& drawdown.deepest.le(after.deepest)
                &&& fall.is_undefined() || fall.le(after.deepest)
            }
            &&& !S::of_ratio(0, 1).lt(after.peak) ==> after.deepest == drawdown.deepest
        }),
{
    law_larger_and_smaller(drawdown.peak, high);
    let after = drawdown.after(high, low);
    let fall = after.peak.difference(low).quotient(after.peak).product(S::of_ratio(100, 1));
    law_larger_and_smaller(drawdown.deepest, fall);
    S::law_total(drawdown.deepest, drawdown.deepest);
}

/// Every bar that the rules are applied to is marked, at the balance and what an open
/// position has gained or lost by the bar's close. The one exception is a BUY that is
/// sized at nothing. Any other bar leaves the mark alone.
pub proof fn law_equity_is_marked_at_the_close<S: Number>(
    daily: Seq<Candle<S>>,
    four_hour: Seq<Candle<S>>,
    costs: CostModel<S>,
    risk_per_trade: S,
    params: StrategyParams<S>,
    n: nat,
)
    requires
        n < four_hour.len(),
    ensures
        ({
            let before = walk(daily, four_hour, costs, risk_per_trade, params, n);
            let after = walk(daily, four_hour, costs, risk_per_trade, params, n + 1);
            let snap = snapshot_at(daily, after.closed, four_hour.take(n as int + 1));
            let open = match after.position {
                Some(pos) => four_hour[n as int].close.difference(pos.entry_price).product(
                    pos.quantity,
                ),
                None => S::of_ratio(0, 1),
            };
            let equity = after.balance.sum(open);
            &&& counts(after, n) && (snap matches Some(s) && !(decision(s, params) == Signal::Buy
                && after.position is None)) ==> after.drawdown == before.drawdown.after(
                equity,
                equity,
            )
            &&& !counts(after, n) || snap is None ==> after.drawdown == before.drawdown
        }),
{
    let bars = four_hour.take(n as int + 1);
    assert(bars.last() == four_hour[n as int]);
    lemma_walk_closed(daily, four_hour, costs, risk_per_trade, params, n + 1);
    let before = walk(daily, four_hour, costs, risk_per_trade, params, n);
    let after = walk(daily, four_hour, costs, risk_per_trade, params, n + 1);
    lemma_snapshot_price(daily, after.closed, bars);
    assert(after == before.after_bar(daily, bars, costs, risk_per_trade, params));
}

/// Each snapshot is counted once, under every condition that holds in it, and as blocked
/// where all of them hold while a position is open.
pub proof fn law_conditions_are_counted(
    diagnostics: Diagnostics,
    conditions: EntryConditions,
    open: bool,
)
    requires
        diagnostics.consistent(),
        diagnostics.evaluated < u32::MAX,
    ensures
        ({
            let after = diagnostics.recorded(conditions, open);
            let all = conditions.trend_bullish && conditions.rsi_ok && conditions.macd_crossed
                && conditions.stop_valid;
            &&& after.evaluated == diagnostics.evaluated + 1
            &&& after.trend == diagnostics.trend + if conditions.trend_bullish {
                1int
            } else {
                0
            }
            &&& after.rsi == diagnostics.rsi + if conditions.rsi_ok {
                1int
            } else {
                0
            }
            &&& after.macd == diagnostics.macd + if conditions.macd_crossed {
                1int
            } else {
                0
            }
            &&& after.rr == diagnostics.rr + if conditions.stop_valid {
                1int
            } else {
                0
            }
            &&& after.all_aligned == diagnostics.all_aligned + if all {
                1int
            } else {
                0
            }
            &&& after.blocked_in_position == diagnostics.blocked_in_position + if all && open {
                1int
            } else {
                0
            }
        }),
{
}

/// What a bar counts: nothing before the warmup is over or without a snapshot, and
/// otherwise the conditions of its snapshot, with a position open or not once its levels
/// were held against the bar.
pub proof fn law_every_snapshot_is_counted<S: Number>(
    daily: Seq<Candle<S>>,
    four_hour: Seq<Candle<S>>,
    costs: CostModel<S>,
    risk_per_trade: S,
    params: StrategyParams<S>,
    n: nat,
)
    requires
        n < four_hour.len(),
    ensures
        ({
            let before = walk(daily, four_hour, costs, risk_per_trade, params, n);
            let after = walk(daily, four_hour, costs, risk_per_trade, params, n + 1);
            let snap = snapshot_at(daily, after.closed, four_hour.take(n as int + 1));
            let open = before.position matches Some(pos) && between_levels(
                pos,
                four_hour[n as int],
            );
            &&& !counts(after, n) || snap is None ==> after.diagnostics == before.diagnostics
            &&& counts(after, n) && snap is Some ==> after.diagnostics
                == before.diagnostics.recorded(conditions_of(snap->0, params), open)
        }),
{
    let bars = four_hour.take(n as int + 1);
    assert(bars.last() == four_hour[n as int]);
    lemma_walk_closed(daily, four_hour, costs, risk_per_trade, params, n + 1);
    let before = walk(daily, four_hour, costs, risk_per_trade, params, n);
    let after = walk(daily, four_hour, costs, risk_per_trade, params, n + 1);
    assert(after == before.after_bar(daily, bars, costs, risk_per_trade, params));
}

/// Holding buys once at the first close and sells once at the last: all of the ten
/// thousand, less the fee, at the price that a market buy pays, and what that brings at
/// the price a market sell receives, less the fee. Without bars, or at a price of nothing,
/// the money stays.
pub proof fn law_holding_buys_once_and_sells_once<S: Number>(
    bars: Seq<Candle<S>>,
    costs: CostModel<S>,
)
    ensures
        bars.len() == 0 ==> held(bars, costs) == (S::of_ratio(10_000, 1), S::of_ratio(0, 1)),
        bars.len() > 0 ==> {
            let money = S::of_ratio(10_000, 1);
            let one = S::of_ratio(1, 1);
            let paid = bars[0].close.product(one.sum(costs.slippage));
            let units = money.difference(money.magnitude().product(costs.taker_fee)).quotient(
                paid,
            );
            let brought = bars[bars.len() - 1].close.product(
                one.difference(costs.slippage),
            ).product(units);
            &&& paid.le(S::of_ratio(0, 1)) ==> held(bars, costs) == (money, S::of_ratio(0, 1))
            &&& !paid.le(S::of_ratio(0, 1)) ==> held(bars, costs).0 == brought.difference(
                brought.magnitude().product(costs.taker_fee),
            ) && held(bars, costs).1 == held_drawdown(bars, units).deepest
        },
{
}

/// The drawdown of holding takes in every bar, its close as a possible peak and its low as
/// the fall.
pub proof fn law_holding_is_marked_at_every_bar<S: Number>(
    bars: Seq<Candle<S>>,
    bar: Candle<S>,
    units: S,
)
    ensures
        held_drawdown(Seq::<Candle<S>>::empty(), units) == (Drawdown {
            peak: S::of_ratio(10_000, 1),
            deepest: S::of_ratio(0, 1),
        }),
        held_drawdown(bars.push(bar), units) == held_drawdown(bars, units).after(
            bar.close.product(units),
            bar.low.product(units),
        ),
{
    assert(bars.push(bar).drop_last() =~= bars);
}

/// A balance takes in the profit of one trade after another.
pub proof fn law_booking<S: Number>(start: S, trades: Seq<SimTrade<S>>, trade: SimTrade<S>)
    ensures
        booked(start, Seq::<SimTrade<S>>::empty()) == start,
        booked(start, trades.push(trade)) == booked(start, trades).sum(trade.pnl),
{
    assert(trades.push(trade).drop_last() =~= trades);
}

/// A result says what the walk came to: its log, its last balance, its deepest drawdown,
/// its first bar and its counts.
pub proof fn law_a_result_is_of_its_walk<S: Number>(end: SimState<S>, result: SimResult<S>)
    requires
        result.reports(end),
    ensures
        result.trades@ == end.trades,
        result.final_balance == end.balance,
        result.max_drawdown == end.drawdown.deepest,
        end.first_bar is None ==> result.first_bar is None,
        end.first_bar matches Some(bar) ==> (result.first_bar matches Some(first) && first == bar),
        result.diagnostics == end.diagnostics,
{
}

/// How an exit is labelled, and what is counted before anything is: nothing.
pub proof fn law_labels_and_empty_counts()
    ensures
        ExitReason::StopLoss.name() == "SL"@,
        ExitReason::TakeProfit.name() == "TP"@,
        ExitReason::Signal.name() == "signal"@,
        ExitReason::EndOfData.name() == "end"@,
        ({
            let none = no_diagnostics();
            &&& none.evaluated == 0 && none.trend == 0 && none.rsi == 0 && none.macd == 0
                && none.rr == 0
            &&& none.all_aligned == 0 && none.blocked_in_position == 0
        }),
{
}

} // verus!
