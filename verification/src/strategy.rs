//! Signal logic: which conditions hold, and what to do about it.

use vstd::prelude::*;
use crate::amount::{lemma_scaled_order, Amount};
use crate::config::Environment;
use crate::exchange::Candle;
use crate::indicators::{
    atr, atr_series, differences, ema, ema_series, find_nearest_swing_low, law_swing_low, macd,
    macd_line_of, nearest_swing_low, rsi, rsi_series, signal_line_of,
};
use crate::number::{lemma_ordered, lemma_zero, zero, Lawful, Number};
use crate::text::{
    decimal, join, joined, lemma_texts_push, lowercase, lowered, same_text, text_of_count, texts, trim,
    trimmed,
};

verus! {

/// How recent a bullish MACD cross must be, in four-hour bars.
pub const DEFAULT_MACD_LOOKBACK_BARS: usize = 3;

/// How far back the last cross is looked for. The snapshot records the distance,
/// and [`StrategyParams`] says how recent is recent enough.
pub const MAX_MACD_LOOKBACK_BARS: usize = 12;

/// Daily candles an EMA(200) needs.
pub const MIN_DAILY_CANDLES: usize = 200;

/// Four-hour candles a MACD(12, 26, 9) needs.
pub const MIN_FOUR_HOUR_CANDLES: usize = 35;

#[derive(Debug, Clone, Copy, PartialEq, Eq, Structural)]
pub enum Signal {
    Buy,
    Sell,
    Hold,
    /// Reserved: [`evaluate`] never returns it. The drawdown halt lives in the
    /// risk manager, which stops trading without going through a signal.
    Halt,
}

#[derive(Debug, Clone, PartialEq)]
pub struct TradeSignal<S> {
    pub asset: String,
    pub signal: Signal,
    pub confidence: String,
    pub entry_price: S,
    pub stop_loss: S,
    pub take_profit: S,
    pub risk_reward_ratio: S,
    pub reasoning: String,
    pub warnings: Vec<String>,
    /// Daily ATR(14) at signal time, used to size the trailing stop.
    pub atr: S,
}

/// All indicator values at the latest candle.
#[derive(Debug, Clone, Copy, PartialEq)]
pub struct IndicatorSnapshot<S> {
    pub ema_50: S,
    pub ema_200: S,
    pub rsi_14: S,
    pub macd_histogram: S,
    /// MACD line currently above its signal line.
    pub macd_above_signal: bool,
    /// Bars since the MACD line was last at or below its signal line, at most
    /// [`MAX_MACD_LOOKBACK_BARS`]. `None` means that it has been above for longer:
    /// a mature move rather than a fresh cross.
    pub macd_bars_since_cross: Option<usize>,
    pub current_price: S,
    pub swing_low: S,
    /// Daily ATR(14): "normal" movement in price units, which sizes the signal
    /// buffer.
    pub atr_14: S,
}

/// How far price must travel past EMA50 before a signal counts, and how strict
/// the entry gates are.
///
/// The buffers default to zero: entry and exit then share the EMA50 line.
#[derive(Debug, Clone, Copy, PartialEq)]
pub struct StrategyParams<S> {
    /// ATR multiples price must sit *above* EMA50 to enter.
    pub entry_buffer_atr: S,
    /// ATR multiples price must fall *below* EMA50 to exit.
    pub exit_buffer_atr: S,
    /// Chandelier trailing stop, in ATR multiples below the highest high since
    /// entry. Zero turns it off and keeps the fixed target.
    pub trailing_stop_atr: S,
    /// Lower bound of the daily RSI(14) entry band.
    pub rsi_min: S,
    /// Upper bound of the daily RSI(14) entry band.
    pub rsi_max: S,
    /// Whether MACD must have *crossed* recently, rather than merely sit above
    /// its signal line.
    pub macd_require_cross: bool,
    /// How many four-hour bars back the cross may have happened. Ignored where
    /// no cross is required.
    pub macd_lookback_bars: usize,
}

pub open spec fn default_rsi_min<S: Number>() -> S {
    S::of_ratio(35, 1)
}

pub open spec fn default_rsi_max<S: Number>() -> S {
    S::of_ratio(55, 1)
}

pub open spec fn default_params<S: Number>() -> StrategyParams<S> {
    StrategyParams {
        entry_buffer_atr: zero::<S>(),
        exit_buffer_atr: zero::<S>(),
        trailing_stop_atr: zero::<S>(),
        rsi_min: default_rsi_min::<S>(),
        rsi_max: default_rsi_max::<S>(),
        macd_require_cross: true,
        macd_lookback_bars: DEFAULT_MACD_LOOKBACK_BARS,
    }
}

impl<S: Number> Default for StrategyParams<S> {
    fn default() -> (r: Self)
        ensures
            r == default_params::<S>(),
    {
        StrategyParams {
            entry_buffer_atr: S::ratio(0, 1),
            exit_buffer_atr: S::ratio(0, 1),
            trailing_stop_atr: S::ratio(0, 1),
            rsi_min: S::ratio(35, 1),
            rsi_max: S::ratio(55, 1),
            macd_require_cross: true,
            macd_lookback_bars: DEFAULT_MACD_LOOKBACK_BARS,
        }
    }
}

// ---------------------------------------------------------------------------
// Parameters from the environment
// ---------------------------------------------------------------------------

/// A buffer: a bounded number that is not negative, else zero.
pub open spec fn buffer_setting<S: Number>(env: Environment, key: Seq<char>) -> S {
    match env.number::<S>(key) {
        Some(v) => if v.is_bounded() && zero::<S>().le(v) {
            v
        } else {
            zero::<S>()
        },
        None => zero::<S>(),
    }
}

/// A bounded number, else `fallback`.
pub open spec fn bound_setting<S: Number>(env: Environment, key: Seq<char>, fallback: S) -> S {
    match env.number::<S>(key) {
        Some(v) => if v.is_bounded() {
            v
        } else {
            fallback
        },
        None => fallback,
    }
}

/// Only an explicit "false", "0" or "no" turns a switch off.
pub open spec fn switched_off(value: Seq<char>) -> bool {
    let plain = trimmed(value).map_values(|c: char| lowered(c));
    plain == "false"@ || plain == "0"@ || plain == "no"@
}

pub open spec fn lookback_setting(env: Environment) -> usize {
    match env.whole("MACD_LOOKBACK_BARS"@) {
        Some(v) => if 1 <= v <= MAX_MACD_LOOKBACK_BARS {
            v as usize
        } else {
            DEFAULT_MACD_LOOKBACK_BARS
        },
        None => DEFAULT_MACD_LOOKBACK_BARS,
    }
}

/// The parameters an environment sets. An inverted RSI band would block every
/// trade, so both of its bounds are then left at their defaults.
pub open spec fn params_from<S: Number>(env: Environment) -> StrategyParams<S> {
    let low = bound_setting(env, "RSI_MIN"@, default_rsi_min::<S>());
    let high = bound_setting(env, "RSI_MAX"@, default_rsi_max::<S>());
    StrategyParams {
        entry_buffer_atr: buffer_setting(env, "ENTRY_BUFFER_ATR"@),
        exit_buffer_atr: buffer_setting(env, "EXIT_BUFFER_ATR"@),
        trailing_stop_atr: buffer_setting(env, "TRAILING_STOP_ATR"@),
        rsi_min: if low.le(high) {
            low
        } else {
            default_rsi_min::<S>()
        },
        rsi_max: if low.le(high) {
            high
        } else {
            default_rsi_max::<S>()
        },
        macd_require_cross: match env.value("MACD_REQUIRE_CROSS"@) {
            Some(v) => !switched_off(v),
            None => true,
        },
        macd_lookback_bars: lookback_setting(env),
    }
}

fn read_buffer<S: Number>(env: &Environment, key: &str) -> (r: S)
    ensures
        r == buffer_setting::<S>(*env, key@),
{
    match env.get_number::<S>(key) {
        Some(v) => if v.is_finite() && S::ratio(0, 1).at_most(v) {
            v
        } else {
            S::ratio(0, 1)
        },
        None => S::ratio(0, 1),
    }
}

fn read_bound<S: Number>(env: &Environment, key: &str, fallback: S) -> (r: S)
    ensures
        r == bound_setting(*env, key@, fallback),
{
    match env.get_number::<S>(key) {
        Some(v) => if v.is_finite() {
            v
        } else {
            fallback
        },
        None => fallback,
    }
}

impl<S: Number> StrategyParams<S> {
    pub fn from_env(env: &Environment) -> (r: Self)
        ensures
            r == params_from::<S>(*env),
    {
        let low = read_bound(env, "RSI_MIN", S::ratio(35, 1));
        let high = read_bound(env, "RSI_MAX", S::ratio(55, 1));
        let (rsi_min, rsi_max) = if low.at_most(high) {
            (low, high)
        } else {
            (S::ratio(35, 1), S::ratio(55, 1))
        };
        let macd_require_cross = match env.get("MACD_REQUIRE_CROSS") {
            Some(v) => {
                let plain = lowercase(trim(v.as_str()).as_str());
                !(same_text(plain.as_str(), "false") || same_text(plain.as_str(), "0") || same_text(
                    plain.as_str(),
                    "no",
                ))
            },
            None => true,
        };
        let macd_lookback_bars: usize = match env.get_count("MACD_LOOKBACK_BARS") {
            Some(v) => if 1 <= v && v <= MAX_MACD_LOOKBACK_BARS as u64 {
                v as usize
            } else {
                DEFAULT_MACD_LOOKBACK_BARS
            },
            None => DEFAULT_MACD_LOOKBACK_BARS,
        };
        StrategyParams {
            entry_buffer_atr: read_buffer(env, "ENTRY_BUFFER_ATR"),
            exit_buffer_atr: read_buffer(env, "EXIT_BUFFER_ATR"),
            trailing_stop_atr: read_buffer(env, "TRAILING_STOP_ATR"),
            rsi_min,
            rsi_max,
            macd_require_cross,
            macd_lookback_bars,
        }
    }

    /// Price must clear this to enter.
    pub open spec fn entry_line(self, snap: IndicatorSnapshot<S>) -> S {
        snap.ema_50.sum(self.entry_buffer_atr.product(usable_atr(snap)))
    }

    /// Price must fall under this to exit.
    pub open spec fn exit_line(self, snap: IndicatorSnapshot<S>) -> S {
        snap.ema_50.difference(self.exit_buffer_atr.product(usable_atr(snap)))
    }

    /// Whether MACD momentum satisfies the entry gate.
    pub open spec fn momentum(self, snap: IndicatorSnapshot<S>) -> bool {
        snap.macd_above_signal && (self.macd_require_cross ==> match snap.macd_bars_since_cross {
            Some(bars) => bars <= self.macd_lookback_bars,
            None => false,
        })
    }

    fn entry_threshold(&self, snap: &IndicatorSnapshot<S>) -> (r: S)
        ensures
            r == self.entry_line(*snap),
    {
        snap.ema_50.plus(self.entry_buffer_atr.times(usable_atr_of(snap)))
    }

    fn exit_threshold(&self, snap: &IndicatorSnapshot<S>) -> (r: S)
        ensures
            r == self.exit_line(*snap),
    {
        snap.ema_50.minus(self.exit_buffer_atr.times(usable_atr_of(snap)))
    }

    /// In cross mode the line must be above its signal *and* have been below it
    /// within `macd_lookback_bars`. In state mode being above is enough.
    fn macd_bullish(&self, snap: &IndicatorSnapshot<S>) -> (r: bool)
        ensures
            r == self.momentum(*snap),
    {
        if !snap.macd_above_signal {
            return false;
        }
        if !self.macd_require_cross {
            return true;
        }
        match snap.macd_bars_since_cross {
            Some(bars) => bars <= self.macd_lookback_bars,
            None => false,
        }
    }
}

/// The ATR, zero where it is not computable: a missing value collapses to the
/// rule without a buffer rather than disabling the strategy.
pub open spec fn usable_atr<S: Number>(snap: IndicatorSnapshot<S>) -> S {
    if snap.atr_14.is_bounded() && zero::<S>().lt(snap.atr_14) {
        snap.atr_14
    } else {
        zero::<S>()
    }
}

fn usable_atr_of<S: Number>(snap: &IndicatorSnapshot<S>) -> (r: S)
    ensures
        r == usable_atr(*snap),
{
    if snap.atr_14.is_finite() && S::ratio(0, 1).below(snap.atr_14) {
        snap.atr_14
    } else {
        S::ratio(0, 1)
    }
}

// ---------------------------------------------------------------------------
// Indicators at the latest candle
// ---------------------------------------------------------------------------

pub open spec fn closes_of<S: Number>(candles: Seq<Candle<S>>) -> Seq<S> {
    candles.map_values(|c: Candle<S>| c.close)
}

pub open spec fn lows_of<S: Number>(candles: Seq<Candle<S>>) -> Seq<S> {
    candles.map_values(|c: Candle<S>| c.low)
}

pub open spec fn highs_of<S: Number>(candles: Seq<Candle<S>>) -> Seq<S> {
    candles.map_values(|c: Candle<S>| c.high)
}

/// Whether the line was at or below its signal at index `i`.
pub open spec fn was_below<S: Number>(line: Seq<S>, signal: Seq<S>, i: int) -> bool {
    !line[i].is_undefined() && !signal[i].is_undefined() && line[i].le(signal[i])
}

/// The least offset from `from` up to `to` at which the line was at or below its
/// signal, counted back from the last bar.
pub open spec fn bars_since_below<S: Number>(
    line: Seq<S>,
    signal: Seq<S>,
    from: nat,
    to: nat,
) -> Option<usize>
    decreases to + 1 - from,
{
    if from > to {
        None
    } else if was_below(line, signal, line.len() - 1 - from) {
        Some(from as usize)
    } else {
        bars_since_below(line, signal, from + 1, to)
    }
}

/// The snapshot of a history, where there is enough of it.
pub open spec fn indicators_of<S: Number>(
    daily: Seq<Candle<S>>,
    four_hour: Seq<Candle<S>>,
    current_price: S,
) -> Option<IndicatorSnapshot<S>> {
    let closes = closes_of(daily);
    let ema_50 = ema_series(closes, 50).last();
    let ema_200 = ema_series(closes, 200).last();
    let rsi_14 = rsi_series(closes, 14).last();
    let line = macd_line_of(closes_of(four_hour), 12, 26);
    let signal = signal_line_of(closes_of(four_hour), 12, 26, 9);
    if daily.len() < MIN_DAILY_CANDLES || four_hour.len() < MIN_FOUR_HOUR_CANDLES {
        None
    } else if ema_50.is_undefined() || ema_200.is_undefined() || rsi_14.is_undefined()
        || line.last().is_undefined() || signal.last().is_undefined() {
        None
    } else {
        Some(
            IndicatorSnapshot {
                ema_50,
                ema_200,
                rsi_14,
                macd_histogram: differences(line, signal).last(),
                macd_above_signal: signal.last().lt(line.last()),
                macd_bars_since_cross: bars_since_below(
                    line,
                    signal,
                    1,
                    MAX_MACD_LOOKBACK_BARS as nat,
                ),
                current_price,
                swing_low: nearest_swing_low(lows_of(daily), 3)->0,
                atr_14: atr_series(highs_of(daily), lows_of(daily), closes, 14).last(),
            },
        )
    }
}

fn closes_vec<S: Number>(candles: &[Candle<S>]) -> (r: Vec<S>)
    ensures
        r@ == closes_of(candles@),
{
    let mut out: Vec<S> = Vec::new();
    let mut i: usize = 0;
    while i < candles.len()
        invariant
            i <= candles@.len(),
            out@ == closes_of(candles@).take(i as int),
        decreases candles@.len() - i,
    {
        out.push(candles[i].close);
        i = i + 1;
        assert(out@ =~= closes_of(candles@).take(i as int));
    }
    assert(out@ =~= closes_of(candles@));
    out
}

fn lows_vec<S: Number>(candles: &[Candle<S>]) -> (r: Vec<S>)
    ensures
        r@ == lows_of(candles@),
{
    let mut out: Vec<S> = Vec::new();
    let mut i: usize = 0;
    while i < candles.len()
        invariant
            i <= candles@.len(),
            out@ == lows_of(candles@).take(i as int),
        decreases candles@.len() - i,
    {
        out.push(candles[i].low);
        i = i + 1;
        assert(out@ =~= lows_of(candles@).take(i as int));
    }
    assert(out@ =~= lows_of(candles@));
    out
}

fn highs_vec<S: Number>(candles: &[Candle<S>]) -> (r: Vec<S>)
    ensures
        r@ == highs_of(candles@),
{
    let mut out: Vec<S> = Vec::new();
    let mut i: usize = 0;
    while i < candles.len()
        invariant
            i <= candles@.len(),
            out@ == highs_of(candles@).take(i as int),
        decreases candles@.len() - i,
    {
        out.push(candles[i].high);
        i = i + 1;
        assert(out@ =~= highs_of(candles@).take(i as int));
    }
    assert(out@ =~= highs_of(candles@));
    out
}

/// Computes all indicators from daily and four-hour candles.
///
/// `None` where there is not enough data: 200 daily candles and 35 four-hour
/// ones are needed, and every average over them must be defined. A missing ATR
/// is not fatal: the buffers then fall back to the bare EMA50.
pub fn compute_indicators<S: Number>(
    daily_candles: &[Candle<S>],
    four_hour_candles: &[Candle<S>],
    current_price: S,
) -> (r: Option<IndicatorSnapshot<S>>)
    ensures
        r == indicators_of(daily_candles@, four_hour_candles@, current_price),
{
    if daily_candles.len() < MIN_DAILY_CANDLES || four_hour_candles.len() < MIN_FOUR_HOUR_CANDLES {
        return None;
    }
    let daily_closes: Vec<S> = closes_vec(daily_candles);
    let daily_lows: Vec<S> = lows_vec(daily_candles);
    let daily_highs: Vec<S> = highs_vec(daily_candles);
    let four_hour_closes: Vec<S> = closes_vec(four_hour_candles);
    let days: usize = daily_closes.len();

    let ema_50_series = ema(daily_closes.as_slice(), 50);
    let ema_200_series = ema(daily_closes.as_slice(), 200);
    let ema_50 = ema_50_series[days - 1];
    let ema_200 = ema_200_series[days - 1];
    if ema_50.is_nan() || ema_200.is_nan() {
        return None;
    }
    let rsi_series = rsi(daily_closes.as_slice(), 14);
    let rsi_14 = rsi_series[days - 1];
    if rsi_14.is_nan() {
        return None;
    }
    let result = macd(four_hour_closes.as_slice(), 12, 26, 9);
    let n: usize = result.macd_line.len();
    let macd_line = result.macd_line[n - 1];
    let macd_signal = result.signal_line[n - 1];
    let macd_histogram = result.histogram[n - 1];
    if macd_line.is_nan() || macd_signal.is_nan() {
        return None;
    }
    let macd_above_signal = macd_signal.below(macd_line);

    let mut macd_bars_since_cross: Option<usize> = None;
    let mut offset: usize = 1;
    while offset <= MAX_MACD_LOOKBACK_BARS && macd_bars_since_cross.is_none()
        invariant
            1 <= offset <= MAX_MACD_LOOKBACK_BARS + 1,
            n == result.macd_line@.len(),
            n == result.signal_line@.len(),
            n >= MIN_FOUR_HOUR_CANDLES,
            macd_bars_since_cross is Some ==> macd_bars_since_cross == bars_since_below(
                result.macd_line@,
                result.signal_line@,
                1,
                MAX_MACD_LOOKBACK_BARS as nat,
            ),
            macd_bars_since_cross is None ==> bars_since_below(
                result.macd_line@,
                result.signal_line@,
                1,
                MAX_MACD_LOOKBACK_BARS as nat,
            ) == bars_since_below(
                result.macd_line@,
                result.signal_line@,
                offset as nat,
                MAX_MACD_LOOKBACK_BARS as nat,
            ),
        decreases MAX_MACD_LOOKBACK_BARS + 1 - offset,
    {
        let i: usize = n - 1 - offset;
        let prev_m = result.macd_line[i];
        let prev_s = result.signal_line[i];
        if !prev_m.is_nan() && !prev_s.is_nan() && prev_m.at_most(prev_s) {
            macd_bars_since_cross = Some(offset);
        }
        offset = offset + 1;
    }
    proof {
        law_swing_low(daily_lows@, 3);
    }
    let swing_low = find_nearest_swing_low(daily_lows.as_slice(), 3).unwrap();
    let atr_series = atr(
        daily_highs.as_slice(),
        daily_lows.as_slice(),
        daily_closes.as_slice(),
        14,
    );
    let atr_14 = atr_series[days - 1];
    Some(
        IndicatorSnapshot {
            ema_50,
            ema_200,
            rsi_14,
            macd_histogram,
            macd_above_signal,
            macd_bars_since_cross,
            current_price,
            swing_low,
            atr_14,
        },
    )
}

// ---------------------------------------------------------------------------
// Entry conditions
// ---------------------------------------------------------------------------

/// The four conditions a BUY requires, evaluated independently.
///
/// Single source of truth: [`evaluate`] decides from this, the backtest counts
/// from it, and notifications render it.
#[derive(Debug, Clone, Copy, PartialEq, Eq, Structural)]
pub struct EntryConditions {
    /// Price above EMA50 by the entry buffer, and EMA50 above EMA200.
    pub trend_bullish: bool,
    /// Daily RSI(14) inside the configured band.
    pub rsi_ok: bool,
    /// MACD momentum is bullish: a recent cross, or merely the line above its
    /// signal, as configured.
    pub macd_crossed: bool,
    /// A swing low exists below price, so risk is measurable.
    pub stop_valid: bool,
}

/// How far the stop sits below the price.
pub open spec fn stop_distance<S: Number>(snap: IndicatorSnapshot<S>) -> S {
    snap.current_price.difference(snap.swing_low)
}

pub open spec fn conditions_of<S: Number>(
    snap: IndicatorSnapshot<S>,
    params: StrategyParams<S>,
) -> EntryConditions {
    EntryConditions {
        trend_bullish: params.entry_line(snap).lt(snap.current_price) && snap.ema_200.lt(
            snap.ema_50,
        ),
        rsi_ok: params.rsi_min.le(snap.rsi_14) && snap.rsi_14.le(params.rsi_max),
        macd_crossed: params.momentum(snap),
        stop_valid: zero::<S>().lt(stop_distance(snap)),
    }
}

impl EntryConditions {
    pub open spec fn met(self) -> bool {
        self.trend_bullish && self.rsi_ok && self.macd_crossed && self.stop_valid
    }

    pub open spec fn flags(self) -> Seq<bool> {
        seq![self.trend_bullish, self.rsi_ok, self.macd_crossed, self.stop_valid]
    }

    /// How many of the conditions hold.
    pub open spec fn count(self) -> nat {
        self.flags().filter(|met: bool| met).len()
    }

    pub fn evaluate<S: Number>(snap: &IndicatorSnapshot<S>, params: &StrategyParams<S>) -> (r: Self)
        ensures
            r == conditions_of(*snap, *params),
    {
        EntryConditions {
            trend_bullish: params.entry_threshold(snap).below(snap.current_price)
                && snap.ema_200.below(snap.ema_50),
            rsi_ok: params.rsi_min.at_most(snap.rsi_14) && snap.rsi_14.at_most(params.rsi_max),
            macd_crossed: params.macd_bullish(snap),
            stop_valid: S::ratio(0, 1).below(snap.current_price.minus(snap.swing_low)),
        }
    }

    /// Every condition holds, so a BUY is taken.
    pub fn all_met(&self) -> (r: bool)
        ensures
            r == self.met(),
            r <==> self.count() == 4,
    {
        proof {
            self.lemma_count();
        }
        self.trend_bullish && self.rsi_ok && self.macd_crossed && self.stop_valid
    }

    pub fn met_count(&self) -> (r: usize)
        ensures
            r == self.count(),
    {
        proof {
            self.lemma_count();
        }
        let mut n: usize = 0;
        if self.trend_bullish {
            n = n + 1;
        }
        if self.rsi_ok {
            n = n + 1;
        }
        if self.macd_crossed {
            n = n + 1;
        }
        if self.stop_valid {
            n = n + 1;
        }
        n
    }

    /// `(label, met)` per condition, in evaluation order.
    pub fn checklist(&self) -> (r: [(&'static str, bool); 4])
        ensures
            r[0].0@ == "Trend  price > EMA50 > EMA200"@,
            r[1].0@ == "RSI    within band"@,
            r[2].0@ == "MACD   bullish momentum"@,
            r[3].0@ == "Stop   swing low below price"@,
            r@.map_values(|row: (&'static str, bool)| row.1) == self.flags(),
    {
        let rows: [(&'static str, bool); 4] = [
            ("Trend  price > EMA50 > EMA200", self.trend_bullish),
            ("RSI    within band", self.rsi_ok),
            ("MACD   bullish momentum", self.macd_crossed),
            ("Stop   swing low below price", self.stop_valid),
        ];
        assert(rows@.map_values(|row: (&'static str, bool)| row.1) =~= self.flags());
        rows
    }

    proof fn lemma_count(self)
        ensures
            self.count() == (if self.trend_bullish {
                1int
            } else {
                0
            }) + (if self.rsi_ok {
                1int
            } else {
                0
            }) + (if self.macd_crossed {
                1int
            } else {
                0
            }) + (if self.stop_valid {
                1int
            } else {
                0
            }),
    {
        reveal_with_fuel(Seq::filter, 5);
        let f = self.flags();
        assert(f.drop_last() =~= seq![self.trend_bullish, self.rsi_ok, self.macd_crossed]);
        assert(f.drop_last().drop_last() =~= seq![self.trend_bullish, self.rsi_ok]);
        assert(f.drop_last().drop_last().drop_last() =~= seq![self.trend_bullish]);
        assert(f.drop_last().drop_last().drop_last().drop_last() =~= seq![]);
    }
}

// ---------------------------------------------------------------------------
// The signal
// ---------------------------------------------------------------------------

/// Price fell under the exit line.
pub open spec fn trend_broken<S: Number>(
    snap: IndicatorSnapshot<S>,
    params: StrategyParams<S>,
) -> bool {
    snap.current_price.lt(params.exit_line(snap))
}

/// RSI above 70 while the MACD histogram is negative.
pub open spec fn overbought<S: Number>(snap: IndicatorSnapshot<S>) -> bool {
    S::of_ratio(70, 1).lt(snap.rsi_14) && snap.macd_histogram.lt(zero::<S>())
}

/// What the rules say: BUY where every entry condition holds, else SELL where
/// the trend broke or an overbought market reverses, else HOLD.
pub open spec fn decision<S: Number>(
    snap: IndicatorSnapshot<S>,
    params: StrategyParams<S>,
) -> Signal {
    if conditions_of(snap, params).met() {
        Signal::Buy
    } else if trend_broken(snap, params) || overbought(snap) {
        Signal::Sell
    } else {
        Signal::Hold
    }
}

/// The target: twice the stop distance above the price.
pub open spec fn target_of<S: Number>(snap: IndicatorSnapshot<S>) -> S {
    snap.current_price.sum(S::of_ratio(2, 1).product(stop_distance(snap)))
}

/// Reward over risk, zero where there is no stop distance.
pub open spec fn reward_to_risk<S: Number>(snap: IndicatorSnapshot<S>) -> S {
    if zero::<S>().lt(stop_distance(snap)) {
        target_of(snap).difference(snap.current_price).quotient(stop_distance(snap))
    } else {
        zero::<S>()
    }
}

/// The stop distance in percent of the price.
pub open spec fn stop_percent<S: Number>(snap: IndicatorSnapshot<S>) -> S {
    if zero::<S>().lt(snap.current_price) {
        stop_distance(snap).quotient(snap.current_price).product(S::of_ratio(100, 1))
    } else {
        zero::<S>()
    }
}

pub open spec fn is_tight<S: Number>(snap: IndicatorSnapshot<S>) -> bool {
    zero::<S>().lt(stop_percent(snap)) && stop_percent(snap).lt(S::of_ratio(5, 10))
}

pub open spec fn is_wide<S: Number>(snap: IndicatorSnapshot<S>) -> bool {
    S::of_ratio(10, 1).lt(stop_percent(snap))
}

/// The warnings about extreme stop distances.
pub open spec fn warnings_of<S: Number>(snap: IndicatorSnapshot<S>) -> Seq<Seq<char>> {
    let tight = if is_tight(snap) {
        seq!["Stop-loss very tight (<0.5%), risk of noise stop-out"@]
    } else {
        seq![]
    };
    if is_wide(snap) {
        tight.push("Stop-loss very wide (>10%), large risk per trade"@)
    } else {
        tight
    }
}

pub open spec fn confidence_of<S: Number>(
    snap: IndicatorSnapshot<S>,
    params: StrategyParams<S>,
) -> Seq<char> {
    match decision(snap, params) {
        Signal::Buy => if snap.rsi_14.lt(S::of_ratio(45, 1)) && stop_percent(snap).lt(
            S::of_ratio(5, 1),
        ) {
            "HIGH"@
        } else {
            "MEDIUM"@
        },
        Signal::Sell => "MEDIUM"@,
        _ => "LOW"@,
    }
}

pub open spec fn trend_reason<S: Number>(
    snap: IndicatorSnapshot<S>,
    params: StrategyParams<S>,
) -> Seq<char> {
    if conditions_of(snap, params).trend_bullish {
        "Trend bullish: price "@ + snap.current_price.fixed(2) + " > EMA50 "@ + snap.ema_50.fixed(2)
            + " > EMA200 "@ + snap.ema_200.fixed(2)
    } else {
        "Trend not bullish: price "@ + snap.current_price.fixed(2) + ", EMA50 "@
            + snap.ema_50.fixed(2) + ", EMA200 "@ + snap.ema_200.fixed(2)
    }
}

pub open spec fn rsi_reason<S: Number>(
    snap: IndicatorSnapshot<S>,
    params: StrategyParams<S>,
) -> Seq<char> {
    "RSI(14) = "@ + snap.rsi_14.fixed(1) + (if conditions_of(snap, params).rsi_ok {
        " (in buy zone "@
    } else {
        " (outside buy zone "@
    }) + params.rsi_min.fixed(0) + "–"@ + params.rsi_max.fixed(0) + ")"@
}

pub open spec fn macd_reason<S: Number>(
    snap: IndicatorSnapshot<S>,
    params: StrategyParams<S>,
) -> Seq<char> {
    if conditions_of(snap, params).macd_crossed {
        match snap.macd_bars_since_cross {
            Some(bars) => "MACD crossed bullish "@ + decimal(bars as nat) + " candle(s) ago"@,
            None => "MACD above signal (established leg)"@,
        }
    } else if snap.macd_above_signal {
        "MACD above signal but no recent crossover"@
    } else {
        "MACD bearish"@
    }
}

pub open spec fn break_reason<S: Number>(snap: IndicatorSnapshot<S>) -> Seq<char> {
    "Price "@ + snap.current_price.fixed(2) + " below EMA50 "@ + snap.ema_50.fixed(2)
        + " — downtrend"@
}

pub open spec fn reversal_reason<S: Number>(snap: IndicatorSnapshot<S>) -> Seq<char> {
    "RSI "@ + snap.rsi_14.fixed(1) + " > 70 and MACD histogram negative — overbought reversal"@
}

/// Why a SELL is due, one reason per rule that asks for it.
pub open spec fn sell_reasons<S: Number>(
    snap: IndicatorSnapshot<S>,
    params: StrategyParams<S>,
) -> Seq<Seq<char>> {
    let broken = if trend_broken(snap, params) {
        seq![break_reason(snap)]
    } else {
        seq![]
    };
    if overbought(snap) {
        broken.push(reversal_reason(snap))
    } else {
        broken
    }
}

pub open spec fn reasoning_of<S: Number>(
    snap: IndicatorSnapshot<S>,
    params: StrategyParams<S>,
) -> Seq<char> {
    if decision(snap, params) == Signal::Sell {
        joined(sell_reasons(snap, params), ". "@)
    } else {
        joined(
            seq![trend_reason(snap, params), rsi_reason(snap, params), macd_reason(snap, params)],
            ". "@,
        )
    }
}

fn trend_text<S: Number>(snap: &IndicatorSnapshot<S>, params: &StrategyParams<S>, bullish: bool) -> (r:
    String)
    requires
        bullish == conditions_of(*snap, *params).trend_bullish,
    ensures
        r@ == trend_reason(*snap, *params),
{
    let price = snap.current_price.to_fixed(2);
    let fast = snap.ema_50.to_fixed(2);
    let slow = snap.ema_200.to_fixed(2);
    if bullish {
        let mut text = "Trend bullish: price ".to_owned();
        text.append(price.as_str());
        text.append(" > EMA50 ");
        text.append(fast.as_str());
        text.append(" > EMA200 ");
        text.append(slow.as_str());
        text
    } else {
        let mut text = "Trend not bullish: price ".to_owned();
        text.append(price.as_str());
        text.append(", EMA50 ");
        text.append(fast.as_str());
        text.append(", EMA200 ");
        text.append(slow.as_str());
        text
    }
}

fn rsi_text<S: Number>(snap: &IndicatorSnapshot<S>, params: &StrategyParams<S>, inside: bool) -> (r:
    String)
    requires
        inside == conditions_of(*snap, *params).rsi_ok,
    ensures
        r@ == rsi_reason(*snap, *params),
{
    let mut text = "RSI(14) = ".to_owned();
    text.append(snap.rsi_14.to_fixed(1).as_str());
    if inside {
        text.append(" (in buy zone ");
    } else {
        text.append(" (outside buy zone ");
    }
    text.append(params.rsi_min.to_fixed(0).as_str());
    text.append("–");
    text.append(params.rsi_max.to_fixed(0).as_str());
    text.append(")");
    text
}

fn macd_text<S: Number>(snap: &IndicatorSnapshot<S>, params: &StrategyParams<S>, crossed: bool) -> (r:
    String)
    requires
        crossed == conditions_of(*snap, *params).macd_crossed,
    ensures
        r@ == macd_reason(*snap, *params),
{
    if crossed {
        match snap.macd_bars_since_cross {
            Some(bars) => {
                let mut text = "MACD crossed bullish ".to_owned();
                text.append(text_of_count(bars as u64).as_str());
                text.append(" candle(s) ago");
                text
            },
            None => "MACD above signal (established leg)".to_owned(),
        }
    } else if snap.macd_above_signal {
        "MACD above signal but no recent crossover".to_owned()
    } else {
        "MACD bearish".to_owned()
    }
}

fn warning_texts<S: Number>(snap: &IndicatorSnapshot<S>, stop_pct: S) -> (r: Vec<String>)
    requires
        stop_pct == stop_percent(*snap),
    ensures
        texts(r@) == warnings_of(*snap),
{
    let mut warnings: Vec<String> = Vec::new();
    if S::ratio(0, 1).below(stop_pct) && stop_pct.below(S::ratio(5, 10)) {
        warnings.push("Stop-loss very tight (<0.5%), risk of noise stop-out".to_owned());
    }
    let ghost before = warnings@;
    if S::ratio(10, 1).below(stop_pct) {
        let warning = "Stop-loss very wide (>10%), large risk per trade".to_owned();
        proof {
            lemma_texts_push(warnings@, warning);
        }
        warnings.push(warning);
    }
    assert(texts(before) =~= if is_tight(*snap) {
        seq!["Stop-loss very tight (<0.5%), risk of noise stop-out"@]
    } else {
        seq![]
    });
    warnings
}

fn sell_text<S: Number>(snap: &IndicatorSnapshot<S>, params: &StrategyParams<S>, broken: bool, reversed: bool) -> (r:
    String)
    requires
        broken == trend_broken(*snap, *params),
        reversed == overbought(*snap),
    ensures
        r@ == joined(sell_reasons(*snap, *params), ". "@),
{
    let mut reasons: Vec<String> = Vec::new();
    if broken {
        let mut text = "Price ".to_owned();
        text.append(snap.current_price.to_fixed(2).as_str());
        text.append(" below EMA50 ");
        text.append(snap.ema_50.to_fixed(2).as_str());
        text.append(" — downtrend");
        reasons.push(text);
    }
    assert(texts(reasons@) =~= if trend_broken(*snap, *params) {
        seq![break_reason(*snap)]
    } else {
        seq![]
    });
    if reversed {
        let mut text = "RSI ".to_owned();
        text.append(snap.rsi_14.to_fixed(1).as_str());
        text.append(" > 70 and MACD histogram negative — overbought reversal");
        proof {
            lemma_texts_push(reasons@, text);
        }
        reasons.push(text);
    }
    join(&reasons, ". ")
}

impl<S: Number> TradeSignal<S> {
    /// Whether this is what the rules make of a snapshot, in numbers.
    pub open spec fn follows_from(
        self,
        snap: IndicatorSnapshot<S>,
        params: StrategyParams<S>,
    ) -> bool {
        &&& self.signal == decision(snap, params)
        &&& self.entry_price == snap.current_price
        &&& self.atr == snap.atr_14
        &&& if self.signal == Signal::Sell {
            &&& self.stop_loss == zero::<S>()
            &&& self.take_profit == zero::<S>()
            &&& self.risk_reward_ratio == zero::<S>()
        } else {
            &&& self.stop_loss == snap.swing_low
            &&& self.take_profit == target_of(snap)
            &&& self.risk_reward_ratio == reward_to_risk(snap)
        }
    }
}

/// Evaluates an indicator snapshot against the entry and exit rules.
pub fn evaluate<S: Number>(
    symbol: &str,
    snap: &IndicatorSnapshot<S>,
    params: &StrategyParams<S>,
) -> (r: TradeSignal<S>)
    ensures
        r.asset@ == symbol@,
        r.signal == decision(*snap, *params),
        r.confidence@ == confidence_of(*snap, *params),
        r.entry_price == snap.current_price,
        r.signal == Signal::Sell ==> r.stop_loss == zero::<S>() && r.take_profit == zero::<S>()
            && r.risk_reward_ratio == zero::<S>(),
        r.signal != Signal::Sell ==> r.stop_loss == snap.swing_low && r.take_profit == target_of(
            *snap,
        ) && r.risk_reward_ratio == reward_to_risk(*snap),
        r.reasoning@ == reasoning_of(*snap, *params),
        texts(r.warnings@) == warnings_of(*snap),
        r.atr == snap.atr_14,
        r.follows_from(*snap, *params),
{
    let conditions = EntryConditions::evaluate(snap, params);

    let distance = snap.current_price.minus(snap.swing_low);
    let take_profit = snap.current_price.plus(S::ratio(2, 1).times(distance));
    let rr_ratio = if S::ratio(0, 1).below(distance) {
        take_profit.minus(snap.current_price).over(distance)
    } else {
        S::ratio(0, 1)
    };
    let stop_pct = if S::ratio(0, 1).below(snap.current_price) {
        distance.over(snap.current_price).times(S::ratio(100, 1))
    } else {
        S::ratio(0, 1)
    };
    let warnings = warning_texts(snap, stop_pct);
    let all_buy = conditions.all_met();
    let broken = snap.current_price.below(params.exit_threshold(snap));
    let reversed = S::ratio(70, 1).below(snap.rsi_14) && snap.macd_histogram.below(S::ratio(0, 1));

    if !all_buy && (broken || reversed) {
        return TradeSignal {
            asset: symbol.to_owned(),
            signal: Signal::Sell,
            confidence: "MEDIUM".to_owned(),
            entry_price: snap.current_price,
            stop_loss: S::ratio(0, 1),
            take_profit: S::ratio(0, 1),
            risk_reward_ratio: S::ratio(0, 1),
            reasoning: sell_text(snap, params, broken, reversed),
            warnings,
            atr: snap.atr_14,
        };
    }
    let mut reasons: Vec<String> = Vec::new();
    reasons.push(trend_text(snap, params, conditions.trend_bullish));
    reasons.push(rsi_text(snap, params, conditions.rsi_ok));
    reasons.push(macd_text(snap, params, conditions.macd_crossed));
    assert(texts(reasons@) =~= seq![
        trend_reason(*snap, *params),
        rsi_reason(*snap, *params),
        macd_reason(*snap, *params),
    ]);
    let confidence = if !all_buy {
        "LOW".to_owned()
    } else if snap.rsi_14.below(S::ratio(45, 1)) && stop_pct.below(S::ratio(5, 1)) {
        "HIGH".to_owned()
    } else {
        "MEDIUM".to_owned()
    };
    TradeSignal {
        asset: symbol.to_owned(),
        signal: if all_buy {
            Signal::Buy
        } else {
            Signal::Hold
        },
        confidence,
        entry_price: snap.current_price,
        stop_loss: snap.swing_low,
        take_profit,
        risk_reward_ratio: rr_ratio,
        reasoning: join(&reasons, ". "),
        warnings,
        atr: snap.atr_14,
    }
}

// ---------------------------------------------------------------------------
// Laws
// ---------------------------------------------------------------------------

/// A BUY is returned exactly where the checklist shows four of four, and a HALT
/// never.
pub proof fn law_buy_exactly_when_all_conditions_hold<S: Number>(
    snap: IndicatorSnapshot<S>,
    params: StrategyParams<S>,
)
    ensures
        decision(snap, params) == Signal::Buy <==> conditions_of(snap, params).met(),
        decision(snap, params) == Signal::Buy <==> conditions_of(snap, params).count() == 4,
        decision(snap, params) != Signal::Halt,
{
    conditions_of(snap, params).lemma_count();
}

/// With buffers that are not negative, no price clears the entry line and falls
/// under the exit line at once.
pub proof fn law_entry_and_exit_exclude_each_other<S: Lawful>(
    snap: IndicatorSnapshot<S>,
    params: StrategyParams<S>,
)
    requires
        zero::<S>().le(params.entry_buffer_atr),
        zero::<S>().le(params.exit_buffer_atr),
    ensures
        !(conditions_of(snap, params).trend_bullish && trend_broken(snap, params)),
{
    let atr = usable_atr(snap);
    lemma_zero::<S>();
    if zero::<S>().lt(snap.atr_14) {
        lemma_ordered(zero::<S>(), snap.atr_14);
    }
    if conditions_of(snap, params).trend_bullish && trend_broken(snap, params) {
        let above = params.entry_buffer_atr.product(atr);
        let below = params.exit_buffer_atr.product(atr);
        let price = snap.current_price;
        lemma_ordered(params.entry_line(snap), price);
        lemma_ordered(price, params.exit_line(snap));
        if above.is_undefined() {
            S::law_absorbs(snap.ema_50, above);
        }
        if below.is_undefined() {
            S::law_absorbs(snap.ema_50, below);
        }
        S::law_product(params.entry_buffer_atr, atr);
        S::law_product(params.exit_buffer_atr, atr);
        S::law_gain(snap.ema_50, above);
        S::law_loss(snap.ema_50, below);
        S::law_transitive(params.exit_line(snap), snap.ema_50, params.entry_line(snap));
        S::law_transitive(price, params.exit_line(snap), params.entry_line(snap));
        S::law_total(params.entry_line(snap), price);
    }
}

/// A price between the two lines neither buys nor counts as a broken trend: what
/// may still be sold there is an overbought reversal.
pub proof fn law_dead_zone<S: Number>(snap: IndicatorSnapshot<S>, params: StrategyParams<S>)
    requires
        !params.entry_line(snap).lt(snap.current_price),
        !snap.current_price.lt(params.exit_line(snap)),
    ensures
        decision(snap, params) != Signal::Buy,
        decision(snap, params) == Signal::Sell ==> overbought(snap),
{
}

/// On exact amounts, a missing ATR and zero buffers both leave the bare EMA50
/// line as the threshold for entry and for exit.
pub proof fn law_bare_threshold(snap: IndicatorSnapshot<Amount>, params: StrategyParams<Amount>)
    requires
        snap.ema_50 is Units,
        params.entry_buffer_atr is Units,
        params.exit_buffer_atr is Units,
        usable_atr(snap) == zero::<Amount>() || (params.entry_buffer_atr == zero::<Amount>()
            && params.exit_buffer_atr == zero::<Amount>()),
    ensures
        params.entry_line(snap) == snap.ema_50,
        params.exit_line(snap) == snap.ema_50,
{
    let atr = usable_atr(snap);
    let a = atr->0 as int;
    let e = params.entry_buffer_atr->0 as int;
    let x = params.exit_buffer_atr->0 as int;
    assert(e * 0 == 0 && x * 0 == 0 && 0 * a == 0) by (nonlinear_arith);
}

/// On exact amounts the reward-to-risk ratio is two wherever a stop distance
/// exists and the target can be computed.
pub proof fn law_reward_is_twice_the_risk(snap: IndicatorSnapshot<Amount>)
    requires
        zero::<Amount>().lt(stop_distance(snap)),
        target_of(snap) is Units,
    ensures
        reward_to_risk(snap) == Amount::of_ratio(2, 1),
        target_of(snap).difference(snap.current_price) == Amount::of_ratio(2, 1).product(
            stop_distance(snap),
        ),
{
    let d = stop_distance(snap)->0 as int;
    let scale = crate::amount::SCALE as int;
    assert(((2 * scale) * d) / scale == 2 * d) by (nonlinear_arith)
        requires
            scale == 100_000_000,
    ;
    assert((2 * d * scale) / d == 2 * scale) by (nonlinear_arith)
        requires
            d > 0,
            scale == 100_000_000,
    ;
    assert((2 * scale) * d == 2 * scale * d) by (nonlinear_arith);
}

/// Parameters read from any environment are usable: buffers are bounded and not
/// negative, the RSI band is bounded and not inverted, and the lookback is within what
/// is measured.
pub proof fn law_params_are_usable<S: Lawful>(env: Environment)
    ensures
        zero::<S>().le(params_from::<S>(env).entry_buffer_atr),
        zero::<S>().le(params_from::<S>(env).exit_buffer_atr),
        zero::<S>().le(params_from::<S>(env).trailing_stop_atr),
        params_from::<S>(env).entry_buffer_atr.is_bounded(),
        params_from::<S>(env).exit_buffer_atr.is_bounded(),
        params_from::<S>(env).trailing_stop_atr.is_bounded(),
        params_from::<S>(env).rsi_min.is_bounded(),
        params_from::<S>(env).rsi_max.is_bounded(),
        params_from::<S>(env).rsi_min.le(params_from::<S>(env).rsi_max),
        1 <= params_from::<S>(env).macd_lookback_bars <= MAX_MACD_LOOKBACK_BARS,
{
    lemma_zero::<S>();
    S::law_whole_is_bounded(0);
    S::law_whole_is_bounded(35);
    S::law_whole_is_bounded(55);
    S::law_whole(35, 55);
    lemma_ordered(default_rsi_min::<S>(), default_rsi_max::<S>());
}

/// An environment that sets nothing gives the default parameters.
pub proof fn law_unset_environment_gives_defaults<S: Lawful>(env: Environment)
    requires
        env.vars@.len() == 0,
    ensures
        params_from::<S>(env) == default_params::<S>(),
{
    S::law_whole(35, 55);
    lemma_ordered(default_rsi_min::<S>(), default_rsi_max::<S>());
}

/// Accepting the state in place of the cross only ever admits more, and never a
/// MACD below its signal.
pub proof fn law_state_mode_admits_more<S: Number>(
    snap: IndicatorSnapshot<S>,
    cross: StrategyParams<S>,
)
    ensures
        ({
            let state = StrategyParams { macd_require_cross: false, ..cross };
            &&& cross.momentum(snap) ==> state.momentum(snap)
            &&& state.momentum(snap) ==> snap.macd_above_signal
        }),
{
}

impl<S: Number> StrategyParams<S> {
    /// Whether every entry gate is at least as wide as that of `other`.
    pub open spec fn no_stricter_than(self, other: StrategyParams<S>) -> bool {
        &&& self.rsi_min.le(other.rsi_min)
        &&& other.rsi_max.le(self.rsi_max)
        &&& other.macd_lookback_bars <= self.macd_lookback_bars
        &&& self.entry_buffer_atr.le(other.entry_buffer_atr)
        &&& self.macd_require_cross ==> other.macd_require_cross
    }
}

impl EntryConditions {
    /// Whether each condition that holds here holds there too.
    pub open spec fn within(self, other: EntryConditions) -> bool {
        &&& self.trend_bullish ==> other.trend_bullish
        &&& self.rsi_ok ==> other.rsi_ok
        &&& self.macd_crossed ==> other.macd_crossed
        &&& self.stop_valid ==> other.stop_valid
    }
}

/// Looser parameters never turn an entry condition off, whatever the snapshot, and
/// no parameters accept a MACD below its signal. The one thing asked is that the
/// looser line above the EMA is a number where the trend counts as bullish: a
/// buffer far below zero can take it out of range.
pub proof fn law_looser_params_admit_more<S: Lawful>(
    snap: IndicatorSnapshot<S>,
    strict: StrategyParams<S>,
    loose: StrategyParams<S>,
)
    requires
        loose.no_stricter_than(strict),
        conditions_of(snap, strict).trend_bullish ==> !loose.entry_line(snap).is_undefined(),
    ensures
        conditions_of(snap, strict).within(conditions_of(snap, loose)),
        conditions_of(snap, strict).met() ==> conditions_of(snap, loose).met(),
        !snap.macd_above_signal ==> !conditions_of(snap, loose).macd_crossed,
{
    if conditions_of(snap, strict).rsi_ok {
        S::law_transitive(loose.rsi_min, strict.rsi_min, snap.rsi_14);
        S::law_transitive(snap.rsi_14, strict.rsi_max, loose.rsi_max);
    }
    if conditions_of(snap, strict).trend_bullish {
        let atr = usable_atr(snap);
        let near = loose.entry_buffer_atr.product(atr);
        let far = strict.entry_buffer_atr.product(atr);
        let price = snap.current_price;
        lemma_zero::<S>();
        if zero::<S>().lt(atr) {
            lemma_ordered(zero::<S>(), atr);
        }
        lemma_ordered(strict.entry_line(snap), price);
        if near.is_undefined() {
            S::law_absorbs(snap.ema_50, near);
        }
        if far.is_undefined() {
            S::law_absorbs(snap.ema_50, far);
        }
        S::law_product_order(loose.entry_buffer_atr, strict.entry_buffer_atr, atr);
        S::law_sum_order(near, far, snap.ema_50);
        S::law_total(loose.entry_line(snap), price);
        S::law_total(strict.entry_line(snap), price);
        if price.le(loose.entry_line(snap)) {
            S::law_transitive(price, loose.entry_line(snap), strict.entry_line(snap));
        }
    }
}

/// Of exact amounts and a buffer that is not negative, looser parameters never turn
/// an entry condition off.
pub proof fn law_looser_buffers_admit_more(
    snap: IndicatorSnapshot<Amount>,
    strict: StrategyParams<Amount>,
    loose: StrategyParams<Amount>,
)
    requires
        loose.no_stricter_than(strict),
        zero::<Amount>().le(loose.entry_buffer_atr),
    ensures
        conditions_of(snap, strict).within(conditions_of(snap, loose)),
{
    if conditions_of(snap, strict).trend_bullish {
        let atr = usable_atr(snap)->0 as int;
        let near = loose.entry_buffer_atr->0 as int;
        lemma_scaled_order(0, near, atr);
        lemma_scaled_order(near, strict.entry_buffer_atr->0 as int, atr);
        assert(0int * atr == 0) by (nonlinear_arith);
        assert(!loose.entry_line(snap).is_undefined());
    }
    law_looser_params_admit_more(snap, strict, loose);
}

/// What a snapshot's own figures say of the signal. It is a BUY exactly where the price
/// is above EMA50 by the entry buffer, EMA50 above EMA200, the RSI within its band, the
/// MACD above its signal and, where that is asked for, freshly so, and the swing low
/// below the price. Short of that it is a SELL exactly where the price is below EMA50 by
/// the exit buffer, or the RSI above 70 while the MACD histogram is below zero. Anything
/// else is a HOLD. An ATR that is not a positive number counts as zero in both buffers.
pub proof fn law_signal_follows_from_the_figures<S: Lawful>(
    snap: IndicatorSnapshot<S>,
    params: StrategyParams<S>,
    atr: S,
)
    requires
        snap.atr_14.is_bounded() && S::of_ratio(0, 1).lt(snap.atr_14) ==> atr == snap.atr_14,
        !(snap.atr_14.is_bounded() && S::of_ratio(0, 1).lt(snap.atr_14)) ==> atr == S::of_ratio(
            0,
            1,
        ),
    ensures
        ({
            let price = snap.current_price;
            let signal = decision(snap, params);
            let uptrend = snap.ema_50.sum(params.entry_buffer_atr.product(atr)).lt(price)
                && snap.ema_200.lt(snap.ema_50);
            let in_band = params.rsi_min.le(snap.rsi_14) && snap.rsi_14.le(params.rsi_max);
            let fresh = snap.macd_bars_since_cross matches Some(bars) && bars
                <= params.macd_lookback_bars;
            let momentum = snap.macd_above_signal && (fresh || !params.macd_require_cross);
            let room = S::of_ratio(0, 1).lt(price.difference(snap.swing_low));
            let downtrend = price.lt(
                snap.ema_50.difference(params.exit_buffer_atr.product(atr)),
            );
            let reversal = S::of_ratio(70, 1).lt(snap.rsi_14) && snap.macd_histogram.lt(
                S::of_ratio(0, 1),
            );
            let buys = uptrend && in_band && momentum && room;
            &&& signal == Signal::Buy <==> buys
            &&& signal == Signal::Sell <==> !buys && (downtrend || reversal)
            &&& signal == Signal::Hold <==> !buys && !downtrend && !reversal
            &&& conditions_of(snap, params).trend_bullish == uptrend
            &&& conditions_of(snap, params).rsi_ok == in_band
            &&& conditions_of(snap, params).macd_crossed == momentum
            &&& conditions_of(snap, params).stop_valid == room
            &&& !price.difference(snap.swing_low).is_undefined() ==> room == snap.swing_low.lt(
                price,
            )
        }),
{
    let gap = snap.current_price.difference(snap.swing_low);
    if !gap.is_undefined() {
        S::law_difference(snap.current_price, snap.swing_low);
    }
}

/// An overbought market that turns is sold: of a snapshot that does not buy, an RSI above
/// 70 with a MACD histogram below zero is a SELL whatever the price, and where the price
/// has not fallen below its line, a histogram at zero or above is a HOLD whatever the RSI.
pub proof fn law_an_overbought_reversal_sells<S: Lawful>(
    snap: IndicatorSnapshot<S>,
    params: StrategyParams<S>,
)
    requires
        decision(snap, params) != Signal::Buy,
    ensures
        S::of_ratio(70, 1).lt(snap.rsi_14) && snap.macd_histogram.lt(S::of_ratio(0, 1))
            ==> decision(snap, params) == Signal::Sell,
        S::of_ratio(0, 1).le(snap.macd_histogram) && S::of_ratio(0, 1).le(
            params.exit_buffer_atr,
        ) && snap.ema_50.le(snap.current_price) ==> decision(snap, params) == Signal::Hold,
        snap.rsi_14.le(S::of_ratio(70, 1)) && S::of_ratio(0, 1).le(params.exit_buffer_atr)
            && snap.ema_50.le(snap.current_price) ==> decision(snap, params) == Signal::Hold,
{
    let price = snap.current_price;
    let line = params.exit_line(snap);
    if S::of_ratio(0, 1).le(params.exit_buffer_atr) && snap.ema_50.le(price) {
        if price.lt(line) {
            let atr = usable_atr(snap);
            let below = params.exit_buffer_atr.product(atr);
            lemma_zero::<S>();
            if zero::<S>().lt(snap.atr_14) {
                lemma_ordered(zero::<S>(), snap.atr_14);
            }
            lemma_ordered(price, line);
            if below.is_undefined() {
                S::law_absorbs(snap.ema_50, below);
            }
            S::law_product(params.exit_buffer_atr, atr);
            S::law_loss(snap.ema_50, below);
            S::law_transitive(line, snap.ema_50, price);
            S::law_total(price, line);
        }
        if S::of_ratio(0, 1).le(snap.macd_histogram) {
            lemma_ordered(zero::<S>(), snap.macd_histogram);
            S::law_total(snap.macd_histogram, zero::<S>());
        }
        if snap.rsi_14.le(S::of_ratio(70, 1)) {
            lemma_ordered(snap.rsi_14, S::of_ratio(70, 1));
            S::law_total(S::of_ratio(70, 1), snap.rsi_14);
        }
    }
}

/// The snapshot at another price.
pub open spec fn priced_at<S>(snap: IndicatorSnapshot<S>, price: S) -> IndicatorSnapshot<S> {
    IndicatorSnapshot { current_price: price, ..snap }
}

proof fn lemma_below_still<S: Lawful>(low: S, price: S, high: S)
    requires
        low.lt(price),
        price.le(high),
    ensures
        low.lt(high),
{
    lemma_ordered(low, price);
    lemma_ordered(price, high);
    S::law_total(low, price);
    S::law_total(low, high);
    if high.le(low) {
        S::law_transitive(price, high, low);
    }
}

/// The price decides one way only: where nothing but the price differs, a price that
/// buys is joined by every higher one whose distance to the stop can be told, and a
/// price that breaks the trend by every lower one, which sells unless it buys.
pub proof fn law_price_moves_the_signal_one_way<S: Lawful>(
    snap: IndicatorSnapshot<S>,
    params: StrategyParams<S>,
    lower: S,
    higher: S,
)
    requires
        lower.le(higher),
        !higher.difference(snap.swing_low).is_undefined(),
    ensures
        decision(priced_at(snap, lower), params) == Signal::Buy ==> decision(
            priced_at(snap, higher),
            params,
        ) == Signal::Buy,
        decision(priced_at(snap, higher), params) == Signal::Sell && !overbought(snap)
            ==> decision(priced_at(snap, lower), params) == Signal::Sell,
{
    let low = priced_at(snap, lower);
    let high = priced_at(snap, higher);
    let gap = lower.difference(snap.swing_low);
    if decision(low, params) == Signal::Buy {
        lemma_below_still(params.entry_line(low), lower, higher);
        if gap.is_undefined() {
            S::law_undefined(zero::<S>(), gap);
        }
        S::law_difference(lower, snap.swing_low);
        lemma_below_still(snap.swing_low, lower, higher);
        S::law_difference(higher, snap.swing_low);
    }
    if decision(high, params) == Signal::Sell && !overbought(snap) {
        let line = params.exit_line(high);
        lemma_ordered(lower, higher);
        lemma_ordered(higher, line);
        S::law_total(higher, line);
        S::law_total(lower, line);
        if line.le(lower) {
            S::law_transitive(line, lower, higher);
        }
    }
}

/// The levels of a signal that does not sell: the stop is the swing low, the target as
/// far again above the price as twice the way down to the stop, and the ratio between
/// the two ways is told where there is a way down.
pub proof fn law_levels_of_a_signal<S: Number>(snap: IndicatorSnapshot<S>)
    ensures
        ({
            let price = snap.current_price;
            let risk = price.difference(snap.swing_low);
            let target = target_of(snap);
            &&& target == price.sum(S::of_ratio(2, 1).product(risk))
            &&& S::of_ratio(0, 1).lt(risk) ==> reward_to_risk(snap) == target.difference(
                price,
            ).quotient(risk)
            &&& !S::of_ratio(0, 1).lt(risk) ==> reward_to_risk(snap) == S::of_ratio(0, 1)
        }),
{
}

/// On exact amounts the target is twice as far above the price as the stop is below it.
pub proof fn law_target_is_twice_as_far_as_the_stop(snap: IndicatorSnapshot<Amount>)
    requires
        snap.current_price is Units,
        snap.swing_low is Units,
        target_of(snap) is Units,
    ensures
        target_of(snap)->0 - snap.current_price->0 == 2 * (snap.current_price->0
            - snap.swing_low->0),
{
    let d = snap.current_price->0 - snap.swing_low->0;
    let scale = crate::amount::SCALE as int;
    assert(((2 * scale) * d) / scale == 2 * d) by (nonlinear_arith)
        requires
            scale == 100_000_000,
    ;
}

/// How sure a signal is, and what is warned of, from the way down to the stop in percent
/// of the price: a BUY is of high confidence where the RSI is below 45 and the stop less
/// than five percent away, and of medium confidence otherwise; a SELL is of medium and a
/// HOLD of low confidence. A stop nearer than half a percent and one farther than ten
/// are warned of.
pub proof fn law_confidence_and_warnings<S: Number>(
    snap: IndicatorSnapshot<S>,
    params: StrategyParams<S>,
    percent: S,
)
    requires
        S::of_ratio(0, 1).lt(snap.current_price) ==> percent == snap.current_price.difference(
            snap.swing_low,
        ).quotient(snap.current_price).product(S::of_ratio(100, 1)),
        !S::of_ratio(0, 1).lt(snap.current_price) ==> percent == S::of_ratio(0, 1),
    ensures
        decision(snap, params) == Signal::Buy && snap.rsi_14.lt(S::of_ratio(45, 1)) && percent.lt(
            S::of_ratio(5, 1),
        ) ==> confidence_of(snap, params) == "HIGH"@,
        decision(snap, params) == Signal::Buy && !(snap.rsi_14.lt(S::of_ratio(45, 1))
            && percent.lt(S::of_ratio(5, 1))) ==> confidence_of(snap, params) == "MEDIUM"@,
        decision(snap, params) == Signal::Sell ==> confidence_of(snap, params) == "MEDIUM"@,
        decision(snap, params) == Signal::Hold ==> confidence_of(snap, params) == "LOW"@,
        ({
            let tight = S::of_ratio(0, 1).lt(percent) && percent.lt(S::of_ratio(5, 10));
            let wide = S::of_ratio(10, 1).lt(percent);
            let near = "Stop-loss very tight (<0.5%), risk of noise stop-out"@;
            let far = "Stop-loss very wide (>10%), large risk per trade"@;
            &&& tight && !wide ==> warnings_of(snap) == seq![near]
            &&& wide && !tight ==> warnings_of(snap) == seq![far]
            &&& tight && wide ==> warnings_of(snap) == seq![near, far]
            &&& !tight && !wide ==> warnings_of(snap).len() == 0
        }),
{
    let tight = S::of_ratio(0, 1).lt(percent) && percent.lt(S::of_ratio(5, 10));
    let wide = S::of_ratio(10, 1).lt(percent);
    if wide && !tight {
        assert(warnings_of(snap) =~= seq!["Stop-loss very wide (>10%), large risk per trade"@]);
    }
    if tight && wide {
        assert(warnings_of(snap) =~= seq![
            "Stop-loss very tight (<0.5%), risk of noise stop-out"@,
            "Stop-loss very wide (>10%), large risk per trade"@,
        ]);
    }
}

proof fn lemma_bars_since<S: Number>(line: Seq<S>, signal: Seq<S>, from: nat, to: nat)
    requires
        to <= usize::MAX,
    ensures
        match bars_since_below(line, signal, from, to) {
            Some(bars) => from <= bars <= to && was_below(line, signal, line.len() - 1 - bars)
                && forall|k: int|
                from <= k < bars ==> !#[trigger] was_below(line, signal, line.len() - 1 - k),
            None => forall|k: int|
                from <= k <= to ==> !#[trigger] was_below(line, signal, line.len() - 1 - k),
        },
    decreases to + 1 - from,
{
    if from <= to && !was_below(line, signal, line.len() - 1 - from) {
        lemma_bars_since(line, signal, from + 1, to);
    }
}

/// What a snapshot reports. The averages, the RSI, the ATR and the swing low are those of
/// the daily candles at the last of them; the MACD is that of the four-hour closes; and
/// the price is the one given. There is none where either series is too short, or where
/// an average over it is undefined.
pub proof fn law_a_snapshot_reports_the_latest<S: Number>(
    daily: Seq<Candle<S>>,
    four_hour: Seq<Candle<S>>,
    price: S,
)
    ensures
        ({
            let n = daily.len();
            let closes = Seq::new(n, |i: int| daily[i].close);
            let highs = Seq::new(n, |i: int| daily[i].high);
            let lows = Seq::new(n, |i: int| daily[i].low);
            let bars = Seq::new(four_hour.len(), |i: int| four_hour[i].close);
            let line = macd_line_of(bars, 12, 26);
            let signal = signal_line_of(bars, 12, 26, 9);
            let fast = ema_series(closes, 50)[n - 1];
            let slow = ema_series(closes, 200)[n - 1];
            let rsi = rsi_series(closes, 14)[n - 1];
            let m = four_hour.len() - 1;
            let snap = indicators_of(daily, four_hour, price);
            &&& snap is Some <==> n >= 200 && four_hour.len() >= 35 && !fast.is_undefined()
                && !slow.is_undefined() && !rsi.is_undefined() && !line[m].is_undefined()
                && !signal[m].is_undefined()
            &&& snap matches Some(s) ==> {
                &&& s.ema_50 == fast
                &&& s.ema_200 == slow
                &&& s.rsi_14 == rsi
                &&& s.atr_14 == atr_series(highs, lows, closes, 14)[n - 1]
                &&& Some(s.swing_low) == nearest_swing_low(lows, 3)
                &&& s.current_price == price
                &&& s.macd_histogram == line[m].difference(signal[m])
                &&& s.macd_above_signal == signal[m].lt(line[m])
                &&& s.macd_bars_since_cross matches Some(bars) ==> {
                    &&& 1 <= bars <= 12
                    &&& line[m - bars].le(signal[m - bars])
                    &&& forall|k: int|
                        1 <= k < bars ==> (#[trigger] line[m - k]).is_undefined()
                            || signal[m - k].is_undefined() || !line[m - k].le(signal[m - k])
                }
                &&& s.macd_bars_since_cross is None ==> forall|k: int|
                    1 <= k <= 12 ==> (#[trigger] line[m - k]).is_undefined()
                        || signal[m - k].is_undefined() || !line[m - k].le(signal[m - k])
            }
        }),
{
    let n = daily.len();
    let closes = Seq::new(n, |i: int| daily[i].close);
    let highs = Seq::new(n, |i: int| daily[i].high);
    let lows = Seq::new(n, |i: int| daily[i].low);
    let bars = Seq::new(four_hour.len(), |i: int| four_hour[i].close);
    assert(closes_of(daily) =~= closes);
    assert(highs_of(daily) =~= highs);
    assert(lows_of(daily) =~= lows);
    assert(closes_of(four_hour) =~= bars);
    let line = macd_line_of(bars, 12, 26);
    let signal = signal_line_of(bars, 12, 26, 9);
    if let Some(s) = indicators_of(daily, four_hour, price) {
        law_swing_low(lows, 3);
        lemma_bars_since(line, signal, 1, 12);
        let m = four_hour.len() - 1;
        assert(line.len() == four_hour.len());
        let end = match s.macd_bars_since_cross {
            Some(bars) => bars as int,
            None => 13,
        };
        assert forall|k: int| 1 <= k < end implies (#[trigger] line[m - k]).is_undefined()
            || signal[m - k].is_undefined() || !line[m - k].le(signal[m - k]) by {
            assert(!was_below(line, signal, line.len() - 1 - k));
        }
    }
}

/// A momentum that is above its signal is a histogram above zero, and the other way
/// round, wherever the histogram is a number.
pub proof fn law_momentum_and_histogram_agree<S: Lawful>(
    daily: Seq<Candle<S>>,
    four_hour: Seq<Candle<S>>,
    price: S,
)
    requires
        indicators_of(daily, four_hour, price) is Some,
        !indicators_of(daily, four_hour, price)->0.macd_histogram.is_undefined(),
    ensures
        indicators_of(daily, four_hour, price)->0.macd_above_signal <==> S::of_ratio(0, 1).lt(
            indicators_of(daily, four_hour, price)->0.macd_histogram,
        ),
{
    law_a_snapshot_reports_the_latest(daily, four_hour, price);
    let bars = Seq::new(four_hour.len(), |i: int| four_hour[i].close);
    let m = four_hour.len() - 1;
    S::law_difference(
        macd_line_of(bars, 12, 26)[m],
        signal_line_of(bars, 12, 26, 9)[m],
    );
}

/// A buffer that the environment sets to a bounded number not below zero is that number,
/// and zero otherwise; a bound of the RSI band that it sets to a bounded number is that
/// number, as long as the band is not turned round by it.
pub proof fn law_params_are_what_the_environment_sets<S: Number>(
    env: Environment,
    key: Seq<char>,
    value: S,
)
    requires
        env.value(key) is Some,
        S::reading(env.value(key)->0) == Some(value),
    ensures
        ({
            let params = params_from::<S>(env);
            let buffer = if value.is_bounded() && S::of_ratio(0, 1).le(value) {
                value
            } else {
                S::of_ratio(0, 1)
            };
            &&& key == "ENTRY_BUFFER_ATR"@ ==> params.entry_buffer_atr == buffer
            &&& key == "EXIT_BUFFER_ATR"@ ==> params.exit_buffer_atr == buffer
            &&& key == "TRAILING_STOP_ATR"@ ==> params.trailing_stop_atr == buffer
            &&& key == "RSI_MIN"@ && value.is_bounded() && env.value("RSI_MAX"@) is None
                && value.le(S::of_ratio(55, 1)) ==> params.rsi_min == value && params.rsi_max
                == S::of_ratio(55, 1)
            &&& key == "RSI_MAX"@ && value.is_bounded() && env.value("RSI_MIN"@) is None
                && S::of_ratio(35, 1).le(value) ==> params.rsi_max == value && params.rsi_min
                == S::of_ratio(35, 1)
        }),
{
}

/// The parameters that nothing sets: no buffers and no trailing stop, an RSI from 35 to
/// 55, and a MACD that has crossed within three bars.
pub proof fn law_default_params<S: Number>()
    ensures
        ({
            let params = default_params::<S>();
            &&& params.entry_buffer_atr == S::of_ratio(0, 1)
            &&& params.exit_buffer_atr == S::of_ratio(0, 1)
            &&& params.trailing_stop_atr == S::of_ratio(0, 1)
            &&& params.rsi_min == S::of_ratio(35, 1)
            &&& params.rsi_max == S::of_ratio(55, 1)
            &&& params.macd_require_cross
            &&& params.macd_lookback_bars == 3
        }),
{
}

/// The RSI band that the environment sets: each bound is what it is set to where that is a
/// bounded number, and 35 or 55 otherwise. A lower bound above the upper one leaves both
/// at 35 and 55, so the band is never the wrong way round.
pub proof fn law_the_band_is_the_right_way_round<S: Number>(env: Environment, low: S, high: S)
    requires
        (env.number::<S>("RSI_MIN"@) matches Some(v) && v.is_bounded() && low == v) || ((
        env.number::<S>("RSI_MIN"@) is None || !env.number::<S>("RSI_MIN"@)->0.is_bounded())
            && low == S::of_ratio(35, 1)),
        (env.number::<S>("RSI_MAX"@) matches Some(v) && v.is_bounded() && high == v) || ((
        env.number::<S>("RSI_MAX"@) is None || !env.number::<S>("RSI_MAX"@)->0.is_bounded())
            && high == S::of_ratio(55, 1)),
    ensures
        low.le(high) ==> params_from::<S>(env).rsi_min == low && params_from::<S>(env).rsi_max
            == high,
        !low.le(high) ==> params_from::<S>(env).rsi_min == S::of_ratio(35, 1) && params_from::<S>(
            env,
        ).rsi_max == S::of_ratio(55, 1),
{
}

/// How the environment sets the MACD rule: a recent cross is asked for unless it says false,
/// 0 or no, in whatever case and with blanks round it; and the cross may be as many bars
/// back as it says, from one to twelve, and three otherwise.
pub proof fn law_how_the_cross_is_set<S: Number>(env: Environment)
    ensures
        ({
            let params = params_from::<S>(env);
            let key = "MACD_REQUIRE_CROSS"@;
            &&& env.value(key) is None ==> params.macd_require_cross
            &&& env.value(key) matches Some(text) ==> ({
                let plain = trimmed(text).map_values(|c: char| lowered(c));
                !params.macd_require_cross <==> plain == "false"@ || plain == "0"@ || plain
                    == "no"@
            })
            &&& 1 <= params.macd_lookback_bars <= 12
            &&& env.whole("MACD_LOOKBACK_BARS"@) matches Some(n) ==> {
                &&& 1 <= n <= 12 ==> params.macd_lookback_bars == n
                &&& n == 0 || n > 12 ==> params.macd_lookback_bars == 3
            }
            &&& env.whole("MACD_LOOKBACK_BARS"@) is None ==> params.macd_lookback_bars == 3
        }),
{
}

/// A buffer that is not set, or is set to what is no number, is none.
pub proof fn law_buffers_that_are_not_set<S: Number>(env: Environment)
    ensures
        env.number::<S>("ENTRY_BUFFER_ATR"@) is None ==> params_from::<S>(env).entry_buffer_atr
            == S::of_ratio(0, 1),
        env.number::<S>("EXIT_BUFFER_ATR"@) is None ==> params_from::<S>(env).exit_buffer_atr
            == S::of_ratio(0, 1),
        env.number::<S>("TRAILING_STOP_ATR"@) is None ==> params_from::<S>(env).trailing_stop_atr
            == S::of_ratio(0, 1),
{
}

/// Conditions are listed in their order and counted one each; all are met where four are.
pub proof fn law_conditions_count_one_each(conditions: EntryConditions)
    ensures
        conditions.flags().len() == 4,
        conditions.flags()[0] == conditions.trend_bullish,
        conditions.flags()[1] == conditions.rsi_ok,
        conditions.flags()[2] == conditions.macd_crossed,
        conditions.flags()[3] == conditions.stop_valid,
        conditions.met() <==> conditions.count() == 4,
        conditions.count() == 0 <==> !conditions.trend_bullish && !conditions.rsi_ok
            && !conditions.macd_crossed && !conditions.stop_valid,
        !conditions.trend_bullish ==> (EntryConditions {
            trend_bullish: true,
            ..conditions
        }).count() == conditions.count() + 1,
        !conditions.rsi_ok ==> (EntryConditions { rsi_ok: true, ..conditions }).count()
            == conditions.count() + 1,
        !conditions.macd_crossed ==> (EntryConditions { macd_crossed: true, ..conditions }).count()
            == conditions.count() + 1,
        !conditions.stop_valid ==> (EntryConditions { stop_valid: true, ..conditions }).count()
            == conditions.count() + 1,
{
    conditions.lemma_count();
    (EntryConditions { trend_bullish: true, ..conditions }).lemma_count();
    (EntryConditions { rsi_ok: true, ..conditions }).lemma_count();
    (EntryConditions { macd_crossed: true, ..conditions }).lemma_count();
    (EntryConditions { stop_valid: true, ..conditions }).lemma_count();
}

/// Why a signal is given, in words. A SELL says which of its two rules asks for it, or both
/// of them. Anything else says how the trend, the RSI and the MACD stand.
pub proof fn law_reasons_in_words<S: Number>(snap: IndicatorSnapshot<S>, params: StrategyParams<S>)
    ensures
        ({
            let price = snap.current_price.fixed(2);
            let fast = snap.ema_50.fixed(2);
            let slow = snap.ema_200.fixed(2);
            let strength = snap.rsi_14.fixed(1);
            let broken = "Price "@ + price + " below EMA50 "@ + fast + " — downtrend"@;
            let reversed = "RSI "@ + strength
                + " > 70 and MACD histogram negative — overbought reversal"@;
            let conditions = conditions_of(snap, params);
            let sells = decision(snap, params) == Signal::Sell;
            let fell = trend_broken(snap, params);
            let turned = overbought(snap);
            let trend = if conditions.trend_bullish {
                "Trend bullish: price "@ + price + " > EMA50 "@ + fast + " > EMA200 "@ + slow
            } else {
                "Trend not bullish: price "@ + price + ", EMA50 "@ + fast + ", EMA200 "@ + slow
            };
            let zone = (if conditions.rsi_ok {
                " (in buy zone "@
            } else {
                " (outside buy zone "@
            });
            let rsi = "RSI(14) = "@ + strength + zone + params.rsi_min.fixed(0) + "–"@
                + params.rsi_max.fixed(0) + ")"@;
            let macd = if conditions.macd_crossed && snap.macd_bars_since_cross is Some {
                "MACD crossed bullish "@ + decimal(snap.macd_bars_since_cross->0 as nat)
                    + " candle(s) ago"@
            } else if conditions.macd_crossed {
                "MACD above signal (established leg)"@
            } else if snap.macd_above_signal {
                "MACD above signal but no recent crossover"@
            } else {
                "MACD bearish"@
            };
            &&& sells && fell && !turned ==> reasoning_of(snap, params) == broken
            &&& sells && !fell && turned ==> reasoning_of(snap, params) == reversed
            &&& sells && fell && turned ==> reasoning_of(snap, params) == broken + ". "@ + reversed
            &&& !sells ==> reasoning_of(snap, params) == trend + ". "@ + rsi + ". "@ + macd
        }),
{
    let gap = ". "@;
    let reasons = seq![
        trend_reason(snap, params),
        rsi_reason(snap, params),
        macd_reason(snap, params),
    ];
    assert(reasons.drop_last() =~= seq![trend_reason(snap, params), rsi_reason(snap, params)]);
    assert(reasons.drop_last().drop_last() =~= seq![trend_reason(snap, params)]);
    assert(joined(reasons.drop_last().drop_last(), gap) == trend_reason(snap, params));
    assert(joined(reasons.drop_last(), gap) == trend_reason(snap, params) + gap + rsi_reason(
        snap,
        params,
    ));
    let both = seq![break_reason(snap), reversal_reason(snap)];
    assert(both.drop_last() =~= seq![break_reason(snap)]);
    assert(joined(both.drop_last(), gap) == break_reason(snap));
    if trend_broken(snap, params) && overbought(snap) {
        assert(sell_reasons(snap, params) =~= both);
    }
    if !trend_broken(snap, params) && overbought(snap) {
        assert(sell_reasons(snap, params) =~= seq![reversal_reason(snap)]);
    }
}

/// The numbers of a signal: it is to be entered at the price, and unless it sells it is
/// stopped at the swing low and aims twice as far above the price. A SELL has no levels.
pub proof fn law_numbers_of_a_signal<S: Number>(
    signal: TradeSignal<S>,
    snap: IndicatorSnapshot<S>,
    params: StrategyParams<S>,
)
    requires
        signal.follows_from(snap, params),
    ensures
        signal.signal == decision(snap, params),
        signal.entry_price == snap.current_price,
        signal.atr == snap.atr_14,
        decision(snap, params) == Signal::Sell ==> signal.stop_loss == S::of_ratio(0, 1)
            && signal.take_profit == S::of_ratio(0, 1) && signal.risk_reward_ratio == S::of_ratio(
            0,
            1,
        ),
        decision(snap, params) != Signal::Sell ==> {
            let way = signal.entry_price.difference(signal.stop_loss);
            &&& signal.stop_loss == snap.swing_low
            &&& signal.take_profit == signal.entry_price.sum(S::of_ratio(2, 1).product(way))
            &&& S::of_ratio(0, 1).lt(way) ==> signal.risk_reward_ratio
                == signal.take_profit.difference(signal.entry_price).quotient(way)
            &&& !S::of_ratio(0, 1).lt(way) ==> signal.risk_reward_ratio == S::of_ratio(0, 1)
        },
{
}

} // verus!
