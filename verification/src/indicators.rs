//! Technical indicators over plain price series.
//!
//! Every series is aligned with its input: where there is not enough history
//! yet, the entry is undefined.

use vstd::prelude::*;
use crate::amount::{Amount, SCALE};
use crate::number::{
    larger, larger_of, law_larger_and_smaller, lemma_ordered, lemma_total_not_negative, lemma_zero,
    smaller, smaller_of, sum_range, total, zero, Lawful, Number,
};

verus! {

/// `n` undefined entries.
pub open spec fn undefined_series<S: Number>(n: nat) -> Seq<S> {
    Seq::new(n, |i: int| S::undefined())
}

fn undefined_vec<S: Number>(n: usize) -> (r: Vec<S>)
    ensures
        r@ == undefined_series::<S>(n as nat),
{
    let mut out: Vec<S> = Vec::new();
    let mut i: usize = 0;
    while i < n
        invariant
            i <= n,
            out@ == undefined_series::<S>(i as nat),
        decreases n - i,
    {
        out.push(S::nan());
        i = i + 1;
        assert(out@ =~= undefined_series::<S>(i as nat));
    }
    assert(out@ =~= undefined_series::<S>(n as nat));
    out
}

// ---------------------------------------------------------------------------
// EMA
// ---------------------------------------------------------------------------

/// The weight of the newest value in an EMA of `period`.
pub open spec fn ema_weight<S: Number>(period: nat) -> S {
    S::of_ratio(2, 1).quotient(S::of_ratio(period as int, 1).sum(S::of_ratio(1, 1)))
}

/// The EMA at index `i`: seeded with the mean of the first `period` values, then
/// each value weighed against the entry before it.
pub open spec fn ema_at<S: Number>(values: Seq<S>, period: nat, i: int) -> S
    decreases i,
{
    if i + 1 < period || period == 0 {
        S::undefined()
    } else if i + 1 == period {
        total(values.take(period as int)).quotient(S::of_ratio(period as int, 1))
    } else {
        values[i].product(ema_weight::<S>(period)).sum(
            ema_at(values, period, i - 1).product(
                S::of_ratio(1, 1).difference(ema_weight::<S>(period)),
            ),
        )
    }
}

pub open spec fn ema_series<S: Number>(values: Seq<S>, period: nat) -> Seq<S> {
    Seq::new(values.len(), |i: int| ema_at(values, period, i))
}

/// Exponential moving average over `values`.
///
/// The first `period - 1` entries are undefined, and the entry at `period - 1`
/// is seeded with the simple mean.
pub fn ema<S: Number>(values: &[S], period: usize) -> (r: Vec<S>)
    ensures
        r@ == ema_series(values@, period as nat),
{
    if values.len() < period || period == 0 {
        let out = undefined_vec(values.len());
        assert(out@ =~= ema_series(values@, period as nat));
        return out;
    }
    let mut out: Vec<S> = undefined_vec(period - 1);
    let seed = sum_range(values, 0, period).over(S::count(period as u64));
    assert(values@.subrange(0, period as int) =~= values@.take(period as int));
    out.push(seed);
    let mult = S::ratio(2, 1).over(S::count(period as u64).plus(S::ratio(1, 1)));
    let mut i: usize = period;
    assert(out@ =~= ema_series(values@, period as nat).take(period as int));
    while i < values.len()
        invariant
            0 < period <= i <= values@.len(),
            mult == ema_weight::<S>(period as nat),
            out@ == ema_series(values@, period as nat).take(i as int),
        decreases values@.len() - i,
    {
        let next = values[i].times(mult).plus(out[i - 1].times(S::ratio(1, 1).minus(mult)));
        out.push(next);
        i = i + 1;
        assert(out@ =~= ema_series(values@, period as nat).take(i as int));
    }
    assert(out@ =~= ema_series(values@, period as nat));
    out
}

// ---------------------------------------------------------------------------
// ATR
// ---------------------------------------------------------------------------

/// The widest of this bar's range, the gap up from the previous close and the
/// gap down from it.
pub open spec fn true_range<S: Number>(high: S, low: S, previous_close: S) -> S {
    larger_of(
        larger_of(high.difference(low), high.difference(previous_close).magnitude()),
        low.difference(previous_close).magnitude(),
    )
}

/// The true ranges of the bars `1..=n`.
pub open spec fn true_ranges<S: Number>(highs: Seq<S>, lows: Seq<S>, closes: Seq<S>, n: nat) -> Seq<
    S,
> {
    Seq::new(n, |k: int| true_range(highs[k + 1], lows[k + 1], closes[k]))
}

/// The ATR at index `i`: seeded with the mean of the first `period` true ranges,
/// then smoothed by Wilder's rule.
pub open spec fn atr_at<S: Number>(
    highs: Seq<S>,
    lows: Seq<S>,
    closes: Seq<S>,
    period: nat,
    i: int,
) -> S
    decreases i,
{
    if i < period || period == 0 {
        S::undefined()
    } else if i == period {
        total(true_ranges(highs, lows, closes, period)).quotient(S::of_ratio(period as int, 1))
    } else {
        atr_at(highs, lows, closes, period, i - 1).product(
            S::of_ratio(period as int, 1).difference(S::of_ratio(1, 1)),
        ).sum(true_range(highs[i], lows[i], closes[i - 1])).quotient(
            S::of_ratio(period as int, 1),
        )
    }
}

pub open spec fn atr_series<S: Number>(
    highs: Seq<S>,
    lows: Seq<S>,
    closes: Seq<S>,
    period: nat,
) -> Seq<S> {
    if highs.len() != closes.len() || lows.len() != closes.len() {
        undefined_series(closes.len())
    } else {
        Seq::new(closes.len(), |i: int| atr_at(highs, lows, closes, period, i))
    }
}

fn true_range_of<S: Number>(high: S, low: S, previous_close: S) -> (r: S)
    ensures
        r == true_range(high, low, previous_close),
{
    larger(
        larger(high.minus(low), high.minus(previous_close).abs()),
        low.minus(previous_close).abs(),
    )
}

/// Average True Range over `period`, with Wilder's smoothing.
///
/// Expresses "normal movement" in price units. The first `period` entries are
/// undefined, and so is everything where the three series differ in length.
pub fn atr<S: Number>(highs: &[S], lows: &[S], closes: &[S], period: usize) -> (r: Vec<S>)
    ensures
        r@ == atr_series(highs@, lows@, closes@, period as nat),
{
    let len: usize = closes.len();
    if period == 0 || len <= period || highs.len() != len || lows.len() != len {
        let out = undefined_vec(len);
        assert(out@ =~= atr_series(highs@, lows@, closes@, period as nat));
        return out;
    }
    let ghost series = atr_series(highs@, lows@, closes@, period as nat);
    let mut seed_sum = S::ratio(0, 1);
    let mut k: usize = 0;
    assert(true_ranges(highs@, lows@, closes@, 0) =~= Seq::empty());
    while k < period
        invariant
            k <= period < len,
            len == highs@.len(),
            len == lows@.len(),
            len == closes@.len(),
            seed_sum == total(true_ranges(highs@, lows@, closes@, k as nat)),
        decreases period - k,
    {
        seed_sum = seed_sum.plus(true_range_of(highs[k + 1], lows[k + 1], closes[k]));
        proof {
            let next = true_ranges(highs@, lows@, closes@, (k + 1) as nat);
            assert(next.drop_last() =~= true_ranges(highs@, lows@, closes@, k as nat));
        }
        k = k + 1;
    }
    let size = S::count(period as u64);
    let mut out: Vec<S> = undefined_vec(period);
    out.push(seed_sum.over(size));
    let mut i: usize = period + 1;
    assert(out@ =~= series.take(i as int));
    while i < len
        invariant
            0 < period < i <= len,
            len == highs@.len(),
            len == lows@.len(),
            len == closes@.len(),
            size == S::of_ratio(period as int, 1),
            series == atr_series(highs@, lows@, closes@, period as nat),
            out@ == series.take(i as int),
        decreases len - i,
    {
        let range = true_range_of(highs[i], lows[i], closes[i - 1]);
        let next = out[i - 1].times(size.minus(S::ratio(1, 1))).plus(range).over(size);
        out.push(next);
        i = i + 1;
        assert(out@ =~= series.take(i as int));
    }
    assert(out@ =~= series);
    out
}

// ---------------------------------------------------------------------------
// RSI
// ---------------------------------------------------------------------------

/// What the step from `before` to `after` gained, zero where it lost.
pub open spec fn gain<S: Number>(before: S, after: S) -> S {
    let change = after.difference(before);
    if zero::<S>().lt(change) {
        change
    } else {
        zero::<S>()
    }
}

/// What the step from `before` to `after` lost, zero where it gained.
pub open spec fn loss<S: Number>(before: S, after: S) -> S {
    let change = after.difference(before);
    if zero::<S>().lt(change) {
        zero::<S>()
    } else {
        change.negation()
    }
}

/// The gains of the first `n` steps.
pub open spec fn gains<S: Number>(closes: Seq<S>, n: nat) -> Seq<S> {
    Seq::new(n, |k: int| gain(closes[k], closes[k + 1]))
}

/// The losses of the first `n` steps.
pub open spec fn losses<S: Number>(closes: Seq<S>, n: nat) -> Seq<S> {
    Seq::new(n, |k: int| loss(closes[k], closes[k + 1]))
}

/// Wilder's smoothing: the average so far weighs `period - 1` times the newest.
pub open spec fn smoothed<S: Number>(average: S, newest: S, period: nat) -> S {
    average.product(S::of_ratio(period as int, 1).difference(S::of_ratio(1, 1))).sum(
        newest,
    ).quotient(S::of_ratio(period as int, 1))
}

pub open spec fn average_gain<S: Number>(closes: Seq<S>, period: nat, i: int) -> S
    decreases i,
{
    if i <= period {
        total(gains(closes, period)).quotient(S::of_ratio(period as int, 1))
    } else {
        smoothed(average_gain(closes, period, i - 1), gain(closes[i - 1], closes[i]), period)
    }
}

pub open spec fn average_loss<S: Number>(closes: Seq<S>, period: nat, i: int) -> S
    decreases i,
{
    if i <= period {
        total(losses(closes, period)).quotient(S::of_ratio(period as int, 1))
    } else {
        smoothed(average_loss(closes, period, i - 1), loss(closes[i - 1], closes[i]), period)
    }
}

/// The index from the two averages: 100 where nothing was lost.
pub open spec fn strength<S: Number>(average_gain: S, average_loss: S) -> S {
    if average_loss.same(zero::<S>()) {
        S::of_ratio(100, 1)
    } else {
        S::of_ratio(100, 1).difference(
            S::of_ratio(100, 1).quotient(
                S::of_ratio(1, 1).sum(average_gain.quotient(average_loss)),
            ),
        )
    }
}

pub open spec fn rsi_at<S: Number>(closes: Seq<S>, period: nat, i: int) -> S {
    if i < period {
        S::undefined()
    } else {
        strength(average_gain(closes, period, i), average_loss(closes, period, i))
    }
}

pub open spec fn rsi_series<S: Number>(closes: Seq<S>, period: nat) -> Seq<S> {
    Seq::new(closes.len(), |i: int| rsi_at(closes, period, i))
}

fn gain_of<S: Number>(before: S, after: S) -> (r: S)
    ensures
        r == gain(before, after),
{
    let change = after.minus(before);
    if S::ratio(0, 1).below(change) {
        change
    } else {
        S::ratio(0, 1)
    }
}

fn loss_of<S: Number>(before: S, after: S) -> (r: S)
    ensures
        r == loss(before, after),
{
    let change = after.minus(before);
    if S::ratio(0, 1).below(change) {
        S::ratio(0, 1)
    } else {
        change.neg()
    }
}

fn smooth<S: Number>(average: S, newest: S, period: usize) -> (r: S)
    ensures
        r == smoothed(average, newest, period as nat),
{
    average.times(S::count(period as u64).minus(S::ratio(1, 1))).plus(newest).over(S::count(period as u64))
}

fn strength_of<S: Number>(average_gain: S, average_loss: S) -> (r: S)
    ensures
        r == strength(average_gain, average_loss),
{
    if average_loss.equals(S::ratio(0, 1)) {
        S::ratio(100, 1)
    } else {
        S::ratio(100, 1).minus(
            S::ratio(100, 1).over(S::ratio(1, 1).plus(average_gain.over(average_loss))),
        )
    }
}

/// Relative Strength Index of close prices, with Wilder's smoothing.
pub fn rsi<S: Number>(closes: &[S], period: usize) -> (r: Vec<S>)
    ensures
        r@ == rsi_series(closes@, period as nat),
{
    let len: usize = closes.len();
    if len <= period {
        let out = undefined_vec(len);
        assert(out@ =~= rsi_series(closes@, period as nat));
        return out;
    }
    let ghost series = rsi_series(closes@, period as nat);
    let mut gained = S::ratio(0, 1);
    let mut lost = S::ratio(0, 1);
    let mut k: usize = 0;
    assert(gains(closes@, 0) =~= Seq::empty());
    assert(losses(closes@, 0) =~= Seq::empty());
    while k < period
        invariant
            k <= period < closes@.len(),
            gained == total(gains(closes@, k as nat)),
            lost == total(losses(closes@, k as nat)),
        decreases period - k,
    {
        gained = gained.plus(gain_of(closes[k], closes[k + 1]));
        lost = lost.plus(loss_of(closes[k], closes[k + 1]));
        proof {
            let n = (k + 1) as nat;
            assert(gains(closes@, n).drop_last() =~= gains(closes@, k as nat));
            assert(losses(closes@, n).drop_last() =~= losses(closes@, k as nat));
        }
        k = k + 1;
    }
    let mut avg_gain = gained.over(S::count(period as u64));
    let mut avg_loss = lost.over(S::count(period as u64));
    let mut out: Vec<S> = undefined_vec(period);
    out.push(strength_of(avg_gain, avg_loss));
    let mut i: usize = period + 1;
    assert(out@ =~= series.take(i as int));
    while i < len
        invariant
            period < i <= len == closes@.len(),
            avg_gain == average_gain(closes@, period as nat, i - 1),
            avg_loss == average_loss(closes@, period as nat, i - 1),
            series == rsi_series(closes@, period as nat),
            out@ == series.take(i as int),
        decreases len - i,
    {
        avg_gain = smooth(avg_gain, gain_of(closes[i - 1], closes[i]), period);
        avg_loss = smooth(avg_loss, loss_of(closes[i - 1], closes[i]), period);
        out.push(strength_of(avg_gain, avg_loss));
        i = i + 1;
        assert(out@ =~= series.take(i as int));
    }
    assert(out@ =~= series);
    out
}

// ---------------------------------------------------------------------------
// MACD
// ---------------------------------------------------------------------------

/// Three parallel series, all aligned with the input.
#[derive(Debug, Clone, PartialEq)]
pub struct MacdResult<S> {
    pub macd_line: Vec<S>,
    pub signal_line: Vec<S>,
    pub histogram: Vec<S>,
}

/// The difference where both numbers are defined.
pub open spec fn defined_difference<S: Number>(a: S, b: S) -> S {
    if a.is_undefined() || b.is_undefined() {
        S::undefined()
    } else {
        a.difference(b)
    }
}

/// The entries of `a` less those of `b`, as far as both go.
pub open spec fn differences<S: Number>(a: Seq<S>, b: Seq<S>) -> Seq<S> {
    Seq::new(
        if a.len() <= b.len() {
            a.len()
        } else {
            b.len()
        },
        |i: int| defined_difference(a[i], b[i]),
    )
}

/// Fast EMA less slow EMA.
pub open spec fn macd_line_of<S: Number>(closes: Seq<S>, fast: nat, slow: nat) -> Seq<S> {
    differences(ema_series(closes, fast), ema_series(closes, slow))
}

/// The index from which the slow EMA is defined, or the end where history is
/// shorter.
pub open spec fn slow_start(len: nat, slow: nat) -> nat {
    if slow <= len {
        (slow - 1) as nat
    } else {
        len
    }
}

/// The EMA of the MACD line, from where both EMAs are defined.
pub open spec fn signal_line_of<S: Number>(closes: Seq<S>, fast: nat, slow: nat, signal: nat) -> Seq<
    S,
> {
    let start = slow_start(closes.len(), slow);
    undefined_series::<S>(start) + ema_series(
        macd_line_of(closes, fast, slow).skip(start as int),
        signal,
    )
}

fn differences_of<S: Number>(a: &Vec<S>, b: &Vec<S>) -> (r: Vec<S>)
    ensures
        r@ == differences(a@, b@),
{
    let mut out: Vec<S> = Vec::new();
    let mut i: usize = 0;
    while i < a.len() && i < b.len()
        invariant
            i <= a@.len(),
            i <= b@.len(),
            out@ == differences(a@, b@).take(i as int),
        decreases a@.len() - i,
    {
        if a[i].is_nan() || b[i].is_nan() {
            out.push(S::nan());
        } else {
            out.push(a[i].minus(b[i]));
        }
        i = i + 1;
        assert(out@ =~= differences(a@, b@).take(i as int));
    }
    assert(out@ =~= differences(a@, b@));
    out
}

/// MACD of close prices. Every series is aligned with the input, and undefined
/// where history is too short.
pub fn macd<S: Number>(closes: &[S], fast: usize, slow: usize, signal_period: usize) -> (r:
    MacdResult<S>)
    requires
        1 <= slow,
    ensures
        r.macd_line@ == macd_line_of(closes@, fast as nat, slow as nat),
        r.signal_line@ == signal_line_of(
            closes@,
            fast as nat,
            slow as nat,
            signal_period as nat,
        ),
        r.histogram@ == differences(r.macd_line@, r.signal_line@),
        r.macd_line@.len() == closes@.len(),
        r.signal_line@.len() == closes@.len(),
        r.histogram@.len() == closes@.len(),
{
    let ema_fast = ema(closes, fast);
    let ema_slow = ema(closes, slow);
    let macd_line = differences_of(&ema_fast, &ema_slow);
    let ghost line = macd_line_of(closes@, fast as nat, slow as nat);

    let valid_start: usize = if slow <= closes.len() {
        slow - 1
    } else {
        closes.len()
    };
    let mut valid_macd: Vec<S> = Vec::new();
    let mut i: usize = valid_start;
    while i < macd_line.len()
        invariant
            valid_start <= i <= macd_line@.len(),
            valid_macd@ == macd_line@.subrange(valid_start as int, i as int),
        decreases macd_line@.len() - i,
    {
        valid_macd.push(macd_line[i]);
        i = i + 1;
        assert(valid_macd@ =~= macd_line@.subrange(valid_start as int, i as int));
    }
    assert(valid_macd@ =~= line.skip(valid_start as int));
    let mut signal_ema = ema(valid_macd.as_slice(), signal_period);
    let mut signal_line = undefined_vec(valid_start);
    signal_line.append(&mut signal_ema);
    let histogram = differences_of(&macd_line, &signal_line);
    MacdResult { macd_line, signal_line, histogram }
}

// ---------------------------------------------------------------------------
// Swing lows
// ---------------------------------------------------------------------------

/// Whether `lows[i]` is the least within `window` bars on both sides.
pub open spec fn is_pivot<S: Number>(lows: Seq<S>, window: int, i: int) -> bool {
    forall|j: int|
        1 <= j <= window ==> lows[i].le(#[trigger] lows[i - j]) && lows[i].le(lows[i + j])
}

/// The latest pivot below index `end`.
pub open spec fn latest_pivot<S: Number>(lows: Seq<S>, window: int, end: int) -> Option<int>
    decreases end,
{
    if end <= window || end <= 0 {
        None
    } else if is_pivot(lows, window, end - 1) {
        Some(end - 1)
    } else {
        latest_pivot(lows, window, end - 1)
    }
}

/// The least of the values, taken from the left.
pub open spec fn least<S: Number>(values: Seq<S>) -> Option<S>
    decreases values.len(),
{
    if values.len() == 0 {
        None
    } else {
        match least(values.drop_last()) {
            Some(before) => Some(smaller_of(before, values.last())),
            None => Some(values.last()),
        }
    }
}

/// The last `n` values, newest first.
pub open spec fn newest_first<S>(values: Seq<S>, n: nat) -> Seq<S> {
    Seq::new(
        if values.len() <= n {
            values.len()
        } else {
            n
        },
        |k: int| values[values.len() - 1 - k],
    )
}

/// The nearest swing low: the latest pivot, else the least of the last twenty
/// values.
pub open spec fn nearest_swing_low<S: Number>(lows: Seq<S>, window: nat) -> Option<S> {
    match latest_pivot(lows, window as int, lows.len() - window) {
        Some(i) => Some(lows[i]),
        None => least(newest_first(lows, 20)),
    }
}

fn pivots_at<S: Number>(lows: &[S], window: usize, i: usize) -> (r: bool)
    requires
        window <= i,
        i + window < lows@.len(),
    ensures
        r == is_pivot(lows@, window as int, i as int),
{
    let mut j: usize = 1;
    while j <= window
        invariant
            1 <= j <= window + 1,
            window <= i,
            i + window < lows.len(),
            forall|k: int|
                1 <= k < j ==> lows@[i as int].le(#[trigger] lows@[i - k]) && lows@[i as int].le(
                    lows@[i + k],
                ),
        decreases window + 1 - j,
    {
        if !lows[i].at_most(lows[i - j]) || !lows[i].at_most(lows[i + j]) {
            assert(!(lows@[i as int].le(lows@[i - j]) && lows@[i as int].le(lows@[i + j])));
            return false;
        }
        j = j + 1;
    }
    true
}

fn least_of<S: Number>(values: &[S]) -> (r: Option<S>)
    ensures
        r == least(values@),
{
    let mut best: Option<S> = None;
    let mut i: usize = 0;
    while i < values.len()
        invariant
            i <= values@.len(),
            best == least(values@.take(i as int)),
        decreases values@.len() - i,
    {
        best = match best {
            Some(before) => Some(smaller(before, values[i])),
            None => Some(values[i]),
        };
        proof {
            assert(values@.take(i + 1).drop_last() =~= values@.take(i as int));
        }
        i = i + 1;
    }
    assert(values@.take(i as int) =~= values@);
    best
}

/// The most recent swing low, by the pivot-point method.
///
/// A swing low at index `i` means that `lows[i]` is the minimum within `window`
/// bars on either side. Without a pivot, the minimum of the last twenty bars.
pub fn find_nearest_swing_low<S: Number>(lows: &[S], window: usize) -> (r: Option<S>)
    ensures
        r == nearest_swing_low(lows@, window as nat),
{
    let mut end: usize = if window <= lows.len() {
        lows.len() - window
    } else {
        0
    };
    while end > window
        invariant
            end == 0 || end + window <= lows.len(),
            latest_pivot(lows@, window as int, lows@.len() - window) == latest_pivot(
                lows@,
                window as int,
                end as int,
            ),
        decreases end,
    {
        if pivots_at(lows, window, end - 1) {
            return Some(lows[end - 1]);
        }
        end = end - 1;
    }
    let mut recent: Vec<S> = Vec::new();
    let mut k: usize = 0;
    while k < 20 && k < lows.len()
        invariant
            k <= 20,
            k <= lows@.len(),
            recent@ == newest_first(lows@, k as nat),
        decreases 20 - k,
    {
        recent.push(lows[lows.len() - 1 - k]);
        k = k + 1;
        assert(recent@ =~= newest_first(lows@, k as nat));
    }
    assert(recent@ =~= newest_first(lows@, 20));
    least_of(recent.as_slice())
}

// ---------------------------------------------------------------------------
// Laws
// ---------------------------------------------------------------------------

/// Undefined, or not below zero.
pub open spec fn not_negative<S: Number>(a: S) -> bool {
    a.is_undefined() || zero::<S>().le(a)
}

proof fn lemma_true_range<S: Lawful>(high: S, low: S, previous_close: S)
    requires
        low.le(high),
    ensures
        not_negative(true_range(high, low, previous_close)),
{
    if !high.difference(low).is_undefined() {
        S::law_difference(high, low);
    }
    if !high.difference(previous_close).magnitude().is_undefined() {
        S::law_magnitude(high.difference(previous_close));
    }
    if !low.difference(previous_close).magnitude().is_undefined() {
        S::law_magnitude(low.difference(previous_close));
    }
}

/// Wilder's smoothing keeps averages of what is not negative from going below
/// zero.
proof fn lemma_smoothed<S: Lawful>(average: S, newest: S, period: nat)
    requires
        not_negative(average),
        not_negative(newest),
        0 < period <= 1_000_000_000,
    ensures
        not_negative(smoothed(average, newest, period)),
{
    let n = S::of_ratio(period as int, 1);
    let one = S::of_ratio(1, 1);
    let weight = n.difference(one);
    let kept = average.product(weight);
    let joint = kept.sum(newest);
    if !joint.quotient(n).is_undefined() {
        if joint.is_undefined() || n.is_undefined() {
            S::law_absorbs(joint, n);
        }
        if kept.is_undefined() || newest.is_undefined() {
            S::law_absorbs(kept, newest);
        }
        if average.is_undefined() || weight.is_undefined() {
            S::law_absorbs(average, weight);
        }
        S::law_whole(0, period as int);
        if period > 1 {
            S::law_whole(1, period as int);
        }
        lemma_ordered_one::<S>(period);
        S::law_difference(n, one);
        S::law_product(average, weight);
        S::law_gain(kept, newest);
        S::law_transitive(zero::<S>(), kept, joint);
        S::law_quotient(joint, n);
    }
}

proof fn lemma_ordered_one<S: Lawful>(period: nat)
    requires
        0 < period <= 1_000_000_000,
    ensures
        S::of_ratio(1, 1).le(S::of_ratio(period as int, 1)),
{
    if period > 1 {
        S::law_whole(1, period as int);
        lemma_ordered(S::of_ratio(1, 1), S::of_ratio(period as int, 1));
    } else {
        S::law_whole(0, 1);
        lemma_ordered(zero::<S>(), S::of_ratio(1, 1));
        S::law_total(S::of_ratio(1, 1), S::of_ratio(1, 1));
    }
}

/// Over bars whose low is not above their high, an ATR is never negative.
pub proof fn law_atr_is_never_negative<S: Lawful>(
    highs: Seq<S>,
    lows: Seq<S>,
    closes: Seq<S>,
    period: nat,
    i: int,
)
    requires
        highs.len() == closes.len(),
        lows.len() == closes.len(),
        0 < period <= 1_000_000_000,
        0 <= i < closes.len(),
        forall|k: int| 0 <= k < closes.len() ==> (#[trigger] lows[k]).le(highs[k]),
    ensures
        not_negative(atr_at(highs, lows, closes, period, i)),
    decreases i,
{
    if i == period {
        let ranges = true_ranges(highs, lows, closes, period);
        let n = S::of_ratio(period as int, 1);
        assert forall|k: int| 0 <= k < ranges.len() implies not_negative(#[trigger] ranges[k]) by {
            assert(lows[k + 1].le(highs[k + 1]));
            lemma_true_range(highs[k + 1], lows[k + 1], closes[k]);
        }
        if !total(ranges).quotient(n).is_undefined() {
            if total(ranges).is_undefined() {
                S::law_absorbs(total(ranges), n);
            }
            lemma_total_not_negative(ranges);
            S::law_whole(0, period as int);
            S::law_quotient(total(ranges), n);
        }
    } else if i > period {
        law_atr_is_never_negative(highs, lows, closes, period, i - 1);
        assert(lows[i].le(highs[i]));
        lemma_true_range(highs[i], lows[i], closes[i - 1]);
        lemma_smoothed(
            atr_at(highs, lows, closes, period, i - 1),
            true_range(highs[i], lows[i], closes[i - 1]),
            period,
        );
    } else {
        S::law_undefined_is_undefined();
    }
}

proof fn lemma_gain_and_loss<S: Lawful>(before: S, after: S)
    ensures
        not_negative(gain(before, after)),
        not_negative(loss(before, after)),
{
    let change = after.difference(before);
    lemma_zero::<S>();
    if zero::<S>().lt(change) {
        lemma_ordered(zero::<S>(), change);
    } else if change.is_undefined() {
        S::law_absorbs(change, change);
    } else {
        S::law_total(zero::<S>(), change);
        if !change.negation().is_undefined() {
            S::law_negation(change);
        }
    }
}

proof fn lemma_mean_not_negative<S: Lawful>(values: Seq<S>, period: nat)
    requires
        0 < period <= 1_000_000_000,
        forall|k: int| 0 <= k < values.len() ==> not_negative(#[trigger] values[k]),
    ensures
        not_negative(total(values).quotient(S::of_ratio(period as int, 1))),
{
    let n = S::of_ratio(period as int, 1);
    if !total(values).quotient(n).is_undefined() {
        if total(values).is_undefined() {
            S::law_absorbs(total(values), n);
        }
        lemma_total_not_negative(values);
        S::law_whole(0, period as int);
        S::law_quotient(total(values), n);
    }
}

proof fn lemma_averages<S: Lawful>(closes: Seq<S>, period: nat, i: int)
    requires
        0 < period <= 1_000_000_000,
    ensures
        not_negative(average_gain(closes, period, i)),
        not_negative(average_loss(closes, period, i)),
    decreases i,
{
    if i <= period {
        assert forall|k: int| 0 <= k < period implies not_negative(
            #[trigger] gains(closes, period)[k],
        ) by {
            lemma_gain_and_loss(closes[k], closes[k + 1]);
        }
        assert forall|k: int| 0 <= k < period implies not_negative(
            #[trigger] losses(closes, period)[k],
        ) by {
            lemma_gain_and_loss(closes[k], closes[k + 1]);
        }
        lemma_mean_not_negative(gains(closes, period), period);
        lemma_mean_not_negative(losses(closes, period), period);
    } else {
        lemma_averages(closes, period, i - 1);
        lemma_gain_and_loss(closes[i - 1], closes[i]);
        lemma_smoothed(
            average_gain(closes, period, i - 1),
            gain(closes[i - 1], closes[i]),
            period,
        );
        lemma_smoothed(
            average_loss(closes, period, i - 1),
            loss(closes[i - 1], closes[i]),
            period,
        );
    }
}

/// An RSI that is defined lies between 0 and 100.
pub proof fn law_rsi_range<S: Lawful>(closes: Seq<S>, period: nat, i: int)
    requires
        0 < period <= 1_000_000_000,
        !rsi_at(closes, period, i).is_undefined(),
    ensures
        S::of_ratio(0, 1).le(rsi_at(closes, period, i)),
        rsi_at(closes, period, i).le(S::of_ratio(100, 1)),
{
    let hundred = S::of_ratio(100, 1);
    let one = S::of_ratio(1, 1);
    S::law_undefined_is_undefined();
    S::law_whole(0, 100);
    S::law_whole(0, 1);
    lemma_ordered(zero::<S>(), hundred);
    lemma_ordered(zero::<S>(), one);
    S::law_total(hundred, hundred);
    let gained = average_gain(closes, period, i);
    let lost = average_loss(closes, period, i);
    lemma_averages(closes, period, i);
    if !lost.same(zero::<S>()) {
        let ratio = gained.quotient(lost);
        let base = one.sum(ratio);
        let part = hundred.quotient(base);
        if part.is_undefined() {
            S::law_absorbs(hundred, part);
        }
        if base.is_undefined() {
            S::law_absorbs(hundred, base);
        }
        if ratio.is_undefined() {
            S::law_absorbs(one, ratio);
        }
        if gained.is_undefined() || lost.is_undefined() {
            S::law_absorbs(gained, lost);
        }
        S::law_total(lost, zero::<S>());
        S::law_total(zero::<S>(), lost);
        S::law_quotient(gained, lost);
        S::law_gain(one, ratio);
        S::law_transitive(zero::<S>(), one, base);
        S::law_whole(0, 1);
        S::law_total(zero::<S>(), base);
        if base.le(zero::<S>()) {
            S::law_transitive(one, base, zero::<S>());
            S::law_total(zero::<S>(), one);
        }
        S::law_quotient(hundred, base);
        S::law_loss(hundred, part);
        S::law_difference(hundred, part);
    }
}

/// Every indicator is aligned with its input, and undefined until its warmup is
/// over; the MACD and its signal line, whose warmup is that of the slow EMA of
/// `period` bars, on any history, however short.
pub proof fn law_warmup<S: Lawful>(
    highs: Seq<S>,
    lows: Seq<S>,
    closes: Seq<S>,
    period: nat,
    fast: nat,
    signal: nat,
    i: int,
)
    requires
        period > 0,
        0 <= i < closes.len(),
    ensures
        ema_series(closes, period).len() == closes.len(),
        rsi_series(closes, period).len() == closes.len(),
        atr_series(highs, lows, closes, period).len() == closes.len(),
        macd_line_of(closes, fast, period).len() == closes.len(),
        signal_line_of(closes, fast, period, signal).len() == closes.len(),
        i + 1 < period ==> ema_series(closes, period)[i].is_undefined(),
        i + 1 < period ==> macd_line_of(closes, fast, period)[i].is_undefined(),
        i + 1 < period ==> signal_line_of(closes, fast, period, signal)[i].is_undefined(),
        i + 1 < period ==> differences(
            macd_line_of(closes, fast, period),
            signal_line_of(closes, fast, period, signal),
        )[i].is_undefined(),
        i < period ==> rsi_series(closes, period)[i].is_undefined(),
        i < period ==> atr_series(highs, lows, closes, period)[i].is_undefined(),
{
    S::law_undefined_is_undefined();
}

proof fn lemma_least<S: Number>(values: Seq<S>)
    ensures
        least(values) is Some <==> values.len() > 0,
        least(values) matches Some(x) ==> values.contains(x),
    decreases values.len(),
{
    if values.len() > 0 {
        let rest = values.drop_last();
        lemma_least(rest);
        assert(values.last() == values[values.len() - 1]);
        if let Some(before) = least(rest) {
            let k = choose|k: int| 0 <= k < rest.len() && rest[k] == before;
            assert(values[k] == before);
        }
    }
}

proof fn lemma_latest_pivot<S: Number>(lows: Seq<S>, window: int, end: int)
    requires
        0 <= window,
    ensures
        latest_pivot(lows, window, end) matches Some(i) ==> window <= i < end && is_pivot(
            lows,
            window,
            i,
        ) && forall|k: int| i < k < end ==> !is_pivot(lows, window, k),
        latest_pivot(lows, window, end) is None ==> forall|k: int|
            window <= k < end ==> !is_pivot(lows, window, k),
    decreases end,
{
    if end > window && end > 0 && !is_pivot(lows, window, end - 1) {
        lemma_latest_pivot(lows, window, end - 1);
    }
}

/// There is a nearest swing low exactly where there is a bar, it is one of the
/// lows, where a pivot exists it is the latest one, and where none exists it is
/// the least of the last twenty.
pub proof fn law_swing_low<S: Number>(lows: Seq<S>, window: nat)
    ensures
        nearest_swing_low(lows, window) is Some <==> lows.len() > 0,
        nearest_swing_low(lows, window) matches Some(x) ==> lows.contains(x),
        forall|i: int|
            window <= i < lows.len() - window && #[trigger] is_pivot(lows, window as int, i) && (
            forall|k: int|
                i < k < lows.len() - window ==> !#[trigger] is_pivot(lows, window as int, k))
                ==> nearest_swing_low(lows, window) == Some(lows[i]),
        (forall|i: int|
            window <= i < lows.len() - window ==> !#[trigger] is_pivot(lows, window as int, i))
            ==> nearest_swing_low(lows, window) == least(newest_first(lows, 20)),
{
    let recent = newest_first(lows, 20);
    lemma_least(recent);
    lemma_latest_pivot(lows, window as int, lows.len() - window);
    if latest_pivot(lows, window as int, lows.len() - window) is None {
        if let Some(x) = least(recent) {
            let k = choose|k: int| 0 <= k < recent.len() && recent[k] == x;
            assert(lows[lows.len() - 1 - k] == x);
        }
    }
}

/// An EMA starts at the mean of its first `period` values. From then on each entry is
/// the newest value at a weight of two over `period + 1`, and the entry before it at
/// the rest.
pub proof fn law_ema_takes_in_every_value<S: Number>(values: Seq<S>, period: nat, i: int)
    requires
        0 < period,
        0 <= i < values.len(),
    ensures
        ({
            let entries = ema_series(values, period);
            let one = S::of_ratio(1, 1);
            let n = S::of_ratio(period as int, 1);
            let weight = S::of_ratio(2, 1).quotient(n.sum(one));
            &&& i + 1 == period ==> entries[i] == total(values.take(period as int)).quotient(n)
            &&& i + 1 > period ==> entries[i] == values[i].product(weight).sum(
                entries[i - 1].product(one.difference(weight)),
            )
        }),
{
}

/// Whether `range` is the widest of three spans of a bar: from its low to its high, and
/// from the close before it to either.
pub open spec fn spans_the_bar<S: Number>(range: S, high: S, low: S, previous_close: S) -> bool {
    let own = high.difference(low);
    let up = high.difference(previous_close).magnitude();
    let down = low.difference(previous_close).magnitude();
    &&& range == own || range == up || range == down
    &&& own.is_undefined() || own.le(range)
    &&& up.is_undefined() || up.le(range)
    &&& down.is_undefined() || down.le(range)
}

/// Whether `ranges` are those of the bars from the second one on.
pub open spec fn span_the_bars<S: Number>(
    ranges: Seq<S>,
    highs: Seq<S>,
    lows: Seq<S>,
    closes: Seq<S>,
) -> bool {
    forall|k: int|
        0 <= k < ranges.len() ==> spans_the_bar(
            #[trigger] ranges[k],
            highs[k + 1],
            lows[k + 1],
            closes[k],
        )
}

proof fn lemma_larger_covers<S: Lawful>(a: S, b: S)
    ensures
        larger_of(a, b) == a || larger_of(a, b) == b,
        a.is_undefined() || a.le(larger_of(a, b)),
        b.is_undefined() || b.le(larger_of(a, b)),
{
    law_larger_and_smaller(a, b);
    if !a.is_undefined() {
        S::law_total(a, a);
    }
    if !b.is_undefined() {
        S::law_total(b, b);
    }
}

/// An ATR is built from one range per bar, the widest of its own span and of the gaps
/// from the close before it. It starts at the mean of the first `period` ranges, and
/// from then on each range counts for one part in `period`.
pub proof fn law_atr_takes_in_every_range<S: Lawful>(
    highs: Seq<S>,
    lows: Seq<S>,
    closes: Seq<S>,
    period: nat,
    i: int,
)
    requires
        highs.len() == closes.len(),
        lows.len() == closes.len(),
        0 < period <= i < closes.len(),
    ensures
        exists|ranges: Seq<S>|
            {
                let entries = atr_series(highs, lows, closes, period);
                let n = S::of_ratio(period as int, 1);
                &&& ranges.len() == i
                &&& #[trigger] span_the_bars(ranges, highs, lows, closes)
                &&& i == period ==> entries[i] == total(ranges).quotient(n)
                &&& i > period ==> entries[i] == entries[i - 1].product(
                    n.difference(S::of_ratio(1, 1)),
                ).sum(ranges[i - 1]).quotient(n)
            },
{
    let ranges = true_ranges(highs, lows, closes, i as nat);
    assert forall|k: int| 0 <= k < i implies spans_the_bar(
        #[trigger] ranges[k],
        highs[k + 1],
        lows[k + 1],
        closes[k],
    ) by {
        let own = highs[k + 1].difference(lows[k + 1]);
        let up = highs[k + 1].difference(closes[k]).magnitude();
        let down = lows[k + 1].difference(closes[k]).magnitude();
        let first = larger_of(own, up);
        lemma_larger_covers(own, up);
        lemma_larger_covers(first, down);
        if !own.is_undefined() {
            lemma_ordered(own, first);
            S::law_transitive(own, first, larger_of(first, down));
        }
        if !up.is_undefined() {
            lemma_ordered(up, first);
            S::law_transitive(up, first, larger_of(first, down));
        }
    }
    assert(span_the_bars(ranges, highs, lows, closes));
    if i == period {
        assert(ranges =~= true_ranges(highs, lows, closes, period));
    }
    assert(ranges[i - 1] == true_range(highs[i], lows[i], closes[i - 1]));
}

/// Whether `averages` smooths `changes` by Wilder's rule: it starts at index `period`
/// with the mean of the first `period` changes, and from then on the newest change
/// counts for one part in `period`.
pub open spec fn smooths<S: Number>(averages: Seq<S>, changes: Seq<S>, period: nat) -> bool {
    let n = S::of_ratio(period as int, 1);
    &&& averages.len() == changes.len() + 1
    &&& averages[period as int] == total(changes.take(period as int)).quotient(n)
    &&& forall|i: int|
        period < i < averages.len() ==> #[trigger] averages[i] == averages[i - 1].product(
            n.difference(S::of_ratio(1, 1)),
        ).sum(changes[i - 1]).quotient(n)
}

proof fn lemma_smooths<S: Number>(
    closes: Seq<S>,
    period: nat,
    up: Seq<S>,
    rises: Seq<S>,
    down: Seq<S>,
    falls: Seq<S>,
    i: int,
)
    requires
        0 < period <= i < closes.len(),
        rises.len() + 1 == closes.len(),
        falls.len() + 1 == closes.len(),
        forall|k: int|
            0 <= k < rises.len() ==> #[trigger] rises[k] == gain(closes[k], closes[k + 1]),
        forall|k: int|
            0 <= k < falls.len() ==> #[trigger] falls[k] == loss(closes[k], closes[k + 1]),
        smooths(up, rises, period),
        smooths(down, falls, period),
    ensures
        up[i] == average_gain(closes, period, i),
        down[i] == average_loss(closes, period, i),
    decreases i,
{
    if i == period {
        assert(rises.take(period as int) =~= gains(closes, period));
        assert(falls.take(period as int) =~= losses(closes, period));
    } else {
        lemma_smooths(closes, period, up, rises, down, falls, i - 1);
        assert(rises[i - 1] == gain(closes[i - 1], closes[i - 1 + 1]));
        assert(falls[i - 1] == loss(closes[i - 1], closes[i - 1 + 1]));
    }
}

/// Every close counts in an RSI. Take the rises of the closes, with zero for a close
/// that did not rise, and the falls, with zero for a close that rose; smooth both by
/// Wilder's rule. The RSI is then 100 less 100 over one plus the average rise per
/// average fall, and 100 where nothing fell.
pub proof fn law_rsi_takes_in_every_close<S: Number>(
    closes: Seq<S>,
    period: nat,
    rises: Seq<S>,
    falls: Seq<S>,
    up: Seq<S>,
    down: Seq<S>,
    i: int,
)
    requires
        0 < period <= i < closes.len(),
        rises.len() + 1 == closes.len(),
        falls.len() + 1 == closes.len(),
        forall|k: int|
            0 <= k < rises.len() ==> {
                let change = closes[k + 1].difference(closes[k]);
                #[trigger] rises[k] == if S::of_ratio(0, 1).lt(change) {
                    change
                } else {
                    S::of_ratio(0, 1)
                }
            },
        forall|k: int|
            0 <= k < falls.len() ==> {
                let change = closes[k + 1].difference(closes[k]);
                #[trigger] falls[k] == if S::of_ratio(0, 1).lt(change) {
                    S::of_ratio(0, 1)
                } else {
                    change.negation()
                }
            },
        smooths(up, rises, period),
        smooths(down, falls, period),
    ensures
        down[i].same(S::of_ratio(0, 1)) ==> rsi_series(closes, period)[i] == S::of_ratio(100, 1),
        !down[i].same(S::of_ratio(0, 1)) ==> rsi_series(closes, period)[i] == S::of_ratio(
            100,
            1,
        ).difference(
            S::of_ratio(100, 1).quotient(S::of_ratio(1, 1).sum(up[i].quotient(down[i]))),
        ),
{
    lemma_smooths(closes, period, up, rises, down, falls, i);
}

/// The MACD line is the fast EMA less the slow one, its signal line is the EMA of it
/// from where the slow EMA begins, and the histogram is the line less its signal. A bar
/// at which either part is undefined has none.
pub proof fn law_macd_is_a_difference_of_averages<S: Lawful>(
    closes: Seq<S>,
    fast: nat,
    slow: nat,
    signal: nat,
    i: int,
)
    requires
        1 <= slow <= closes.len(),
        0 <= i < closes.len(),
    ensures
        ({
            let line = macd_line_of(closes, fast, slow);
            let signals = signal_line_of(closes, fast, slow, signal);
            let histogram = differences(line, signals);
            let quick = ema_series(closes, fast)[i];
            let steady = ema_series(closes, slow)[i];
            let begun = line.subrange(slow - 1, closes.len() as int);
            &&& quick.is_undefined() || steady.is_undefined() ==> line[i].is_undefined()
            &&& !quick.is_undefined() && !steady.is_undefined() ==> line[i] == quick.difference(
                steady,
            )
            &&& slow - 1 <= i ==> signals[i] == ema_series(begun, signal)[i - (slow - 1)]
            &&& line[i].is_undefined() || signals[i].is_undefined() ==> histogram[i].is_undefined()
            &&& !line[i].is_undefined() && !signals[i].is_undefined() ==> histogram[i]
                == line[i].difference(signals[i])
        }),
{
    S::law_undefined_is_undefined();
    let line = macd_line_of(closes, fast, slow);
    assert(line.skip(slow - 1) =~= line.subrange(slow - 1, closes.len() as int));
}

/// Whether bar `i` has a full `window` on both sides and no lower low in it.
pub open spec fn turns_up_at<S: Number>(lows: Seq<S>, window: nat, i: int) -> bool {
    &&& window <= i < lows.len() - window
    &&& forall|k: int| i - window <= k <= i + window && k != i ==> lows[i].le(#[trigger] lows[k])
}

proof fn lemma_least_is_least<S: Lawful>(values: Seq<S>)
    requires
        values.len() > 0,
        forall|k: int| 0 <= k < values.len() ==> !(#[trigger] values[k]).is_undefined(),
    ensures
        least(values) is Some,
        !least(values)->0.is_undefined(),
        forall|k: int| 0 <= k < values.len() ==> least(values)->0.le(#[trigger] values[k]),
    decreases values.len(),
{
    let last = values.last();
    assert(last == values[values.len() - 1]);
    S::law_total(last, last);
    let rest = values.drop_last();
    if rest.len() > 0 {
        assert forall|k: int| 0 <= k < rest.len() implies !(
        #[trigger] rest[k]).is_undefined() by {
            assert(rest[k] == values[k]);
        }
        lemma_least_is_least(rest);
        let before = least(rest)->0;
        law_larger_and_smaller(before, last);
        assert forall|k: int| 0 <= k < values.len() implies least(values)->0.le(
            #[trigger] values[k],
        ) by {
            if k < rest.len() {
                assert(rest[k] == values[k]);
                S::law_transitive(least(values)->0, before, values[k]);
            }
        }
    }
}

/// The swing low is the low of the latest bar that no bar within the window on either
/// side undercuts. Without such a bar it is one of the last twenty lows, and none of
/// them is below it.
pub proof fn law_swing_low_is_the_latest_turn<S: Lawful>(lows: Seq<S>, window: nat, i: int)
    requires
        lows.len() > 0,
        forall|k: int| 0 <= k < lows.len() ==> !(#[trigger] lows[k]).is_undefined(),
    ensures
        turns_up_at(lows, window, i) && (forall|k: int|
            i < k < lows.len() ==> !#[trigger] turns_up_at(lows, window, k))
            ==> nearest_swing_low(lows, window) == Some(lows[i]),
        (forall|k: int| 0 <= k < lows.len() ==> !#[trigger] turns_up_at(lows, window, k)) ==> {
            &&& nearest_swing_low(lows, window) is Some
            &&& exists|k: int|
                0 <= k < lows.len() && lows.len() - 20 <= k && nearest_swing_low(lows, window)
                    == Some(#[trigger] lows[k])
            &&& forall|k: int|
                0 <= k < lows.len() && lows.len() - 20 <= k ==> nearest_swing_low(
                    lows,
                    window,
                )->0.le(#[trigger] lows[k])
        },
{
    let w = window as int;
    assert forall|k: int| w <= k < lows.len() - w implies (#[trigger] is_pivot(lows, w, k)
        <==> turns_up_at(lows, window, k)) by {
        if is_pivot(lows, w, k) {
            assert forall|m: int| k - w <= m <= k + w && m != k implies lows[k].le(
                #[trigger] lows[m],
            ) by {
                if m < k {
                    assert(lows[k].le(lows[k - (k - m)]));
                } else {
                    let j = m - k;
                    assert(lows[k].le(lows[k - j]));
                }
            }
        }
        if turns_up_at(lows, window, k) {
            assert forall|j: int| 1 <= j <= w implies lows[k].le(#[trigger] lows[k - j])
                && lows[k].le(lows[k + j]) by {
                assert(lows[k].le(lows[k + j]));
            }
        }
    }
    lemma_latest_pivot(lows, w, lows.len() - w);
    if turns_up_at(lows, window, i) && (forall|k: int|
        i < k < lows.len() ==> !#[trigger] turns_up_at(lows, window, k)) {
        assert(is_pivot(lows, w, i));
        let found = latest_pivot(lows, w, lows.len() - w);
        assert(found is Some);
        assert(is_pivot(lows, w, found->0));
        assert(turns_up_at(lows, window, found->0));
        assert(found->0 == i);
    }
    if forall|k: int| 0 <= k < lows.len() ==> !#[trigger] turns_up_at(lows, window, k) {
        let found = latest_pivot(lows, w, lows.len() - w);
        if found is Some {
            assert(is_pivot(lows, w, found->0));
            assert(turns_up_at(lows, window, found->0));
        }
        let recent = newest_first(lows, 20);
        assert forall|k: int| 0 <= k < recent.len() implies !(
        #[trigger] recent[k]).is_undefined() by {
            assert(!lows[lows.len() - 1 - k].is_undefined());
        }
        lemma_least_is_least(recent);
        lemma_least(recent);
        let k = choose|k: int| 0 <= k < recent.len() && recent[k] == least(recent)->0;
        assert(lows[lows.len() - 1 - k] == least(recent)->0);
        assert forall|k: int| 0 <= k < lows.len() && lows.len() - 20 <= k implies least(
            recent,
        )->0.le(#[trigger] lows[k]) by {
            assert(recent[lows.len() - 1 - k] == lows[k]);
        }
    }
}

/// Whether closes are exact amounts between nothing and `most`.
pub open spec fn closes_within(closes: Seq<Amount>, most: int) -> bool {
    forall|k: int|
        0 <= k < closes.len() ==> (#[trigger] closes[k]) is Units && 0 <= closes[k]->0 <= most
}

/// Whether a market has not fallen up to bar `i`.
pub open spec fn never_fell(closes: Seq<Amount>, i: int) -> bool {
    forall|k: int| 0 < k <= i ==> closes[k - 1]->0 <= (#[trigger] closes[k])->0
}

proof fn lemma_smoothed_amount(average: i64, newest: i64, period: nat, most: int)
    requires
        0 <= average <= most,
        0 <= newest <= most,
        1 <= period <= 1_000,
        most <= 1_000_000_000_000_000,
    ensures
        smoothed(Amount::Units(average), Amount::Units(newest), period) matches Amount::Units(r) && {
            &&& r == (average * (period - 1) + newest) / (period as int)
            &&& 0 <= r <= most
        },
{
    let s = SCALE as int;
    let p = period as int;
    let a = average as int;
    let weight = Amount::of_ratio(p, 1).difference(Amount::of_ratio(1, 1));
    assert(weight == Amount::Units(((p - 1) * s) as i64));
    let held = a * (p - 1);
    assert(0 <= held <= most * (p - 1) && (a * ((p - 1) * s)) / s == held) by (nonlinear_arith)
        requires
            0 <= a <= most,
            1 <= p,
            held == a * (p - 1),
            s == 100_000_000,
    ;
    assert(most * (p - 1) <= 1_000_000_000_000_000_000) by (nonlinear_arith)
        requires
            0 <= most <= 1_000_000_000_000_000,
            1 <= p <= 1_000,
    ;
    let x = held + newest;
    let r = x / p;
    assert(most * (p - 1) + most == most * p) by (nonlinear_arith);
    assert((x * s) / (p * s) == r && 0 <= r <= most) by (nonlinear_arith)
        requires
            0 <= x <= most * p,
            r == x / p,
            1 <= p,
            s == 100_000_000,
    {
        assert(x * s == s * x && p * s == s * p);
        vstd::arithmetic::div_mod::lemma_div_denominator(s * x, s, p);
        vstd::arithmetic::div_mod::lemma_div_multiples_vanish(x, s);
    }
}

proof fn lemma_total_amount(values: Seq<Amount>, most: int)
    requires
        values.len() <= 1_000,
        0 <= most <= 1_000_000_000_000_000,
        forall|k: int|
            0 <= k < values.len() ==> (#[trigger] values[k]) is Units && 0 <= values[k]->0 <= most,
    ensures
        total(values) is Units,
        0 <= total(values)->0 <= values.len() * most,
        (forall|k: int| 0 <= k < values.len() ==> (#[trigger] values[k])->0 == 0) ==> total(
            values,
        )->0 == 0,
    decreases values.len(),
{
    if values.len() > 0 {
        let front = values.drop_last();
        assert forall|k: int| 0 <= k < front.len() implies (#[trigger] front[k]) is Units && 0
            <= front[k]->0 <= most by {
            assert(front[k] == values[k]);
        }
        lemma_total_amount(front, most);
        let n = values.len() as int;
        assert(values.last() == values[n - 1]);
        assert((n - 1) * most + most == n * most && n * most <= 1_000_000_000_000_000_000)
            by (nonlinear_arith)
            requires
                0 <= n <= 1_000,
                0 <= most <= 1_000_000_000_000_000,
        ;
        if forall|k: int| 0 <= k < values.len() ==> (#[trigger] values[k])->0 == 0 {
            assert forall|k: int| 0 <= k < front.len() implies (#[trigger] front[k])->0 == 0 by {
                assert(front[k] == values[k]);
            }
        }
    }
}

proof fn lemma_averages_of_amounts(closes: Seq<Amount>, period: nat, i: int, most: int)
    requires
        1 <= period <= 1_000,
        period <= i < closes.len(),
        0 <= most <= 1_000_000_000_000_000,
        closes_within(closes, most),
    ensures
        average_gain(closes, period, i) is Units,
        0 <= average_gain(closes, period, i)->0 <= most,
        average_loss(closes, period, i) is Units,
        0 <= average_loss(closes, period, i)->0 <= most,
        never_fell(closes, i) ==> average_loss(closes, period, i)->0 == 0,
    decreases i,
{
    let s = SCALE as int;
    let p = period as int;
    if i <= period {
        let up = gains(closes, period);
        let down = losses(closes, period);
        assert forall|k: int| 0 <= k < up.len() implies (#[trigger] up[k]) is Units && 0
            <= up[k]->0 <= most by {
            assert(closes[k] is Units && closes[k + 1] is Units);
        }
        assert forall|k: int| 0 <= k < down.len() implies (#[trigger] down[k]) is Units && 0
            <= down[k]->0 <= most by {
            assert(closes[k] is Units && closes[k + 1] is Units);
        }
        if never_fell(closes, i) {
            assert forall|k: int| 0 <= k < down.len() implies (#[trigger] down[k])->0 == 0 by {
                assert(closes[k] is Units && closes[k + 1] is Units);
                assert(closes[k + 1 - 1]->0 <= closes[k + 1]->0);
            }
        }
        lemma_total_amount(up, most);
        lemma_total_amount(down, most);
        let x = total(up)->0 as int;
        let y = total(down)->0 as int;
        lemma_mean_amount(x, p, most);
        lemma_mean_amount(y, p, most);
    } else {
        lemma_averages_of_amounts(closes, period, i - 1, most);
        assert(closes[i - 1] is Units && closes[i] is Units);
        let a = average_gain(closes, period, i - 1)->0;
        let b = average_loss(closes, period, i - 1)->0;
        lemma_smoothed_amount(a, gain(closes[i - 1], closes[i])->0, period, most);
        lemma_smoothed_amount(b, loss(closes[i - 1], closes[i])->0, period, most);
        if never_fell(closes, i) {
            assert(closes[i - 1]->0 <= closes[i]->0);
            assert(never_fell(closes, i - 1));
            assert(0 * (p - 1) == 0) by (nonlinear_arith);
        }
    }
}

proof fn lemma_mean_amount(x: int, p: int, most: int)
    requires
        1 <= p <= 1_000,
        0 <= x <= p * most,
        0 <= most <= 1_000_000_000_000_000,
        x <= i64::MAX,
    ensures
        Amount::Units(x as i64).quotient(Amount::of_ratio(p, 1)) matches Amount::Units(r) && 0 <= r
            <= most && (x == 0 ==> r == 0),
{
    let s = SCALE as int;
    let r = x / p;
    assert((x * s) / (p * s) == r && 0 <= r <= most) by (nonlinear_arith)
        requires
            0 <= x <= p * most,
            r == x / p,
            1 <= p,
            s == 100_000_000,
    {
        assert(x * s == s * x && p * s == s * p);
        vstd::arithmetic::div_mod::lemma_div_denominator(s * x, s, p);
        vstd::arithmetic::div_mod::lemma_div_multiples_vanish(x, s);
    }
}

/// A market that has never fallen stands at 100, however long it has risen; and the first
/// fall takes the index below 100 at once, wherever in the history it comes, unless it is
/// too small to be told beside the closes.
pub proof fn law_the_first_fall_is_felt(closes: Seq<Amount>, period: nat, i: int, most: int)
    requires
        1 <= period <= 1_000,
        period < i < closes.len(),
        0 <= most <= 1_000_000_000_000_000,
        closes_within(closes, most),
        never_fell(closes, i - 1),
    ensures
        rsi_series(closes, period)[i - 1] == Amount::of_ratio(100, 1),
        closes[i - 1]->0 <= closes[i]->0 ==> rsi_series(closes, period)[i] == Amount::of_ratio(
            100,
            1,
        ),
        ({
            let fall = closes[i - 1]->0 - closes[i]->0;
            period <= fall && most <= 1_000_000_000 * (fall / period as int) ==> rsi_series(
                closes,
                period,
            )[i].lt(Amount::of_ratio(100, 1))
        }),
{
    let s = SCALE as int;
    let p = period as int;
    lemma_averages_of_amounts(closes, period, i - 1, most);
    lemma_averages_of_amounts(closes, period, i, most);
    assert(closes[i - 1] is Units && closes[i] is Units);
    assert((100 * s) / 1 == 100 * s);
    assert(Amount::of_ratio(100, 1) == Amount::Units(10_000_000_000));
    assert(average_loss(closes, period, i - 1) == Amount::Units(0));
    let fall = closes[i - 1]->0 - closes[i]->0;
    if fall <= 0 {
        assert(never_fell(closes, i)) by {
            assert forall|k: int| 0 < k <= i implies closes[k - 1]->0 <= (
            #[trigger] closes[k])->0 by {
                if k < i {
                    assert(closes[k - 1]->0 <= closes[k]->0);
                }
            }
        }
    }
    if period <= fall && most <= 1_000_000_000 * (fall / p) {
        assert(loss(closes[i - 1], closes[i]) == Amount::Units(fall as i64));
        lemma_smoothed_amount(0, fall as i64, period, most);
        assert(0 * (p - 1) == 0) by (nonlinear_arith);
        let l = fall / p;
        assert(average_loss(closes, period, i) == Amount::Units(l as i64));
        assert(l >= 1) by (nonlinear_arith)
            requires
                l == fall / p,
                fall >= p,
                p >= 1,
        ;
        let g = average_gain(closes, period, i)->0 as int;
        let q = (g * s) / l;
        assert(0 <= q <= 100_000_000_000_000_000) by (nonlinear_arith)
            requires
                q == (g * s) / l,
                0 <= g <= 1_000_000_000 * l,
                l >= 1,
                s == 100_000_000,
        ;
        let d = s + q;
        let n = 100 * s;
        let part = (n * s) / d;
        assert(1 <= part <= n) by (nonlinear_arith)
            requires
                part == (n * s) / d,
                s <= d <= 100_000_000_100_000_000,
                n == 100 * s,
                s == 100_000_000,
        ;
    }
}

} // verus!
