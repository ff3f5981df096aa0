//! Resampling of realised trades.
//!
//! The order and choice of past trades was one draw among many. Drawing them again,
//! with replacement, shows how far luck alone moves the outcome. It assumes that the
//! edge holds.

use rand::Rng;
use vstd::prelude::*;
use crate::amount::{Amount, SCALE};
use crate::backtest::{starting_balance, SimTrade};
use crate::number::{larger, larger_of, law_larger_and_smaller, zero, Lawful, Number};

verus! {

/// How many times the trades are resampled.
pub const MONTE_CARLO_RUNS: usize = 10_000;

// ---------------------------------------------------------------------------
// One run
// ---------------------------------------------------------------------------

/// Where a run stands after some draws.
pub struct Resampled<S> {
    pub balance: S,
    pub peak: S,
    /// Deepest fall from the peak, as a fraction of it.
    pub deepest: S,
    /// Losing draws since the last other one.
    pub streak: nat,
    /// Most losing draws in a row.
    pub longest: nat,
}

impl<S: Number> Resampled<S> {
    /// After one more draw. A return on equity compounds.
    pub open spec fn after(self, trade_return: S) -> Resampled<S> {
        let balance = self.balance.product(S::of_ratio(1, 1).sum(trade_return));
        let peak = larger_of(self.peak, balance);
        let streak = if trade_return.lt(zero::<S>()) {
            self.streak + 1
        } else {
            0
        };
        Resampled {
            balance,
            peak,
            deepest: if zero::<S>().lt(peak) {
                larger_of(self.deepest, peak.difference(balance).quotient(peak))
            } else {
                self.deepest
            },
            streak,
            longest: if streak > self.longest {
                streak
            } else {
                self.longest
            },
        }
    }
}

/// Where a run stands after drawing `draws`.
pub open spec fn resampled<S: Number>(draws: Seq<S>) -> Resampled<S>
    decreases draws.len(),
{
    if draws.len() == 0 {
        Resampled {
            balance: starting_balance::<S>(),
            peak: starting_balance::<S>(),
            deepest: zero::<S>(),
            streak: 0,
            longest: 0,
        }
    } else {
        resampled(draws.drop_last()).after(draws.last())
    }
}

/// The returns at the places that were picked.
pub open spec fn drawn<S>(gains: Seq<S>, picks: Seq<usize>) -> Seq<S> {
    picks.map_values(|pick: usize| gains[pick as int])
}

/// What a run came to.
#[derive(Debug, Clone, Copy, PartialEq)]
pub struct RunOutcome<S> {
    pub final_balance: S,
    /// In percent.
    pub max_drawdown: S,
    pub losing_streak: usize,
}

impl<S: Number> RunOutcome<S> {
    /// Whether this is what drawing `draws` comes to.
    pub open spec fn reports(self, draws: Seq<S>) -> bool {
        let end = resampled(draws);
        &&& self.final_balance == end.balance
        &&& self.max_drawdown == end.deepest.product(S::of_ratio(100, 1))
        &&& self.losing_streak == end.longest
    }
}

/// Whether every pick is one of `n` places.
pub open spec fn picks_within(picks: Seq<usize>, n: nat) -> bool {
    forall|i: int| 0 <= i < picks.len() ==> (#[trigger] picks[i]) < n
}

/// Compounds the returns at the places that were picked, in that order.
pub fn resample<S: Number>(gains: &Vec<S>, picks: &Vec<usize>) -> (r: RunOutcome<S>)
    requires
        picks_within(picks@, gains@.len()),
    ensures
        r.reports(drawn(gains@, picks@)),
{
    let one = S::ratio(1, 1);
    let none = S::ratio(0, 1);
    let mut balance = S::ratio(10_000, 1);
    let mut peak = balance;
    let mut deepest = none;
    let mut streak: usize = 0;
    let mut longest: usize = 0;
    let ghost draws = drawn(gains@, picks@);
    let mut i: usize = 0;
    while i < picks.len()
        invariant
            i <= picks@.len(),
            picks_within(picks@, gains@.len()),
            draws == drawn(gains@, picks@),
            one == S::of_ratio(1, 1),
            none == S::of_ratio(0, 1),
            streak <= i,
            longest <= i,
            resampled(draws.take(i as int)) == (Resampled {
                balance,
                peak,
                deepest,
                streak: streak as nat,
                longest: longest as nat,
            }),
        decreases picks@.len() - i,
    {
        let trade_return = gains[picks[i]];
        proof {
            assert(draws.take(i + 1).drop_last() =~= draws.take(i as int));
            assert(draws.take(i + 1).last() == trade_return);
        }
        balance = balance.times(one.plus(trade_return));
        peak = larger(peak, balance);
        if none.below(peak) {
            deepest = larger(deepest, peak.minus(balance).over(peak));
        }
        if trade_return.below(none) {
            streak = streak + 1;
            if streak > longest {
                longest = streak;
            }
        } else {
            streak = 0;
        }
        i = i + 1;
    }
    assert(draws.take(i as int) =~= draws);
    RunOutcome {
        final_balance: balance,
        max_drawdown: deepest.times(S::ratio(100, 1)),
        losing_streak: longest,
    }
}

// ---------------------------------------------------------------------------
// Chance
// ---------------------------------------------------------------------------

/// One of the places `0..n`, by `rand::Rng::gen_range` on the thread's generator.
///
/// The range is half-open, so the place is below `n`; it must not be empty. Which
/// place comes is chance, and nothing is said of it.
#[verifier::external_body]
fn draw_place(n: usize) -> (r: usize)
    requires
        n > 0,
    ensures
        r < n,
{
    rand::thread_rng().gen_range(0..n)
}

/// As many places as there are, each drawn by itself.
fn draw_picks(n: usize) -> (r: Vec<usize>)
    ensures
        r@.len() == n,
        picks_within(r@, n as nat),
{
    let mut picks: Vec<usize> = Vec::new();
    while picks.len() < n
        invariant
            picks@.len() <= n,
            picks_within(picks@, n as nat),
        decreases n - picks@.len(),
    {
        picks.push(draw_place(n));
    }
    picks
}

// ---------------------------------------------------------------------------
// Percentiles
// ---------------------------------------------------------------------------

/// Whether values stand in the order that places every number.
pub open spec fn in_rank<S: Number>(values: Seq<S>) -> bool {
    forall|i: int, j: int|
        0 <= i < j < values.len() ==> (#[trigger] values[i]).ranks(#[trigger] values[j])
}

/// Where the value at a fraction of the way stands: the nearest place.
pub open spec fn nearest_place<S: Number>(len: nat, fraction: S) -> int {
    S::of_ratio(len - 1, 1).product(fraction).whole_nearest().index() as int
}

/// The sorted value nearest to a fraction of the way through.
pub fn percentile<S: Number>(sorted_values: &[S], fraction: S) -> (r: S)
    requires
        sorted_values@.len() > 0,
        nearest_place(sorted_values@.len(), fraction) < sorted_values@.len(),
    ensures
        r == sorted_values@[nearest_place(sorted_values@.len(), fraction)],
{
    let place: usize = S::count((sorted_values.len() - 1) as u64).times(
        fraction,
    ).round().to_index();
    sorted_values[place]
}

/// As [`percentile`], with `None` where there is no such place.
pub open spec fn value_at<S: Number>(values: Seq<S>, fraction: S) -> Option<S> {
    if values.len() > 0 && nearest_place(values.len(), fraction) < values.len() {
        Some(values[nearest_place(values.len(), fraction)])
    } else {
        None
    }
}

/// As [`percentile`], with `None` where there is no such place.
pub fn try_percentile<S: Number>(sorted_values: &[S], fraction: S) -> (r: Option<S>)
    ensures
        r == value_at(sorted_values@, fraction),
{
    if sorted_values.len() == 0 {
        return None;
    }
    let place: usize = S::count((sorted_values.len() - 1) as u64).times(
        fraction,
    ).round().to_index();
    if place < sorted_values.len() {
        Some(percentile(sorted_values, fraction))
    } else {
        None
    }
}

/// Whether `r` is `values` put in rank.
pub open spec fn ranked_from<S: Number>(r: Seq<S>, values: Seq<S>) -> bool {
    &&& in_rank(r)
    &&& r.to_multiset() == values.to_multiset()
}

/// Puts values in rank.
pub fn sort<S: Number>(values: &Vec<S>) -> (r: Vec<S>)
    ensures
        ranked_from(r@, values@),
        r@.len() == values@.len(),
{
    let mut sorted: Vec<S> = Vec::new();
    let mut i: usize = 0;
    assert(values@.take(0) =~= sorted@);
    while i < values.len()
        invariant
            i <= values@.len(),
            sorted@.len() == i,
            in_rank(sorted@),
            sorted@.to_multiset() == values@.take(i as int).to_multiset(),
        decreases values@.len() - i,
    {
        let value = values[i];
        let mut low: usize = 0;
        let mut high: usize = sorted.len();
        while low < high
            invariant
                low <= high <= sorted@.len(),
                in_rank(sorted@),
                forall|k: int| 0 <= k < low ==> (#[trigger] sorted@[k]).ranks(value),
                forall|k: int| high <= k < sorted@.len() ==> value.ranks(#[trigger] sorted@[k]),
            decreases high - low,
        {
            let middle: usize = low + (high - low) / 2;
            let pivot = sorted[middle];
            let before = pivot.ranked(value);
            if before {
                assert forall|k: int| 0 <= k < middle + 1 implies (
                #[trigger] sorted@[k]).ranks(value) by {
                    if k < middle {
                        assert(sorted@[k].ranks(sorted@[middle as int]));
                    }
                }
                low = middle + 1;
            } else {
                assert forall|k: int| middle <= k < sorted@.len() implies value.ranks(
                    #[trigger] sorted@[k],
                ) by {
                    if k > middle {
                        assert(sorted@[middle as int].ranks(sorted@[k]));
                    }
                }
                high = middle;
            }
        }
        let ghost before = sorted@;
        sorted.insert(low, value);
        proof {
            assert forall|a: int, b: int| 0 <= a < b < sorted@.len() implies (
            #[trigger] sorted@[a]).ranks(#[trigger] sorted@[b]) by {
                let a0 = if a < low { a } else { a - 1 };
                let b0 = if b < low { b } else { b - 1 };
                if a != low {
                    assert(sorted@[a] == before[a0]);
                }
                if b != low {
                    assert(sorted@[b] == before[b0]);
                }
                if a != low && b != low {
                    assert(before[a0].ranks(before[b0]));
                }
            }
            broadcast use vstd::seq_lib::group_to_multiset_ensures;

            assert(before.insert(low as int, value).to_multiset() =~= before.to_multiset().insert(
                value,
            ));
            assert(values@.take(i + 1) =~= values@.take(i as int).push(value));
        }
        i = i + 1;
    }
    assert(values@.take(i as int) =~= values@);
    sorted
}

/// Where the lower twentieth, the middle and the upper twentieth of some values lie.
/// A place that does not exist has none.
#[derive(Debug, Clone, Copy, PartialEq)]
pub struct Spread<S> {
    pub p5: Option<S>,
    pub p50: Option<S>,
    pub p95: Option<S>,
}

impl<S: Number> Spread<S> {
    /// Whether these are the places of `values` once they are in rank.
    pub open spec fn spans(self, values: Seq<S>) -> bool {
        exists|sorted: Seq<S>|
            {
                &&& #[trigger] ranked_from(sorted, values)
                &&& self.p5 == value_at(sorted, S::of_ratio(5, 100))
                &&& self.p50 == value_at(sorted, S::of_ratio(50, 100))
                &&& self.p95 == value_at(sorted, S::of_ratio(95, 100))
            }
    }

    pub fn of(values: &Vec<S>) -> (r: Self)
        ensures
            r.spans(values@),
    {
        let sorted = sort(values);
        let r = Spread {
            p5: try_percentile(sorted.as_slice(), S::ratio(5, 100)),
            p50: try_percentile(sorted.as_slice(), S::ratio(50, 100)),
            p95: try_percentile(sorted.as_slice(), S::ratio(95, 100)),
        };
        assert(ranked_from(sorted@, values@));
        r
    }
}

// ---------------------------------------------------------------------------
// All runs
// ---------------------------------------------------------------------------

/// How the outcomes of all runs are spread.
#[derive(Debug, Clone, Copy, PartialEq)]
pub struct MonteCarloReport<S> {
    pub final_balance: Spread<S>,
    /// In percent.
    pub max_drawdown: Spread<S>,
    /// In trades.
    pub losing_streak: Spread<S>,
}

impl<S: Number> MonteCarloReport<S> {
    /// Whether this is how the outcomes are spread.
    pub open spec fn reports(self, outcomes: Seq<RunOutcome<S>>) -> bool {
        &&& self.final_balance.spans(outcomes.map_values(|o: RunOutcome<S>| o.final_balance))
        &&& self.max_drawdown.spans(outcomes.map_values(|o: RunOutcome<S>| o.max_drawdown))
        &&& self.losing_streak.spans(
            outcomes.map_values(|o: RunOutcome<S>| S::of_ratio(o.losing_streak as int, 1)),
        )
    }

    pub fn summarize(outcomes: &Vec<RunOutcome<S>>) -> (r: Self)
        ensures
            r.reports(outcomes@),
    {
        let mut balances: Vec<S> = Vec::new();
        let mut drawdowns: Vec<S> = Vec::new();
        let mut streaks: Vec<S> = Vec::new();
        let mut i: usize = 0;
        while i < outcomes.len()
            invariant
                i <= outcomes@.len(),
                balances@ == outcomes@.take(i as int).map_values(
                    |o: RunOutcome<S>| o.final_balance,
                ),
                drawdowns@ == outcomes@.take(i as int).map_values(
                    |o: RunOutcome<S>| o.max_drawdown,
                ),
                streaks@ == outcomes@.take(i as int).map_values(
                    |o: RunOutcome<S>| S::of_ratio(o.losing_streak as int, 1),
                ),
            decreases outcomes@.len() - i,
        {
            let outcome = outcomes[i];
            balances.push(outcome.final_balance);
            drawdowns.push(outcome.max_drawdown);
            streaks.push(S::count(outcome.losing_streak as u64));
            assert(outcomes@.take(i + 1) =~= outcomes@.take(i as int).push(outcome));
            i = i + 1;
        }
        assert(outcomes@.take(i as int) =~= outcomes@);
        MonteCarloReport {
            final_balance: Spread::of(&balances),
            max_drawdown: Spread::of(&drawdowns),
            losing_streak: Spread::of(&streaks),
        }
    }
}

/// The returns on portfolio equity. These compound; the return on a position's own
/// size does not, because a position is only part of the book.
pub open spec fn equity_returns<S>(trades: Seq<SimTrade<S>>) -> Seq<S> {
    trades.map_values(|t: SimTrade<S>| t.equity_return)
}

/// Whether each outcome is that of one run of picks, with as many draws as there are
/// returns.
pub open spec fn outcomes_of<S: Number>(
    outcomes: Seq<RunOutcome<S>>,
    gains: Seq<S>,
    picks: Seq<Seq<usize>>,
) -> bool {
    &&& outcomes.len() == picks.len()
    &&& forall|i: int|
        0 <= i < picks.len() ==> {
            &&& (#[trigger] picks[i]).len() == gains.len()
            &&& picks_within(picks[i], gains.len())
            &&& outcomes[i].reports(drawn(gains, picks[i]))
        }
}

/// Resamples the trades, `None` where there are none to resample.
pub fn monte_carlo<S: Number>(trades: &Vec<SimTrade<S>>) -> (r: Option<MonteCarloReport<S>>)
    ensures
        r is None <==> trades@.len() == 0,
        r matches Some(report) ==> exists|outcomes: Seq<RunOutcome<S>>, picks: Seq<Seq<usize>>|
            {
                &&& #[trigger] outcomes_of(outcomes, equity_returns(trades@), picks)
                &&& outcomes.len() == MONTE_CARLO_RUNS
                &&& report.reports(outcomes)
            },
{
    if trades.len() == 0 {
        return None;
    }
    let mut gains: Vec<S> = Vec::new();
    let mut i: usize = 0;
    while i < trades.len()
        invariant
            i <= trades@.len(),
            gains@ == equity_returns(trades@).take(i as int),
        decreases trades@.len() - i,
    {
        gains.push(trades[i].equity_return);
        assert(gains@ =~= equity_returns(trades@).take(i + 1));
        i = i + 1;
    }
    assert(gains@ =~= equity_returns(trades@));
    let ghost mut all_picks: Seq<Seq<usize>> = Seq::empty();
    let mut outcomes: Vec<RunOutcome<S>> = Vec::new();
    while outcomes.len() < MONTE_CARLO_RUNS
        invariant
            outcomes@.len() <= MONTE_CARLO_RUNS,
            outcomes_of(outcomes@, gains@, all_picks),
        decreases MONTE_CARLO_RUNS - outcomes@.len(),
    {
        let picks = draw_picks(gains.len());
        outcomes.push(resample(&gains, &picks));
        proof {
            all_picks = all_picks.push(picks@);
        }
    }
    let report = MonteCarloReport::summarize(&outcomes);
    assert(outcomes_of(outcomes@, equity_returns(trades@), all_picks));
    Some(report)
}

// ---------------------------------------------------------------------------
// Laws
// ---------------------------------------------------------------------------

/// Whether the `n` draws up to `end` all lose.
pub open spec fn all_lose<S: Number>(draws: Seq<S>, n: int, end: int) -> bool {
    forall|i: int| end - n <= i < end ==> (#[trigger] draws[i]).lt(zero::<S>())
}

proof fn lemma_streaks<S: Number>(draws: Seq<S>)
    ensures
        resampled(draws).streak <= draws.len(),
        resampled(draws).streak <= resampled(draws).longest,
        all_lose(draws, resampled(draws).streak as int, draws.len() as int),
        resampled(draws).streak < draws.len() ==> !draws[draws.len() - 1
            - resampled(draws).streak].lt(zero::<S>()),
    decreases draws.len(),
{
    if draws.len() > 0 {
        let before = draws.drop_last();
        lemma_streaks(before);
        let n = resampled(draws).streak as int;
        assert forall|i: int| draws.len() - n <= i < draws.len() implies (
        #[trigger] draws[i]).lt(zero::<S>()) by {
            if i < before.len() {
                assert(before[i] == draws[i]);
            }
        }
    }
}

/// The longest losing streak of a run is one that its draws hold, and they hold no
/// longer one.
pub proof fn law_longest_losing_streak<S: Number>(draws: Seq<S>)
    ensures
        exists|end: int|
            resampled(draws).longest <= end <= draws.len() && #[trigger] all_lose(
                draws,
                resampled(draws).longest as int,
                end,
            ),
        forall|n: int, end: int|
            0 <= n <= end <= draws.len() && #[trigger] all_lose(draws, n, end) ==> n <= resampled(
                draws,
            ).longest,
    decreases draws.len(),
{
    lemma_streaks(draws);
    let last = draws.len() as int;
    if draws.len() == 0 {
        assert(all_lose(draws, 0, 0));
    } else {
        let before = draws.drop_last();
        law_longest_losing_streak(before);
        let longest = resampled(draws).longest as int;
        let kept = resampled(before).longest as int;
        if longest == kept {
            let end = choose|end: int|
                kept <= end <= before.len() && #[trigger] all_lose(before, kept, end);
            assert forall|i: int| end - kept <= i < end implies (#[trigger] draws[i]).lt(
                zero::<S>(),
            ) by {
                assert(before[i] == draws[i]);
            }
            assert(all_lose(draws, longest, end));
        } else {
            assert(all_lose(draws, longest, last));
        }
        assert forall|n: int, end: int|
            0 <= n <= end <= draws.len() && #[trigger] all_lose(draws, n, end) implies n
            <= longest by {
            if end < last {
                assert forall|i: int| end - n <= i < end implies (#[trigger] before[i]).lt(
                    zero::<S>(),
                ) by {
                    assert(before[i] == draws[i]);
                }
                assert(all_lose(before, n, end));
            } else {
                let streak = resampled(draws).streak as int;
                if n > streak {
                    assert(draws[last - 1 - streak].lt(zero::<S>()));
                }
            }
        }
    }
}

/// A percentile is one of the values.
pub proof fn law_percentile_is_a_value<S: Number>(sorted: Seq<S>, values: Seq<S>, fraction: S)
    requires
        ranked_from(sorted, values),
    ensures
        value_at(sorted, fraction) matches Some(v) ==> values.contains(v),
{
    broadcast use vstd::seq_lib::group_to_multiset_ensures;

    if let Some(v) = value_at(sorted, fraction) {
        assert(sorted.contains(v));
        assert(sorted.to_multiset().count(v) > 0);
    }
}

/// A fraction between nothing and the whole always has a place, so a percentile of
/// exact amounts is never missing.
pub proof fn law_percentile_is_never_missing(values: Seq<Amount>, fraction: Amount)
    requires
        0 < values.len() <= 1_000_000_000,
        zero::<Amount>().le(fraction),
        fraction.le(Amount::of_ratio(1, 1)),
    ensures
        value_at(values, fraction) is Some,
{
    let n = values.len() - 1;
    let f = fraction->0 as int;
    let scale = SCALE as int;
    assert(Amount::of_ratio(n, 1) == Amount::Units((n * scale) as i64));
    assert((n * scale) * f == scale * (n * f)) by (nonlinear_arith);
    assert(0 <= n * f <= n * scale) by (nonlinear_arith)
        requires
            0 <= n,
            0 <= f <= scale,
    ;
    assert((scale * (n * f)) / scale == n * f) by {
        vstd::arithmetic::div_mod::lemma_div_multiples_vanish(n * f, scale);
    }
    assert(Amount::of_ratio(n, 1).product(fraction) == Amount::Units((n * f) as i64));
    assert((n * f + scale / 2) / scale <= n) by (nonlinear_arith)
        requires
            0 <= n * f <= n * scale,
            scale == 100_000_000,
    ;
}

/// A draw compounds: the balance grows or shrinks by its return on the equity. The peak
/// takes the new balance in, and where it is above zero so does the deepest fall, as a
/// share of the peak. A draw below zero lengthens the streak and any other ends it.
pub proof fn law_a_draw_compounds<S: Lawful>(draws: Seq<S>, gain: S)
    requires
        !resampled(draws).peak.is_undefined(),
        !resampled(draws).deepest.is_undefined(),
        !resampled(draws.push(gain)).balance.is_undefined(),
    ensures
        ({
            let before = resampled(draws);
            let after = resampled(draws.push(gain));
            let fall = after.peak.difference(after.balance).quotient(after.peak);
            &&& after.balance == before.balance.product(S::of_ratio(1, 1).sum(gain))
            &&& after.peak == before.peak || after.peak == after.balance
            &&& before.peak.le(after.peak) && after.balance.le(after.peak)
            &&& S::of_ratio(0, 1).lt(after.peak) ==> {
                &&& after.deepest == before.deepest || after.deepest == fall
                &&& before.deepest.le(after.deepest)
                &&& fall.is_undefined() || fall.le(after.deepest)
            }
            &&& !S::of_ratio(0, 1).lt(after.peak) ==> after.deepest == before.deepest
            &&& gain.lt(S::of_ratio(0, 1)) ==> after.streak == before.streak + 1
            &&& !gain.lt(S::of_ratio(0, 1)) ==> after.streak == 0
        }),
        resampled(Seq::<S>::empty()) == (Resampled {
            balance: S::of_ratio(10_000, 1),
            peak: S::of_ratio(10_000, 1),
            deepest: S::of_ratio(0, 1),
            streak: 0,
            longest: 0,
        }),
{
    assert(draws.push(gain).drop_last() =~= draws);
    let before = resampled(draws);
    let after = resampled(draws.push(gain));
    law_larger_and_smaller(before.peak, after.balance);
    law_larger_and_smaller(
        before.deepest,
        after.peak.difference(after.balance).quotient(after.peak),
    );
    S::law_total(before.deepest, before.deepest);
}

/// The outcome of a run is its last balance, its deepest fall in percent and its longest
/// streak.
pub proof fn law_an_outcome_is_of_its_draws<S: Number>(outcome: RunOutcome<S>, draws: Seq<S>)
    requires
        outcome.reports(draws),
    ensures
        outcome.final_balance == resampled(draws).balance,
        outcome.max_drawdown == resampled(draws).deepest.product(S::of_ratio(100, 1)),
        outcome.losing_streak == resampled(draws).longest,
{
}

/// Every pick draws the return at its place, and the returns are those on the equity.
pub proof fn law_picks_draw_equity_returns<S>(trades: Seq<SimTrade<S>>, picks: Seq<usize>, i: int)
    requires
        0 <= i < picks.len(),
        picks_within(picks, trades.len()),
    ensures
        equity_returns(trades).len() == trades.len(),
        drawn(equity_returns(trades), picks).len() == picks.len(),
        drawn(equity_returns(trades), picks)[i] == trades[picks[i] as int].equity_return,
{
}

/// A percentile of exact amounts is the value at the place nearest to the fraction of the
/// way: no more than half a place off.
pub proof fn law_a_percentile_is_the_nearest(values: Seq<Amount>, fraction: Amount)
    requires
        0 < values.len() <= 1_000_000_000,
        fraction is Units,
        0 <= fraction->0 <= SCALE,
    ensures
        ({
            let place = nearest_place(values.len(), fraction);
            let way = (values.len() - 1) * fraction->0;
            &&& 0 <= place < values.len()
            &&& value_at(values, fraction) == Some(values[place])
            &&& 2 * (place * SCALE - way) <= SCALE
            &&& 2 * (way - place * SCALE) <= SCALE
        }),
{
    lemma_place(values.len(), fraction);
    law_percentile_is_never_missing(values, fraction);
    let place = nearest_place(values.len(), fraction);
    let way = (values.len() - 1) * fraction->0;
    let s = SCALE as int;
    assert(2 * (place * s - way) <= s && 2 * (way - place * s) <= s) by (nonlinear_arith)
        requires
            place == (way + s / 2) / s,
            s == 100_000_000,
    ;
}

proof fn lemma_place(len: nat, fraction: Amount)
    requires
        0 < len <= 1_000_000_000,
        fraction is Units,
        0 <= fraction->0 <= SCALE,
    ensures
        nearest_place(len, fraction) == ((len - 1) * fraction->0 + SCALE / 2) / (SCALE as int),
        0 <= nearest_place(len, fraction) < len,
{
    let n = len - 1;
    let f = fraction->0 as int;
    let s = SCALE as int;
    assert(Amount::of_ratio(n, 1) == Amount::Units((n * s) as i64));
    assert((n * s) * f == s * (n * f)) by (nonlinear_arith);
    assert(0 <= n * f <= n * s) by (nonlinear_arith)
        requires
            0 <= n,
            0 <= f <= s,
    ;
    assert((s * (n * f)) / s == n * f) by {
        vstd::arithmetic::div_mod::lemma_div_multiples_vanish(n * f, s);
    }
    let way = n * f;
    assert(Amount::of_ratio(n, 1).product(fraction) == Amount::Units(way as i64));
    let q = (way + s / 2) / s;
    assert(0 <= q <= n) by (nonlinear_arith)
        requires
            0 <= way <= n * s,
            s == 100_000_000,
            q == (way + s / 2) / s,
    ;
    assert(q * s <= i64::MAX) by (nonlinear_arith)
        requires
            0 <= q <= n,
            n <= 1_000_000_000,
            s == 100_000_000,
    ;
    assert((s * q) / s == q) by {
        vstd::arithmetic::div_mod::lemma_div_multiples_vanish(q, s);
    }
}

/// A spread is read off the values in rank: five, fifty and ninety-five hundredths of the
/// way through.
pub proof fn law_a_spread_is_of_the_ranked_values<S: Number>(spread: Spread<S>, values: Seq<S>)
    requires
        spread.spans(values),
    ensures
        exists|sorted: Seq<S>|
            {
                &&& #[trigger] sorted.to_multiset() == values.to_multiset()
                &&& forall|i: int, j: int|
                    0 <= i < j < sorted.len() ==> (#[trigger] sorted[i]).ranks(
                        #[trigger] sorted[j],
                    )
                &&& spread.p5 == value_at(sorted, S::of_ratio(5, 100))
                &&& spread.p50 == value_at(sorted, S::of_ratio(50, 100))
                &&& spread.p95 == value_at(sorted, S::of_ratio(95, 100))
            },
{
    let sorted = choose|sorted: Seq<S>|
        {
            &&& #[trigger] ranked_from(sorted, values)
            &&& spread.p5 == value_at(sorted, S::of_ratio(5, 100))
            &&& spread.p50 == value_at(sorted, S::of_ratio(50, 100))
            &&& spread.p95 == value_at(sorted, S::of_ratio(95, 100))
        };
    assert(sorted.to_multiset() == values.to_multiset());
}

/// On exact amounts the lower end of a spread does not rank after its middle, nor that
/// after the upper end.
pub proof fn law_a_spread_is_in_order(spread: Spread<Amount>, values: Seq<Amount>)
    requires
        0 < values.len() <= 1_000_000_000,
        spread.spans(values),
    ensures
        spread.p5 is Some && spread.p50 is Some && spread.p95 is Some,
        spread.p5 == spread.p50 || (spread.p5->0).ranks(spread.p50->0),
        spread.p50 == spread.p95 || (spread.p50->0).ranks(spread.p95->0),
{
    let low = Amount::of_ratio(5, 100);
    let half = Amount::of_ratio(50, 100);
    let high = Amount::of_ratio(95, 100);
    let sorted = choose|sorted: Seq<Amount>|
        {
            &&& #[trigger] ranked_from(sorted, values)
            &&& spread.p5 == value_at(sorted, low)
            &&& spread.p50 == value_at(sorted, half)
            &&& spread.p95 == value_at(sorted, high)
        };
    assert(sorted.len() == values.len()) by {
        broadcast use vstd::seq_lib::group_to_multiset_ensures;

        assert(sorted.to_multiset().len() == values.to_multiset().len());
    }
    lemma_place(sorted.len(), low);
    lemma_place(sorted.len(), half);
    lemma_place(sorted.len(), high);
    let n = sorted.len() - 1;
    assert(n * 5_000_000 <= n * 50_000_000 <= n * 95_000_000) by (nonlinear_arith)
        requires
            n >= 0,
    ;
    assert(nearest_place(sorted.len(), low) <= nearest_place(sorted.len(), half));
    assert(nearest_place(sorted.len(), half) <= nearest_place(sorted.len(), high));
}

} // verus!
