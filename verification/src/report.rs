//! The figures a simulation is judged by.

use vstd::prelude::*;
use crate::amount::{Amount, SCALE};
use crate::backtest::{starting_balance, Diagnostics, SimResult, SimTrade};
use crate::number::{lemma_zero, total, zero, Lawful, Number};

verus! {

/// Four-hour bars in a day: the cadence of evaluation.
pub const BARS_PER_DAY: i64 = 6;

pub open spec fn hundred<S: Number>() -> S {
    S::of_ratio(100, 1)
}

/// The return on the starting balance, in percent.
pub open spec fn return_of<S: Number>(balance: S) -> S {
    let start = starting_balance::<S>();
    balance.difference(start).quotient(start).product(hundred::<S>())
}

/// The return on the starting balance, in percent.
pub fn total_return<S: Number>(balance: S) -> (r: S)
    ensures
        r == return_of(balance),
{
    let start = S::ratio(10_000, 1);
    balance.minus(start).over(start).times(S::ratio(100, 1))
}

// ---------------------------------------------------------------------------
// Trade statistics
// ---------------------------------------------------------------------------

/// The trades that made money.
pub open spec fn winners_of<S: Number>(trades: Seq<SimTrade<S>>) -> Seq<SimTrade<S>> {
    trades.filter(|t: SimTrade<S>| zero::<S>().lt(t.pnl))
}

/// The trades that did not.
pub open spec fn losers_of<S: Number>(trades: Seq<SimTrade<S>>) -> Seq<SimTrade<S>> {
    trades.filter(|t: SimTrade<S>| t.pnl.le(zero::<S>()))
}

/// What trades made together.
pub open spec fn pnl_of<S: Number>(trades: Seq<SimTrade<S>>) -> S {
    total(trades.map_values(|t: SimTrade<S>| t.pnl))
}

/// What trades paid in fees together.
pub open spec fn fees_of<S: Number>(trades: Seq<SimTrade<S>>) -> S {
    total(trades.map_values(|t: SimTrade<S>| t.fees))
}

/// What a trade made on average, zero where there is none.
pub open spec fn mean_pnl<S: Number>(trades: Seq<SimTrade<S>>) -> S {
    if trades.len() > 0 {
        pnl_of(trades).quotient(S::of_ratio(trades.len() as int, 1))
    } else {
        zero::<S>()
    }
}

/// The share of trades that made money, in percent.
pub open spec fn win_rate_of<S: Number>(trades: Seq<SimTrade<S>>) -> S {
    if trades.len() > 0 {
        S::of_ratio(winners_of(trades).len() as int, 1).quotient(
            S::of_ratio(trades.len() as int, 1),
        ).product(hundred::<S>())
    } else {
        zero::<S>()
    }
}

/// Gains over losses. `None` stands for infinity, where nothing was lost.
pub open spec fn profit_factor_of<S: Number>(trades: Seq<SimTrade<S>>) -> Option<S> {
    let won = winners_of(trades);
    let lost = losers_of(trades);
    let avg_loss = mean_pnl(lost);
    if avg_loss.same(zero::<S>()) {
        None
    } else {
        Some(
            mean_pnl(won).product(S::of_ratio(won.len() as int, 1)).quotient(
                avg_loss.magnitude().product(S::of_ratio(lost.len() as int, 1)),
            ),
        )
    }
}

/// What a list of trades amounts to.
#[derive(Debug, Clone, Copy, PartialEq)]
pub struct TradeStats<S> {
    pub total_trades: usize,
    pub winners: usize,
    pub losers: usize,
    pub total_pnl: S,
    pub avg_win: S,
    pub avg_loss: S,
    /// In percent.
    pub win_rate: S,
    /// `None` stands for infinity.
    pub profit_factor: Option<S>,
}

/// What a list of trades amounts to.
pub open spec fn stats_of<S: Number>(trades: Seq<SimTrade<S>>) -> TradeStats<S> {
    TradeStats {
        total_trades: trades.len() as usize,
        winners: winners_of(trades).len() as usize,
        losers: losers_of(trades).len() as usize,
        total_pnl: pnl_of(trades),
        avg_win: mean_pnl(winners_of(trades)),
        avg_loss: mean_pnl(losers_of(trades)),
        win_rate: win_rate_of(trades),
        profit_factor: profit_factor_of(trades),
    }
}

proof fn lemma_filter_step<S: Number>(
    trades: Seq<SimTrade<S>>,
    i: int,
    keep: spec_fn(SimTrade<S>) -> bool,
)
    requires
        0 <= i < trades.len(),
    ensures
        trades.take(i + 1).filter(keep) == (if keep(trades[i]) {
            trades.take(i).filter(keep).push(trades[i])
        } else {
            trades.take(i).filter(keep)
        }),
        trades.take(i + 1).filter(keep).len() <= i + 1,
{
    reveal(Seq::filter);
    broadcast use vstd::seq_lib::group_filter_ensures;

    assert(trades.take(i + 1).drop_last() =~= trades.take(i));
}

proof fn lemma_pnl_push<S: Number>(trades: Seq<SimTrade<S>>, trade: SimTrade<S>)
    ensures
        pnl_of(trades.push(trade)) == pnl_of(trades).sum(trade.pnl),
{
    let pnls = trades.push(trade).map_values(|t: SimTrade<S>| t.pnl);
    assert(pnls.drop_last() =~= trades.map_values(|t: SimTrade<S>| t.pnl));
}

impl<S: Number> TradeStats<S> {
    pub fn from_trades(trades: &Vec<SimTrade<S>>) -> (r: Self)
        ensures
            r.total_trades == trades@.len(),
            r.winners == winners_of(trades@).len(),
            r.losers == losers_of(trades@).len(),
            r.total_pnl == pnl_of(trades@),
            r.avg_win == mean_pnl(winners_of(trades@)),
            r.avg_loss == mean_pnl(losers_of(trades@)),
            r.win_rate == win_rate_of(trades@),
            r.profit_factor == profit_factor_of(trades@),
            r == stats_of(trades@),
    {
        let zero = S::ratio(0, 1);
        let ghost won = |t: SimTrade<S>| zero.lt(t.pnl);
        let ghost lost = |t: SimTrade<S>| t.pnl.le(zero);
        let mut winners: usize = 0;
        let mut losers: usize = 0;
        let mut gained = zero;
        let mut given = zero;
        let mut total_pnl = zero;
        let mut i: usize = 0;
        proof {
            reveal(Seq::filter);
            let none = trades@.take(0);
            assert(none.filter(won).map_values(|t: SimTrade<S>| t.pnl) =~= Seq::<S>::empty());
            assert(none.filter(lost).map_values(|t: SimTrade<S>| t.pnl) =~= Seq::<S>::empty());
            assert(none.map_values(|t: SimTrade<S>| t.pnl) =~= Seq::<S>::empty());
        }
        while i < trades.len()
            invariant
                i <= trades@.len(),
                zero == S::of_ratio(0, 1),
                won == (|t: SimTrade<S>| zero.lt(t.pnl)),
                lost == (|t: SimTrade<S>| t.pnl.le(zero)),
                winners == trades@.take(i as int).filter(won).len(),
                losers == trades@.take(i as int).filter(lost).len(),
                winners <= i,
                losers <= i,
                gained == pnl_of(trades@.take(i as int).filter(won)),
                given == pnl_of(trades@.take(i as int).filter(lost)),
                total_pnl == pnl_of(trades@.take(i as int)),
            decreases trades@.len() - i,
        {
            let trade = &trades[i];
            proof {
                lemma_filter_step(trades@, i as int, won);
                lemma_filter_step(trades@, i as int, lost);
                lemma_pnl_push(trades@.take(i as int).filter(won), *trade);
                lemma_pnl_push(trades@.take(i as int).filter(lost), *trade);
                lemma_pnl_push(trades@.take(i as int), *trade);
                assert(trades@.take(i as int).push(*trade) =~= trades@.take(i + 1));
            }
            if zero.below(trade.pnl) {
                winners = winners + 1;
                gained = gained.plus(trade.pnl);
            }
            if trade.pnl.at_most(zero) {
                losers = losers + 1;
                given = given.plus(trade.pnl);
            }
            total_pnl = total_pnl.plus(trade.pnl);
            i = i + 1;
        }
        proof {
            assert(trades@.take(i as int) =~= trades@);
            assert(trades@.filter(won) == winners_of(trades@));
            assert(trades@.filter(lost) == losers_of(trades@));
        }
        let avg_win = if winners > 0 {
            gained.over(S::count(winners as u64))
        } else {
            zero
        };
        let avg_loss = if losers > 0 {
            given.over(S::count(losers as u64))
        } else {
            zero
        };
        let win_rate = if trades.len() > 0 {
            S::count(winners as u64).over(S::count(trades.len() as u64)).times(S::ratio(100, 1))
        } else {
            zero
        };
        let profit_factor = if avg_loss.equals(zero) {
            None
        } else {
            Some(
                avg_win.times(S::count(winners as u64)).over(
                    avg_loss.abs().times(S::count(losers as u64)),
                ),
            )
        };
        TradeStats {
            total_trades: trades.len(),
            winners,
            losers,
            total_pnl,
            avg_win,
            avg_loss,
            win_rate,
            profit_factor,
        }
    }
}

// ---------------------------------------------------------------------------
// Signal diagnostics
// ---------------------------------------------------------------------------

/// A count as a share of the evaluations, in percent. Without any evaluation it is
/// a share of one.
pub open spec fn share_of<S: Number>(n: int, evaluated: int) -> S {
    S::of_ratio(n, 1).quotient(at_least_one(evaluated)).product(hundred::<S>())
}

pub open spec fn at_least_one<S: Number>(n: int) -> S {
    S::of_ratio(
        if n > 1 {
            n
        } else {
            1
        },
        1,
    )
}

/// How many days the evaluations cover. Each bar makes one per symbol.
pub open spec fn days_of<S: Number>(evaluated: int, symbols: int) -> S {
    at_least_one::<S>(evaluated).quotient(
        S::of_ratio(BARS_PER_DAY as int, 1).product(at_least_one(symbols)),
    )
}

/// How often each condition held, as shares.
#[derive(Debug, Clone, Copy, PartialEq)]
pub struct SignalShares<S> {
    pub days: S,
    pub trend: S,
    pub rsi: S,
    pub macd: S,
    pub rr: S,
    pub all_aligned: S,
    /// Days between two signals on average, where there was one.
    pub gap_days: Option<S>,
}

/// How often each condition held, as shares of the evaluations.
pub open spec fn shares_of<S: Number>(d: Diagnostics, symbols: int) -> SignalShares<S> {
    let evaluated = d.evaluated as int;
    SignalShares {
        days: days_of(evaluated, symbols),
        trend: share_of(d.trend as int, evaluated),
        rsi: share_of(d.rsi as int, evaluated),
        macd: share_of(d.macd as int, evaluated),
        rr: share_of(d.rr as int, evaluated),
        all_aligned: share_of(d.all_aligned as int, evaluated),
        gap_days: if d.all_aligned > 0 {
            Some(
                days_of::<S>(evaluated, symbols).quotient(S::of_ratio(d.all_aligned as int, 1)),
            )
        } else {
            None
        },
    }
}

fn one_or_more<S: Number>(n: u64) -> (r: S)
    ensures
        r == at_least_one::<S>(n as int),
{
    if n > 1 {
        S::count(n)
    } else {
        S::count(1)
    }
}

impl<S: Number> SignalShares<S> {
    pub fn from_diagnostics(d: &Diagnostics, symbols: usize) -> (r: Self)
        ensures
            r.days == days_of::<S>(d.evaluated as int, symbols as int),
            r.trend == share_of::<S>(d.trend as int, d.evaluated as int),
            r.rsi == share_of::<S>(d.rsi as int, d.evaluated as int),
            r.macd == share_of::<S>(d.macd as int, d.evaluated as int),
            r.rr == share_of::<S>(d.rr as int, d.evaluated as int),
            r.all_aligned == share_of::<S>(d.all_aligned as int, d.evaluated as int),
            r.gap_days == (if d.all_aligned > 0 {
                Some(
                    days_of::<S>(d.evaluated as int, symbols as int).quotient(
                        S::of_ratio(d.all_aligned as int, 1),
                    ),
                )
            } else {
                None
            }),
            r == shares_of::<S>(*d, symbols as int),
    {
        let evaluated = one_or_more::<S>(d.evaluated as u64);
        let per_day = S::ratio(BARS_PER_DAY, 1).times(one_or_more(symbols as u64));
        let hundred = S::ratio(100, 1);
        let days = evaluated.over(per_day);
        SignalShares {
            days,
            trend: S::count(d.trend as u64).over(evaluated).times(hundred),
            rsi: S::count(d.rsi as u64).over(evaluated).times(hundred),
            macd: S::count(d.macd as u64).over(evaluated).times(hundred),
            rr: S::count(d.rr as u64).over(evaluated).times(hundred),
            all_aligned: S::count(d.all_aligned as u64).over(evaluated).times(hundred),
            gap_days: if d.all_aligned > 0 {
                Some(days.over(S::count(d.all_aligned as u64)))
            } else {
                None
            },
        }
    }
}

// ---------------------------------------------------------------------------
// Comparisons
// ---------------------------------------------------------------------------

/// The same history with and without execution costs.
#[derive(Debug, Clone, Copy, PartialEq)]
pub struct CostImpact<S> {
    pub gross_return: S,
    pub net_return: S,
    pub fees: S,
    /// What the costs took, in currency.
    pub drag: S,
    /// What the costs did to the return, in points.
    pub drag_points: S,
    /// There was a profit before costs and is none after them.
    pub edge_lost: bool,
}

/// The same history with and without execution costs, beside each other.
pub open spec fn impact_of<S: Number>(gross: SimResult<S>, net: SimResult<S>) -> CostImpact<S> {
    CostImpact {
        gross_return: return_of(gross.final_balance),
        net_return: return_of(net.final_balance),
        fees: fees_of(net.trades@),
        drag: gross.final_balance.difference(net.final_balance),
        drag_points: return_of(net.final_balance).difference(return_of(gross.final_balance)),
        edge_lost: net.final_balance.le(starting_balance::<S>()) && starting_balance::<S>().lt(
            gross.final_balance,
        ),
    }
}

impl<S: Number> CostImpact<S> {
    pub fn compare(gross: &SimResult<S>, net: &SimResult<S>) -> (r: Self)
        ensures
            r.gross_return == return_of(gross.final_balance),
            r.net_return == return_of(net.final_balance),
            r.fees == fees_of(net.trades@),
            r.drag == gross.final_balance.difference(net.final_balance),
            r.drag_points == return_of(net.final_balance).difference(
                return_of(gross.final_balance),
            ),
            r.edge_lost == (net.final_balance.le(starting_balance::<S>())
                && starting_balance::<S>().lt(gross.final_balance)),
            r == impact_of(*gross, *net),
    {
        let ghost paid = net.trades@.map_values(|t: SimTrade<S>| t.fees);
        let mut fees = S::ratio(0, 1);
        let mut i: usize = 0;
        while i < net.trades.len()
            invariant
                i <= net.trades@.len(),
                paid == net.trades@.map_values(|t: SimTrade<S>| t.fees),
                fees == total(paid.take(i as int)),
            decreases net.trades@.len() - i,
        {
            fees = fees.plus(net.trades[i].fees);
            proof {
                assert(paid.take(i + 1).drop_last() =~= paid.take(i as int));
            }
            i = i + 1;
        }
        assert(paid.take(i as int) =~= paid);
        let start = S::ratio(10_000, 1);
        let gross_return = total_return(gross.final_balance);
        let net_return = total_return(net.final_balance);
        CostImpact {
            gross_return,
            net_return,
            fees,
            drag: gross.final_balance.minus(net.final_balance),
            drag_points: net_return.minus(gross_return),
            edge_lost: net.final_balance.at_most(start) && start.below(gross.final_balance),
        }
    }
}

/// A strategy beside holding over the same window.
#[derive(Debug, Clone, Copy, PartialEq)]
pub struct Benchmark<S> {
    pub strategy_return: S,
    pub hold_return: S,
    /// Points the strategy is ahead of holding.
    pub edge: S,
    /// Points by which holding is ahead, where it is.
    pub shortfall: Option<S>,
}

/// A strategy beside holding, by what each left.
pub open spec fn benchmark_of<S: Number>(strategy_balance: S, hold_balance: S) -> Benchmark<S> {
    let edge = return_of(strategy_balance).difference(return_of(hold_balance));
    Benchmark {
        strategy_return: return_of(strategy_balance),
        hold_return: return_of(hold_balance),
        edge,
        shortfall: if edge.lt(zero::<S>()) {
            Some(edge.negation())
        } else {
            None
        },
    }
}

impl<S: Number> Benchmark<S> {
    pub fn compare(strategy_balance: S, hold_balance: S) -> (r: Self)
        ensures
            r.strategy_return == return_of(strategy_balance),
            r.hold_return == return_of(hold_balance),
            r.edge == return_of(strategy_balance).difference(return_of(hold_balance)),
            r.shortfall == (if r.edge.lt(zero::<S>()) {
                Some(r.edge.negation())
            } else {
                None
            }),
            r == benchmark_of(strategy_balance, hold_balance),
    {
        let strategy_return = total_return(strategy_balance);
        let hold_return = total_return(hold_balance);
        let edge = strategy_return.minus(hold_return);
        let shortfall = if edge.below(S::ratio(0, 1)) {
            Some(edge.neg())
        } else {
            None
        };
        Benchmark { strategy_return, hold_return, edge, shortfall }
    }
}

// ---------------------------------------------------------------------------
// Laws
// ---------------------------------------------------------------------------

/// Every trade with a result is a winner or a loser, and none is both.
pub proof fn law_winners_and_losers<S: Lawful>(trades: Seq<SimTrade<S>>)
    requires
        forall|i: int| 0 <= i < trades.len() ==> !(#[trigger] trades[i]).pnl.is_undefined(),
    ensures
        winners_of(trades).len() + losers_of(trades).len() == trades.len(),
    decreases trades.len(),
{
    reveal(Seq::filter);
    if trades.len() > 0 {
        let before = trades.drop_last();
        assert forall|i: int| 0 <= i < before.len() implies !(
        #[trigger] before[i]).pnl.is_undefined() by {
            assert(before[i] == trades[i]);
        }
        law_winners_and_losers(before);
        assert(!trades[trades.len() - 1].pnl.is_undefined());
        lemma_zero::<S>();
        S::law_total(zero::<S>(), trades.last().pnl);
    }
}

/// A return is what a balance is away from ten thousand, in percent of it.
pub proof fn law_a_return_is_on_the_ten_thousand<S: Number>(balance: S)
    ensures
        return_of(balance) == balance.difference(S::of_ratio(10_000, 1)).quotient(
            S::of_ratio(10_000, 1),
        ).product(S::of_ratio(100, 1)),
{
}

/// On exact amounts a balance of ten thousand is a return of nothing, and of two balances
/// the larger has no smaller return.
pub proof fn law_a_larger_balance_returns_more(balance: Amount, other: Amount)
    requires
        return_of(balance) is Units,
        return_of(other) is Units,
        balance.le(other),
    ensures
        return_of(balance).le(return_of(other)),
        return_of(Amount::of_ratio(10_000, 1)) == Amount::Units(0),
{
    let s = SCALE as int;
    let a = balance->0 - 10_000 * s;
    let b = other->0 - 10_000 * s;
    let start = 10_000 * s;
    assert((a * s) / start <= (b * s) / start && ((a * s) / start) * (100 * s) / s <= ((b * s)
        / start) * (100 * s) / s) by (nonlinear_arith)
        requires
            a <= b,
            s == 100_000_000,
            start == 10_000 * s,
    ;
    assert((0 * s) / start == 0 && (0 * (100 * s)) / s == 0) by (nonlinear_arith)
        requires
            s == 100_000_000,
            start == 10_000 * s,
    ;
}

/// One more trade: it counts as a winner where it made something, as a loser where it did
/// not, and its profit and its fees are added.
pub proof fn law_one_more_trade<S: Number>(trades: Seq<SimTrade<S>>, trade: SimTrade<S>)
    ensures
        winners_of(Seq::<SimTrade<S>>::empty()).len() == 0,
        losers_of(Seq::<SimTrade<S>>::empty()).len() == 0,
        winners_of(trades.push(trade)) == if S::of_ratio(0, 1).lt(trade.pnl) {
            winners_of(trades).push(trade)
        } else {
            winners_of(trades)
        },
        losers_of(trades.push(trade)) == if trade.pnl.le(S::of_ratio(0, 1)) {
            losers_of(trades).push(trade)
        } else {
            losers_of(trades)
        },
        pnl_of(Seq::<SimTrade<S>>::empty()) == S::of_ratio(0, 1),
        pnl_of(trades.push(trade)) == pnl_of(trades).sum(trade.pnl),
        fees_of(Seq::<SimTrade<S>>::empty()) == S::of_ratio(0, 1),
        fees_of(trades.push(trade)) == fees_of(trades).sum(trade.fees),
{
    reveal(Seq::filter);
    let longer = trades.push(trade);
    assert(longer.drop_last() =~= trades);
    lemma_pnl_push(trades, trade);
    let none = Seq::<SimTrade<S>>::empty();
    assert(none.map_values(|t: SimTrade<S>| t.pnl) =~= Seq::<S>::empty());
    assert(none.map_values(|t: SimTrade<S>| t.fees) =~= Seq::<S>::empty());
    let fees = |t: SimTrade<S>| t.fees;
    assert(longer.map_values(fees).drop_last() =~= trades.map_values(fees));
    assert(longer.map_values(fees).last() == trade.fees);
}

/// What the averages and ratios of a list of trades are: a mean is the sum over the count,
/// a win rate the winners in percent of all, and a profit factor what the winners made over
/// what the losers lost, each taken as a mean times a count. An empty list has means and a
/// rate of nothing, and no loss leaves the factor out.
pub proof fn law_trade_ratios<S: Number>(trades: Seq<SimTrade<S>>)
    ensures
        trades.len() == 0 ==> mean_pnl(trades) == S::of_ratio(0, 1) && win_rate_of(trades)
            == S::of_ratio(0, 1),
        trades.len() > 0 ==> mean_pnl(trades) == pnl_of(trades).quotient(
            S::of_ratio(trades.len() as int, 1),
        ),
        trades.len() > 0 ==> win_rate_of(trades) == S::of_ratio(
            winners_of(trades).len() as int,
            1,
        ).quotient(S::of_ratio(trades.len() as int, 1)).product(S::of_ratio(100, 1)),
        profit_factor_of(trades) is None <==> mean_pnl(losers_of(trades)).same(S::of_ratio(0, 1)),
        profit_factor_of(trades) matches Some(factor) ==> factor == mean_pnl(
            winners_of(trades),
        ).product(S::of_ratio(winners_of(trades).len() as int, 1)).quotient(
            mean_pnl(losers_of(trades)).magnitude().product(
                S::of_ratio(losers_of(trades).len() as int, 1),
            ),
        ),
{
}

/// On exact amounts a win rate lies between nothing and a hundred percent, and is a
/// hundred where every trade won.
pub proof fn law_a_win_rate_is_a_share(trades: Seq<SimTrade<Amount>>)
    requires
        0 < trades.len() <= 1_000_000,
    ensures
        win_rate_of(trades) is Units,
        0 <= win_rate_of(trades)->0 <= 100 * SCALE,
        winners_of(trades).len() == 0 ==> win_rate_of(trades)->0 == 0,
        winners_of(trades).len() == trades.len() ==> win_rate_of(trades)->0 == 100 * SCALE,
{
    broadcast use vstd::seq_lib::group_filter_ensures;

    let s = SCALE as int;
    let w = winners_of(trades).len() as int;
    let n = trades.len() as int;
    assert(w <= n);
    let share = ((w * s) * s) / (n * s);
    assert(0 <= share <= s && (w == 0 ==> share == 0) && (w == n ==> share == s))
        by (nonlinear_arith)
        requires
            0 <= w <= n,
            n > 0,
            s == 100_000_000,
            share == ((w * s) * s) / (n * s),
    ;
    assert((share * (100 * s)) / s == 100 * share) by (nonlinear_arith)
        requires
            s == 100_000_000,
    ;
}

/// A count as a share of the evaluations is in percent of them, and of one where there are
/// none. Six evaluations of a symbol make a day.
pub proof fn law_shares_of_the_evaluations<S: Number>(n: int, evaluated: int, symbols: int)
    requires
        0 <= evaluated,
        0 <= symbols,
    ensures
        evaluated >= 1 ==> share_of::<S>(n, evaluated) == S::of_ratio(n, 1).quotient(
            S::of_ratio(evaluated, 1),
        ).product(S::of_ratio(100, 1)),
        evaluated == 0 ==> share_of::<S>(n, evaluated) == S::of_ratio(n, 1).quotient(
            S::of_ratio(1, 1),
        ).product(S::of_ratio(100, 1)),
        evaluated >= 1 && symbols >= 1 ==> days_of::<S>(evaluated, symbols) == S::of_ratio(
            evaluated,
            1,
        ).quotient(S::of_ratio(6, 1).product(S::of_ratio(symbols, 1))),
        days_of::<S>(0, symbols) == days_of::<S>(1, symbols),
        days_of::<S>(evaluated, 0) == days_of::<S>(evaluated, 1),
{
}

/// Each figure of a list of trades is its own: the counts of all, of winners and of losers,
/// what they made together, what a winner and what a loser made on average, the rate and
/// the factor.
pub proof fn law_figures_of_a_list_of_trades<S: Number>(trades: Seq<SimTrade<S>>)
    requires
        trades.len() <= usize::MAX,
    ensures
        ({
            let stats = stats_of(trades);
            &&& stats.total_trades == trades.len()
            &&& stats.winners == winners_of(trades).len()
            &&& stats.losers == losers_of(trades).len()
            &&& stats.total_pnl == pnl_of(trades)
            &&& stats.avg_win == mean_pnl(winners_of(trades))
            &&& stats.avg_loss == mean_pnl(losers_of(trades))
            &&& stats.win_rate == win_rate_of(trades)
            &&& stats.profit_factor == profit_factor_of(trades)
        }),
{
    broadcast use vstd::seq_lib::group_filter_ensures;

}

/// Each condition has its own share, and a signal comes as many days apart as there are days
/// for each signal; without any signal there is nothing to say.
pub proof fn law_shares_of_each_condition<S: Number>(d: Diagnostics, symbols: int)
    ensures
        ({
            let shares = shares_of::<S>(d, symbols);
            let evaluated = d.evaluated as int;
            &&& shares.trend == share_of::<S>(d.trend as int, evaluated)
            &&& shares.rsi == share_of::<S>(d.rsi as int, evaluated)
            &&& shares.macd == share_of::<S>(d.macd as int, evaluated)
            &&& shares.rr == share_of::<S>(d.rr as int, evaluated)
            &&& shares.all_aligned == share_of::<S>(d.all_aligned as int, evaluated)
            &&& shares.days == days_of::<S>(evaluated, symbols)
            &&& d.all_aligned == 0 ==> shares.gap_days is None
            &&& d.all_aligned > 0 ==> shares.gap_days == Some(
                shares.days.quotient(S::of_ratio(d.all_aligned as int, 1)),
            )
        }),
{
}

/// What costs do to a result: the drag is what the costed run is short of the other, in
/// currency, and the points are what its return differs by. The edge is lost where the run
/// without costs ended above ten thousand and the costed one did not.
pub proof fn law_what_costs_do<S: Lawful>(gross: SimResult<S>, net: SimResult<S>)
    ensures
        ({
            let impact = impact_of(gross, net);
            &&& impact.gross_return == return_of(gross.final_balance)
            &&& impact.net_return == return_of(net.final_balance)
            &&& impact.fees == fees_of(net.trades@)
            &&& impact.drag == gross.final_balance.difference(net.final_balance)
            &&& impact.drag_points == impact.net_return.difference(impact.gross_return)
            &&& impact.edge_lost <==> S::of_ratio(10_000, 1).lt(gross.final_balance)
                && net.final_balance.le(S::of_ratio(10_000, 1))
            &&& !impact.drag.is_undefined() && net.final_balance.le(gross.final_balance)
                ==> S::of_ratio(0, 1).le(impact.drag)
        }),
{
    if !gross.final_balance.difference(net.final_balance).is_undefined() {
        S::law_difference(gross.final_balance, net.final_balance);
    }
}

/// A strategy and holding, compared: on exact amounts the edge is the strategy's return less
/// that of holding. Holding is ahead exactly where there is a shortfall, which is the edge
/// the other way round; comparing them the other way round turns the edge round.
pub proof fn law_holding_is_ahead_or_not(strategy: Amount, hold: Amount)
    requires
        return_of(strategy) is Units,
        return_of(hold) is Units,
        benchmark_of(strategy, hold).edge is Units,
        benchmark_of(hold, strategy).edge is Units,
    ensures
        ({
            let seen = benchmark_of(strategy, hold);
            let turned = benchmark_of(hold, strategy);
            &&& seen.strategy_return == return_of(strategy)
            &&& seen.hold_return == return_of(hold)
            &&& seen.edge->0 == return_of(strategy)->0 - return_of(hold)->0
            &&& turned.edge->0 == -seen.edge->0
            &&& seen.shortfall is Some <==> return_of(strategy)->0 < return_of(hold)->0
            &&& seen.shortfall matches Some(short) ==> short == turned.edge
        }),
{
}

/// The comparison in any arithmetic: the edge is the difference of the returns, and the
/// shortfall its negation where it is below zero.
pub proof fn law_a_comparison_of_returns<S: Number>(strategy: S, hold: S)
    ensures
        ({
            let seen = benchmark_of(strategy, hold);
            &&& seen.strategy_return == return_of(strategy)
            &&& seen.hold_return == return_of(hold)
            &&& seen.edge == return_of(strategy).difference(return_of(hold))
            &&& seen.edge.lt(S::of_ratio(0, 1)) ==> seen.shortfall == Some(seen.edge.negation())
            &&& !seen.edge.lt(S::of_ratio(0, 1)) ==> seen.shortfall is None
        }),
{
}

} // verus!
