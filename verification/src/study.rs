//! Studies that run one history more than once: under different costs, stakes,
//! thresholds, or cut into periods.

use vstd::prelude::*;
use crate::align::{
    aligned_from, alignable, assemble, eligible_feeds, shared_bars, Misaligned, FEED_DAILY_CANDLES,
    FEED_FOUR_HOUR_CANDLES, MIN_FEEDS,
};
use crate::backtest::{buy_and_hold, held, simulate, walk, walked, SimResult};
use crate::costs::{no_costs, CostModel};
use crate::exchange::Candle;
use crate::number::{lemma_zero, zero, Lawful, Number};
use crate::portfolio::{
    common_bars, held_equally, portfolio_buy_and_hold, portfolio_walked, simulate_portfolio,
    PortfolioState, SymbolFeed,
};
use crate::report::{return_of, total_return, win_rate_of, TradeStats};
use crate::strategy::{default_params, StrategyParams};
use crate::text::{decimal, text_of_count};

verus! {

// ---------------------------------------------------------------------------
// One symbol
// ---------------------------------------------------------------------------

/// Too little history to study.
#[derive(Debug, Clone, Copy, PartialEq, Eq, Structural)]
pub enum ShortHistory {
    Daily(usize),
    FourHour(usize),
}

impl ShortHistory {
    pub open spec fn message(self) -> Seq<char> {
        match self {
            ShortHistory::Daily(n) => "Only "@ + decimal(n as nat)
                + " daily candles available, need 210+"@,
            ShortHistory::FourHour(n) => "Only "@ + decimal(n as nat)
                + " 4H candles available, need 50+"@,
        }
    }

    pub fn describe(self) -> (r: String)
        ensures
            r@ == self.message(),
    {
        let mut text = String::from_str("Only ");
        match self {
            ShortHistory::Daily(n) => {
                text.append(text_of_count(n as u64).as_str());
                text.append(" daily candles available, need 210+");
            },
            ShortHistory::FourHour(n) => {
                text.append(text_of_count(n as u64).as_str());
                text.append(" 4H candles available, need 50+");
            },
        }
        text
    }
}

/// A history walked with and without costs, and held over the same window.
#[derive(Debug)]
pub struct SymbolStudy<S> {
    pub gross: SimResult<S>,
    pub net: SimResult<S>,
    /// Final balance and deepest drawdown of holding from the first bar that
    /// cleared the warmup.
    pub hold: Option<(S, S)>,
}

proof fn lemma_first_bar<S: Number>(
    daily: Seq<Candle<S>>,
    four_hour: Seq<Candle<S>>,
    costs: CostModel<S>,
    risk_per_trade: S,
    params: StrategyParams<S>,
    n: nat,
)
    requires
        n <= four_hour.len(),
    ensures
        walk(daily, four_hour, costs, risk_per_trade, params, n).first_bar matches Some(first)
            ==> 0 <= first < n,
    decreases n,
{
    if n > 0 {
        lemma_first_bar(daily, four_hour, costs, risk_per_trade, params, (n - 1) as nat);
    }
}

impl<S: Number> SymbolStudy<S> {
    /// Whether this is what the two passes over a history, and holding it, came to.
    pub open spec fn studies(
        self,
        daily: Seq<Candle<S>>,
        four_hour: Seq<Candle<S>>,
        costs: CostModel<S>,
        risk_per_trade: S,
        params: StrategyParams<S>,
    ) -> bool {
        let net = walked(daily, four_hour, costs, risk_per_trade, params);
        &&& self.gross.reports(walked(daily, four_hour, no_costs::<S>(), risk_per_trade, params))
        &&& self.net.reports(net)
        &&& self.hold == (match net.first_bar {
            Some(first) => Some(held(four_hour.skip(first), costs)),
            None => None,
        })
    }
}

/// Runs the history of one symbol twice. The frictionless pass isolates what the
/// strategy found; the costed pass is what an account would have kept.
pub fn backtest_symbol<S: Number>(
    symbol: &str,
    daily: &[Candle<S>],
    four_hour: &[Candle<S>],
    costs: &CostModel<S>,
    risk_per_trade: S,
    params: &StrategyParams<S>,
) -> (r: Result<SymbolStudy<S>, ShortHistory>)
    requires
        four_hour@.len() <= u32::MAX,
    ensures
        match r {
            Err(ShortHistory::Daily(n)) => daily@.len() < FEED_DAILY_CANDLES && n == daily@.len(),
            Err(ShortHistory::FourHour(n)) => daily@.len() >= FEED_DAILY_CANDLES
                && four_hour@.len() < FEED_FOUR_HOUR_CANDLES && n == four_hour@.len(),
            Ok(study) => {
                let net = walked(daily@, four_hour@, *costs, risk_per_trade, *params);
                &&& daily@.len() >= FEED_DAILY_CANDLES
                &&& four_hour@.len() >= FEED_FOUR_HOUR_CANDLES
                &&& study.gross.reports(
                    walked(daily@, four_hour@, no_costs::<S>(), risk_per_trade, *params),
                )
                &&& study.net.reports(net)
                &&& study.net.diagnostics.consistent()
                &&& study.hold == (match net.first_bar {
                    Some(first) => Some(held(four_hour@.skip(first), *costs)),
                    None => None,
                })
                &&& study.net.first_bar matches Some(first) ==> first < four_hour@.len()
                &&& study.studies(daily@, four_hour@, *costs, risk_per_trade, *params)
            },
        },
{
    if daily.len() < FEED_DAILY_CANDLES {
        return Err(ShortHistory::Daily(daily.len()));
    }
    if four_hour.len() < FEED_FOUR_HOUR_CANDLES {
        return Err(ShortHistory::FourHour(four_hour.len()));
    }
    let free = CostModel::frictionless();
    let gross = simulate(symbol, daily, four_hour, &free, risk_per_trade, params);
    let net = simulate(symbol, daily, four_hour, costs, risk_per_trade, params);
    proof {
        lemma_first_bar(
            daily@,
            four_hour@,
            *costs,
            risk_per_trade,
            *params,
            four_hour@.len(),
        );
    }
    let hold = match net.first_bar {
        Some(first) => {
            let rest = vstd::slice::slice_subrange(four_hour, first, four_hour.len());
            assert(rest@ =~= four_hour@.skip(first as int));
            Some(buy_and_hold(rest, costs))
        },
        None => None,
    };
    Ok(SymbolStudy { gross, net, hold })
}

// ---------------------------------------------------------------------------
// Position size
// ---------------------------------------------------------------------------

/// The stakes of the position-size sweep, in tenths of a percent of equity.
pub open spec fn stakes() -> Seq<i64> {
    seq![15i64, 30, 50, 100, 150, 200, 300]
}

fn stake_list() -> (r: Vec<i64>)
    ensures
        r@ == stakes(),
{
    let r: Vec<i64> = vec![15, 30, 50, 100, 150, 200, 300];
    assert(r@ =~= stakes());
    r
}

/// The same signals at one stake.
#[derive(Debug, Clone, Copy, PartialEq)]
pub struct StakeRow<S> {
    /// Percent of equity at risk in a trade.
    pub risk_pct: S,
    pub final_balance: S,
    pub total_return: S,
    pub max_drawdown: S,
    /// Return over drawdown. `None` stands for infinity, where nothing was drawn down.
    pub ratio: Option<S>,
}

pub open spec fn stake_row<S: Number>(
    daily: Seq<Candle<S>>,
    four_hour: Seq<Candle<S>>,
    costs: CostModel<S>,
    params: StrategyParams<S>,
    tenths: i64,
) -> StakeRow<S> {
    let risk_pct = S::of_ratio(tenths as int, 10);
    let end = walked(daily, four_hour, costs, risk_pct.quotient(S::of_ratio(100, 1)), params);
    let ret = return_of(end.balance);
    StakeRow {
        risk_pct,
        final_balance: end.balance,
        total_return: ret,
        max_drawdown: end.drawdown.deepest,
        ratio: if zero::<S>().lt(end.drawdown.deepest) {
            Some(ret.quotient(end.drawdown.deepest))
        } else {
            None
        },
    }
}

/// Runs the same signals at a range of stakes.
pub fn sweep_stakes<S: Number>(
    symbol: &str,
    daily: &[Candle<S>],
    four_hour: &[Candle<S>],
    costs: &CostModel<S>,
    params: &StrategyParams<S>,
) -> (r: Vec<StakeRow<S>>)
    requires
        four_hour@.len() <= u32::MAX,
    ensures
        r@ == stakes().map_values(
            |tenths: i64| stake_row(daily@, four_hour@, *costs, *params, tenths),
        ),
{
    let steps = stake_list();
    let ghost wanted = stakes().map_values(
        |tenths: i64| stake_row(daily@, four_hour@, *costs, *params, tenths),
    );
    let mut rows: Vec<StakeRow<S>> = Vec::new();
    let mut i: usize = 0;
    while i < steps.len()
        invariant
            i <= steps@.len(),
            steps@ == stakes(),
            four_hour@.len() <= u32::MAX,
            wanted == stakes().map_values(
                |tenths: i64| stake_row(daily@, four_hour@, *costs, *params, tenths),
            ),
            rows@ == wanted.take(i as int),
        decreases steps@.len() - i,
    {
        let risk_pct = S::ratio(steps[i], 10);
        let result = simulate(
            symbol,
            daily,
            four_hour,
            costs,
            risk_pct.over(S::ratio(100, 1)),
            params,
        );
        let ret = total_return(result.final_balance);
        let ratio = if S::ratio(0, 1).below(result.max_drawdown) {
            Some(ret.over(result.max_drawdown))
        } else {
            None
        };
        rows.push(
            StakeRow {
                risk_pct,
                final_balance: result.final_balance,
                total_return: ret,
                max_drawdown: result.max_drawdown,
                ratio,
            },
        );
        assert(rows@ =~= wanted.take(i + 1));
        i = i + 1;
    }
    assert(wanted.take(i as int) =~= wanted);
    rows
}

// ---------------------------------------------------------------------------
// Periods
// ---------------------------------------------------------------------------

/// Where the profit of a split history comes from.
#[derive(Debug, Clone, Copy, PartialEq, Eq, Structural)]
pub enum SplitVerdict {
    /// Present in the first half only: a warning sign, not a result.
    FirstHalfOnly,
    /// Present in the later period only.
    LaterOnly,
    /// Both halves agree.
    Neither,
}

/// A history cut in half, each half run by itself.
#[derive(Debug)]
pub struct PeriodSplit<S> {
    pub in_sample: SimResult<S>,
    pub out_sample: SimResult<S>,
    pub verdict: SplitVerdict,
}

/// Where a history whose warmup ends at `first` is cut.
pub open spec fn middle(first: int, len: int) -> int {
    first + (len - first) / 2
}

pub open spec fn verdict_of<S: Number>(first: S, second: S) -> SplitVerdict {
    if zero::<S>().lt(first) && second.le(zero::<S>()) {
        SplitVerdict::FirstHalfOnly
    } else if first.le(zero::<S>()) && zero::<S>().lt(second) {
        SplitVerdict::LaterOnly
    } else {
        SplitVerdict::Neither
    }
}

impl<S: Number> PeriodSplit<S> {
    /// Whether this is what the two parts of a history, cut at `mid`, came to.
    pub open spec fn splits(
        self,
        daily: Seq<Candle<S>>,
        four_hour: Seq<Candle<S>>,
        costs: CostModel<S>,
        risk_per_trade: S,
        params: StrategyParams<S>,
        first: int,
        mid: int,
    ) -> bool {
        let a = walked(daily, four_hour.subrange(first, mid), costs, risk_per_trade, params);
        let b = walked(daily, four_hour.skip(mid), costs, risk_per_trade, params);
        &&& self.in_sample.reports(a)
        &&& self.out_sample.reports(b)
        &&& self.verdict == verdict_of(return_of(a.balance), return_of(b.balance))
    }
}

/// Runs each half of a history by itself. The second gets its whole daily warmup, so
/// it is a genuine out-of-sample run and not a truncated one.
pub fn split_periods<S: Number>(
    symbol: &str,
    daily: &[Candle<S>],
    four_hour: &[Candle<S>],
    costs: &CostModel<S>,
    risk_per_trade: S,
    first_bar: Option<usize>,
    params: &StrategyParams<S>,
) -> (r: Option<PeriodSplit<S>>)
    requires
        four_hour@.len() <= u32::MAX,
        first_bar matches Some(first) ==> first <= four_hour@.len(),
    ensures
        match (first_bar, r) {
            (None, _) => r is None,
            (Some(first), None) => !(first < middle(first as int, four_hour@.len() as int)
                < four_hour@.len()),
            (Some(first), Some(split)) => {
                let mid = middle(first as int, four_hour@.len() as int);
                let a = walked(
                    daily@,
                    four_hour@.subrange(first as int, mid),
                    *costs,
                    risk_per_trade,
                    *params,
                );
                let b = walked(daily@, four_hour@.skip(mid), *costs, risk_per_trade, *params);
                &&& first < mid < four_hour@.len()
                &&& split.in_sample.reports(a)
                &&& split.out_sample.reports(b)
                &&& split.verdict == verdict_of(return_of(a.balance), return_of(b.balance))
                &&& split.splits(
                    daily@,
                    four_hour@,
                    *costs,
                    risk_per_trade,
                    *params,
                    first as int,
                    mid,
                )
            },
        },
{
    let first: usize = match first_bar {
        Some(first) => first,
        None => return None,
    };
    let mid: usize = first + (four_hour.len() - first) / 2;
    if mid <= first || mid >= four_hour.len() {
        return None;
    }
    let earlier = vstd::slice::slice_subrange(four_hour, first, mid);
    let later = vstd::slice::slice_subrange(four_hour, mid, four_hour.len());
    assert(later@ =~= four_hour@.skip(mid as int));
    let in_sample = simulate(symbol, daily, earlier, costs, risk_per_trade, params);
    let out_sample = simulate(symbol, daily, later, costs, risk_per_trade, params);
    let zero = S::ratio(0, 1);
    let a = total_return(in_sample.final_balance);
    let b = total_return(out_sample.final_balance);
    let verdict = if zero.below(a) && b.at_most(zero) {
        SplitVerdict::FirstHalfOnly
    } else if a.at_most(zero) && zero.below(b) {
        SplitVerdict::LaterOnly
    } else {
        SplitVerdict::Neither
    };
    Some(PeriodSplit { in_sample, out_sample, verdict })
}

// ---------------------------------------------------------------------------
// Portfolio
// ---------------------------------------------------------------------------

/// A portfolio walked over aligned feeds, and held in equal weights over the same
/// window.
#[derive(Debug)]
pub struct PortfolioStudy<S> {
    pub feeds: Vec<SymbolFeed<S>>,
    pub result: SimResult<S>,
    /// Most positions open at once.
    pub concurrent_peak: usize,
    /// Final balance and deepest drawdown of the equal-weight holding.
    pub hold: (S, S),
}

proof fn lemma_few_bars<S>(feeds: Seq<SymbolFeed<S>>)
    requires
        feeds.len() > 0,
    ensures
        common_bars(feeds) <= feeds[0].four_hour@.len(),
    decreases feeds.len(),
{
    if feeds.len() > 1 {
        lemma_few_bars(feeds.drop_last());
    }
}

/// Whether evaluating every bar of every feed can be counted.
pub open spec fn countable<S>(feeds: Seq<SymbolFeed<S>>) -> bool {
    forall|f: int|
        0 <= f < feeds.len() ==> (#[trigger] feeds[f]).four_hour@.len() * feeds.len() <= u32::MAX
}

proof fn lemma_taken<S>(feeds: Seq<SymbolFeed<S>>, i: int) -> (f: int)
    requires
        0 <= i < eligible_feeds(feeds).len(),
    ensures
        0 <= f < feeds.len(),
        feeds[f] == eligible_feeds(feeds)[i],
    decreases feeds.len(),
{
    reveal(Seq::filter);
    let before = feeds.drop_last();
    if i < eligible_feeds(before).len() {
        lemma_taken(before, i)
    } else {
        feeds.len() - 1
    }
}

proof fn lemma_countable<S>(feeds: Seq<SymbolFeed<S>>, aligned: Seq<SymbolFeed<S>>)
    requires
        countable(feeds),
        eligible_feeds(feeds).len() > 0,
        aligned_from(aligned, eligible_feeds(feeds)),
    ensures
        common_bars(aligned) * aligned.len() <= u32::MAX,
{
    broadcast use vstd::seq_lib::group_filter_ensures;

    let taken = eligible_feeds(feeds);
    lemma_few_bars(aligned);
    let bars = taken[0].four_hour@;
    assert(aligned[0].four_hour@ == shared_bars(taken, bars));
    let f = lemma_taken(feeds, 0);
    assert(feeds[f].four_hour@.len() * feeds.len() <= u32::MAX);
    let a = common_bars(aligned);
    let b = bars.len();
    let m = aligned.len();
    let n = feeds.len();
    assert(a * m <= b * n) by (nonlinear_arith)
        requires
            a <= b,
            m <= n,
    ;
}

/// Runs the feeds that have history enough, aligned, against one balance. `None`
/// where too few of them have.
pub fn portfolio_backtest<S: Number>(
    feeds: Vec<SymbolFeed<S>>,
    costs: &CostModel<S>,
    risk_per_trade: S,
    params: &StrategyParams<S>,
) -> (r: Result<Option<PortfolioStudy<S>>, Misaligned>)
    requires
        countable(feeds@),
    ensures
        ({
            let taken = eligible_feeds(feeds@);
            match r {
                Ok(None) => taken.len() < MIN_FEEDS,
                Err(_) => taken.len() >= MIN_FEEDS && !alignable(taken),
                Ok(Some(study)) => {
                    let end = portfolio_walked(study.feeds@, *costs, risk_per_trade, *params);
                    &&& taken.len() >= MIN_FEEDS
                    &&& alignable(taken)
                    &&& aligned_from(study.feeds@, taken)
                    &&& end.comes_to(study.result)
                    &&& study.concurrent_peak == end.book.concurrent_peak
                    &&& study.hold == held_equally(
                        study.feeds@,
                        *costs,
                        match end.first_bar {
                            Some(first) => first,
                            None => 0,
                        },
                    )
                    &&& common_bars(study.feeds@) * study.feeds@.len() <= u32::MAX
                },
            }
        }),
{
    match assemble(feeds) {
        Err(misaligned) => Err(misaligned),
        Ok(None) => Ok(None),
        Ok(Some(aligned)) => {
            proof {
                lemma_countable(feeds@, aligned@);
            }
            let (result, concurrent_peak) = simulate_portfolio(
                &aligned,
                costs,
                risk_per_trade,
                params,
            );
            let first: usize = match result.first_bar {
                Some(first) => first,
                None => 0,
            };
            let hold = portfolio_buy_and_hold(&aligned, costs, first);
            Ok(Some(PortfolioStudy { feeds: aligned, result, concurrent_peak, hold }))
        },
    }
}

/// The entry and exit buffers of the threshold sweep, in tenths of an ATR.
pub open spec fn buffers() -> Seq<(i64, i64)> {
    seq![(0i64, 0i64), (0, 5), (0, 10), (5, 5), (5, 10), (10, 10), (10, 20)]
}

fn buffer_list() -> (r: Vec<(i64, i64)>)
    ensures
        r@ == buffers(),
{
    let r: Vec<(i64, i64)> = vec![
        (0, 0),
        (0, 5),
        (0, 10),
        (5, 5),
        (5, 10),
        (10, 10),
        (10, 20),
    ];
    assert(r@ =~= buffers());
    r
}

/// The same portfolio under one pair of thresholds.
#[derive(Debug, Clone, Copy, PartialEq)]
pub struct BufferRow<S> {
    pub entry_buffer_atr: S,
    pub exit_buffer_atr: S,
    pub final_balance: S,
    pub total_return: S,
    pub trades: usize,
    /// In percent.
    pub win_rate: S,
    pub max_drawdown: S,
}

/// The default rules with one pair of thresholds, in tenths of an ATR.
pub open spec fn buffered_params<S: Number>(entry: i64, exit: i64) -> StrategyParams<S> {
    StrategyParams {
        entry_buffer_atr: S::of_ratio(entry as int, 10),
        exit_buffer_atr: S::of_ratio(exit as int, 10),
        ..default_params::<S>()
    }
}

impl<S: Number> BufferRow<S> {
    /// Whether this is what a walk under these thresholds came to.
    pub open spec fn reports(self, params: StrategyParams<S>, end: PortfolioState<S>) -> bool {
        &&& self.entry_buffer_atr == params.entry_buffer_atr
        &&& self.exit_buffer_atr == params.exit_buffer_atr
        &&& self.final_balance == end.book.balance
        &&& self.total_return == return_of(end.book.balance)
        &&& self.trades == end.book.trades.len()
        &&& self.win_rate == win_rate_of(end.book.trades)
        &&& self.max_drawdown == end.drawdown.deepest
    }
}

/// Runs the portfolio under a range of thresholds.
///
/// With one line for entry and exit, a price that hovers there makes a buy, a
/// stop-out on noise and a buy again, and each round trip pays fees and slippage. A
/// buffer sets the two thresholds apart.
pub fn sweep_buffers<S: Number>(
    feeds: &Vec<SymbolFeed<S>>,
    costs: &CostModel<S>,
    risk_per_trade: S,
) -> (r: Vec<BufferRow<S>>)
    requires
        common_bars(feeds@) * feeds@.len() <= u32::MAX,
    ensures
        r@.len() == buffers().len(),
        forall|i: int|
            0 <= i < buffers().len() ==> {
                let params = buffered_params::<S>(buffers()[i].0, buffers()[i].1);
                (#[trigger] r@[i]).reports(
                    params,
                    portfolio_walked(feeds@, *costs, risk_per_trade, params),
                )
            },
{
    let steps = buffer_list();
    let mut rows: Vec<BufferRow<S>> = Vec::new();
    let mut i: usize = 0;
    while i < steps.len()
        invariant
            i <= steps@.len(),
            steps@ == buffers(),
            common_bars(feeds@) * feeds@.len() <= u32::MAX,
            rows@.len() == i,
            forall|k: int|
                0 <= k < i ==> {
                    let params = buffered_params::<S>(buffers()[k].0, buffers()[k].1);
                    (#[trigger] rows@[k]).reports(
                        params,
                        portfolio_walked(feeds@, *costs, risk_per_trade, params),
                    )
                },
        decreases steps@.len() - i,
    {
        let (entry, exit) = steps[i];
        let mut params = StrategyParams::<S>::default();
        params.entry_buffer_atr = S::ratio(entry, 10);
        params.exit_buffer_atr = S::ratio(exit, 10);
        assert(params == buffered_params::<S>(entry, exit));
        let (result, _) = simulate_portfolio(feeds, costs, risk_per_trade, &params);
        let stats = TradeStats::from_trades(&result.trades);
        rows.push(
            BufferRow {
                entry_buffer_atr: params.entry_buffer_atr,
                exit_buffer_atr: params.exit_buffer_atr,
                final_balance: result.final_balance,
                total_return: total_return(result.final_balance),
                trades: result.trades.len(),
                win_rate: stats.win_rate,
                max_drawdown: result.max_drawdown,
            },
        );
        i = i + 1;
    }
    rows
}

/// The entry rules that are swept: the ceiling of the RSI band, and whether MACD must
/// have crossed recently.
pub open spec fn gates() -> Seq<(i64, bool)> {
    seq![
        (55i64, true),
        (60, true),
        (65, true),
        (70, true),
        (55, false),
        (60, false),
        (65, false),
        (70, false),
    ]
}

fn gate_list() -> (r: Vec<(i64, bool)>)
    ensures
        r@ == gates(),
{
    let r: Vec<(i64, bool)> = vec![
        (55, true),
        (60, true),
        (65, true),
        (70, true),
        (55, false),
        (60, false),
        (65, false),
        (70, false),
    ];
    assert(r@ =~= gates());
    r
}

/// The same portfolio behind one pair of entry gates.
#[derive(Debug, Clone, Copy, PartialEq)]
pub struct GateRow<S> {
    pub rsi_min: S,
    pub rsi_max: S,
    pub macd_require_cross: bool,
    pub final_balance: S,
    pub total_return: S,
    pub trades: usize,
    /// In percent.
    pub win_rate: S,
    pub max_drawdown: S,
}

/// The rules `params` with one pair of entry gates.
pub open spec fn gated_params<S: Number>(
    params: StrategyParams<S>,
    rsi_max: i64,
    require_cross: bool,
) -> StrategyParams<S> {
    StrategyParams {
        rsi_max: S::of_ratio(rsi_max as int, 1),
        macd_require_cross: require_cross,
        ..params
    }
}

impl<S: Number> GateRow<S> {
    /// Whether this is what a walk behind these gates came to.
    pub open spec fn reports(self, params: StrategyParams<S>, end: PortfolioState<S>) -> bool {
        &&& self.rsi_min == params.rsi_min
        &&& self.rsi_max == params.rsi_max
        &&& self.macd_require_cross == params.macd_require_cross
        &&& self.final_balance == end.book.balance
        &&& self.total_return == return_of(end.book.balance)
        &&& self.trades == end.book.trades.len()
        &&& self.win_rate == win_rate_of(end.book.trades)
        &&& self.max_drawdown == end.drawdown.deepest
    }
}

/// Runs the portfolio behind a range of entry gates.
///
/// The ceiling of the RSI band and the recent cross are what limits how often the
/// rules trade. More trades is not more profit: each round trip pays fees and
/// slippage.
pub fn sweep_gates<S: Number>(
    feeds: &Vec<SymbolFeed<S>>,
    costs: &CostModel<S>,
    risk_per_trade: S,
    params: &StrategyParams<S>,
) -> (r: Vec<GateRow<S>>)
    requires
        common_bars(feeds@) * feeds@.len() <= u32::MAX,
    ensures
        r@.len() == gates().len(),
        forall|i: int|
            0 <= i < gates().len() ==> {
                let gated = gated_params(*params, gates()[i].0, gates()[i].1);
                (#[trigger] r@[i]).reports(
                    gated,
                    portfolio_walked(feeds@, *costs, risk_per_trade, gated),
                )
            },
{
    let steps = gate_list();
    let mut rows: Vec<GateRow<S>> = Vec::new();
    let mut i: usize = 0;
    while i < steps.len()
        invariant
            i <= steps@.len(),
            steps@ == gates(),
            common_bars(feeds@) * feeds@.len() <= u32::MAX,
            rows@.len() == i,
            forall|k: int|
                0 <= k < i ==> {
                    let gated = gated_params(*params, gates()[k].0, gates()[k].1);
                    (#[trigger] rows@[k]).reports(
                        gated,
                        portfolio_walked(feeds@, *costs, risk_per_trade, gated),
                    )
                },
        decreases steps@.len() - i,
    {
        let (rsi_max, require_cross) = steps[i];
        let mut gated = *params;
        gated.rsi_max = S::ratio(rsi_max, 1);
        gated.macd_require_cross = require_cross;
        assert(gated == gated_params(*params, rsi_max, require_cross));
        let (result, _) = simulate_portfolio(feeds, costs, risk_per_trade, &gated);
        let stats = TradeStats::from_trades(&result.trades);
        rows.push(
            GateRow {
                rsi_min: gated.rsi_min,
                rsi_max: gated.rsi_max,
                macd_require_cross: gated.macd_require_cross,
                final_balance: result.final_balance,
                total_return: total_return(result.final_balance),
                trades: result.trades.len(),
                win_rate: stats.win_rate,
                max_drawdown: result.max_drawdown,
            },
        );
        i = i + 1;
    }
    rows
}

// ---------------------------------------------------------------------------
// Laws
// ---------------------------------------------------------------------------

/// A stake is told in percent and risked as a fraction: a tenth of a percent is a
/// thousandth of the equity. The row is what the walk at that stake came to, and its ratio
/// is the return over the drawdown where there was one.
pub proof fn law_a_stake_is_risked_as_a_fraction<S: Number>(
    daily: Seq<Candle<S>>,
    four_hour: Seq<Candle<S>>,
    costs: CostModel<S>,
    params: StrategyParams<S>,
    tenths: i64,
)
    ensures
        ({
            let row = stake_row(daily, four_hour, costs, params, tenths);
            let end = walked(
                daily,
                four_hour,
                costs,
                row.risk_pct.quotient(S::of_ratio(100, 1)),
                params,
            );
            &&& row.risk_pct == S::of_ratio(tenths as int, 10)
            &&& row.final_balance == end.balance
            &&& row.total_return == return_of(row.final_balance)
            &&& row.max_drawdown == end.drawdown.deepest
            &&& S::of_ratio(0, 1).lt(row.max_drawdown) ==> row.ratio == Some(
                row.total_return.quotient(row.max_drawdown),
            )
            &&& !S::of_ratio(0, 1).lt(row.max_drawdown) ==> row.ratio is None
        }),
{
}

/// What the sweeps go through: stakes from one and a half to thirty percent, each larger
/// than the last; pairs of thresholds where the exit is never nearer than the entry, the
/// first of them none at all; and four ceilings of the RSI band, with and without a recent
/// cross.
pub proof fn law_what_is_swept()
    ensures
        stakes().len() == 7,
        stakes()[0] == 15,
        stakes()[6] == 300,
        forall|i: int, j: int|
            0 <= i < j < stakes().len() ==> #[trigger] stakes()[i] < #[trigger] stakes()[j],
        stakes().contains(30) && stakes().contains(50) && stakes().contains(100)
            && stakes().contains(150) && stakes().contains(200),
        buffers().len() == 7,
        buffers()[0] == (0i64, 0i64),
        forall|i: int|
            0 <= i < buffers().len() ==> 0 <= (#[trigger] buffers()[i]).0 <= buffers()[i].1,
        buffers().contains((0, 5)) && buffers().contains((0, 10)) && buffers().contains((5, 5))
            && buffers().contains((5, 10)) && buffers().contains((10, 10)) && buffers().contains(
            (10, 20),
        ),
        gates().len() == 8,
        forall|i: int|
            0 <= i < 4 ==> (#[trigger] gates()[i]).0 == 55 + 5 * i && gates()[i].1 && gates()[i
                + 4] == (gates()[i].0, false),
{
    let s = stakes();
    assert(s[1] == 30 && s[2] == 50 && s[3] == 100 && s[4] == 150 && s[5] == 200);
    let b = buffers();
    assert(b[1] == (0i64, 5i64) && b[2] == (0i64, 10i64) && b[3] == (5i64, 5i64));
    assert(b[4] == (5i64, 10i64) && b[5] == (10i64, 10i64) && b[6] == (10i64, 20i64));
}

/// A history is cut in the middle of what follows its warmup: the later part is as long as
/// the earlier one, or one bar longer.
pub proof fn law_the_halves_are_even(first: int, len: int)
    requires
        0 <= first <= len,
    ensures
        first <= middle(first, len) <= len,
        middle(first, len) - first <= len - middle(first, len) <= middle(first, len) - first + 1,
{
}

/// A verdict says in which half alone there was a profit, and that neither half stands out
/// where both have one or none does.
pub proof fn law_a_verdict_names_the_half<S: Lawful>(first: S, second: S)
    requires
        !first.is_undefined(),
        !second.is_undefined(),
    ensures
        verdict_of(first, second) is FirstHalfOnly <==> S::of_ratio(0, 1).lt(first) && !S::of_ratio(
            0,
            1,
        ).lt(second),
        verdict_of(first, second) is LaterOnly <==> S::of_ratio(0, 1).lt(second) && !S::of_ratio(
            0,
            1,
        ).lt(first),
        verdict_of(first, second) is Neither <==> S::of_ratio(0, 1).lt(first) == S::of_ratio(
            0,
            1,
        ).lt(second),
{
    lemma_zero::<S>();
    S::law_total(zero::<S>(), first);
    S::law_total(zero::<S>(), second);
}

/// A sweep changes what it sweeps and nothing else: thresholds in tenths of an ATR on the
/// default rules, and the ceiling of the RSI band with the cross on the rules given.
pub proof fn law_a_sweep_changes_one_thing<S: Number>(
    params: StrategyParams<S>,
    entry: i64,
    exit: i64,
    rsi_max: i64,
    require_cross: bool,
)
    ensures
        ({
            let buffered = buffered_params::<S>(entry, exit);
            let defaults = default_params::<S>();
            &&& buffered.entry_buffer_atr == S::of_ratio(entry as int, 10)
            &&& buffered.exit_buffer_atr == S::of_ratio(exit as int, 10)
            &&& buffered == (StrategyParams {
                entry_buffer_atr: buffered.entry_buffer_atr,
                exit_buffer_atr: buffered.exit_buffer_atr,
                ..defaults
            })
        }),
        ({
            let gated = gated_params(params, rsi_max, require_cross);
            &&& gated.rsi_max == S::of_ratio(rsi_max as int, 1)
            &&& gated.macd_require_cross == require_cross
            &&& gated == (StrategyParams {
                rsi_max: gated.rsi_max,
                macd_require_cross: gated.macd_require_cross,
                ..params
            })
        }),
{
}

/// A row of a sweep says which rules were run and what the walk came to.
pub proof fn law_a_row_is_of_its_walk<S: Number>(
    buffered: BufferRow<S>,
    gated: GateRow<S>,
    params: StrategyParams<S>,
    end: PortfolioState<S>,
)
    requires
        buffered.reports(params, end),
        gated.reports(params, end),
    ensures
        buffered.entry_buffer_atr == params.entry_buffer_atr,
        buffered.exit_buffer_atr == params.exit_buffer_atr,
        buffered.final_balance == end.book.balance && gated.final_balance == end.book.balance,
        buffered.total_return == return_of(end.book.balance) && gated.total_return == return_of(
            end.book.balance,
        ),
        buffered.trades == end.book.trades.len() && gated.trades == end.book.trades.len(),
        buffered.win_rate == win_rate_of(end.book.trades) && gated.win_rate == win_rate_of(
            end.book.trades,
        ),
        buffered.max_drawdown == end.drawdown.deepest && gated.max_drawdown
            == end.drawdown.deepest,
        gated.rsi_min == params.rsi_min,
        gated.rsi_max == params.rsi_max,
        gated.macd_require_cross == params.macd_require_cross,
{
}

/// How much history a study needs, and what it says where there is less.
pub proof fn law_short_histories_are_named(n: usize)
    ensures
        FEED_DAILY_CANDLES == 210,
        FEED_FOUR_HOUR_CANDLES == 50,
        MIN_FEEDS == 2,
        ShortHistory::Daily(n).message() == "Only "@ + decimal(n as nat)
            + " daily candles available, need 210+"@,
        ShortHistory::FourHour(n).message() == "Only "@ + decimal(n as nat)
            + " 4H candles available, need 50+"@,
{
}

/// What a study of one symbol compares: the run without costs, in which fills are at the
/// quote and free; the run with them; and holding over the bars from the first that the
/// costed run counted, under the same costs.
pub proof fn law_what_a_study_compares<S: Number>(
    study: SymbolStudy<S>,
    daily: Seq<Candle<S>>,
    four_hour: Seq<Candle<S>>,
    costs: CostModel<S>,
    risk_per_trade: S,
    params: StrategyParams<S>,
    free: CostModel<S>,
)
    requires
        study.studies(daily, four_hour, costs, risk_per_trade, params),
        free.taker_fee == S::of_ratio(0, 1),
        free.maker_fee == S::of_ratio(0, 1),
        free.slippage == S::of_ratio(0, 1),
    ensures
        study.gross.reports(walked(daily, four_hour, free, risk_per_trade, params)),
        study.net.reports(walked(daily, four_hour, costs, risk_per_trade, params)),
        study.net.first_bar is None ==> study.hold is None,
        study.net.first_bar matches Some(first) ==> study.hold == Some(
            held(four_hour.subrange(first as int, four_hour.len() as int), costs),
        ),
{
    assert(free == no_costs::<S>());
    if let Some(first) = study.net.first_bar {
        assert(four_hour.skip(first as int) =~= four_hour.subrange(
            first as int,
            four_hour.len() as int,
        ));
    }
}

/// What a split compares: the run over the bars before the cut with the run over those from
/// it on, each with all the days, by what each made of its ten thousand.
pub proof fn law_what_a_split_compares<S: Lawful>(
    split: PeriodSplit<S>,
    daily: Seq<Candle<S>>,
    four_hour: Seq<Candle<S>>,
    costs: CostModel<S>,
    risk_per_trade: S,
    params: StrategyParams<S>,
    first: int,
    mid: int,
)
    requires
        0 <= first <= mid <= four_hour.len(),
        split.splits(daily, four_hour, costs, risk_per_trade, params, first, mid),
        !return_of(split.in_sample.final_balance).is_undefined(),
        !return_of(split.out_sample.final_balance).is_undefined(),
    ensures
        split.in_sample.reports(
            walked(daily, four_hour.subrange(first, mid), costs, risk_per_trade, params),
        ),
        split.out_sample.reports(
            walked(
                daily,
                four_hour.subrange(mid, four_hour.len() as int),
                costs,
                risk_per_trade,
                params,
            ),
        ),
        ({
            let early = S::of_ratio(0, 1).lt(return_of(split.in_sample.final_balance));
            let late = S::of_ratio(0, 1).lt(return_of(split.out_sample.final_balance));
            &&& split.verdict is FirstHalfOnly <==> early && !late
            &&& split.verdict is LaterOnly <==> late && !early
            &&& split.verdict is Neither <==> early == late
        }),
{
    assert(four_hour.skip(mid) =~= four_hour.subrange(mid, four_hour.len() as int));
    law_a_verdict_names_the_half(
        return_of(split.in_sample.final_balance),
        return_of(split.out_sample.final_balance),
    );
}

} // verus!
