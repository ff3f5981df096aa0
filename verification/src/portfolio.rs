//! Historical simulation of several symbols against one shared balance.
//!
//! Cash is accounted properly here rather than booking profit on exit: with
//! concurrent positions, what limits the next entry is the cash left after the
//! previous ones.

use vstd::prelude::*;
use crate::amount::{Amount, SCALE};
use crate::backtest::{
    absorbed, between_levels, booked, closes_at, enter, entered, exit_charge, exit_cost, held, held_drawdown,
    lemma_drawdown_deepens, no_diagnostics, same_bar, settle, settled, snapshot, snapshot_at,
    starting_balance, touch, touched, Diagnostics, Drawdown, ExitReason, SimPosition, SimResult,
    SimTrade,
};
use crate::costs::CostModel;
use crate::exchange::Candle;
use crate::number::{lemma_ordered, lemma_zero, total, zero, Lawful, Number};
use crate::risk::{sized_within, DEFAULT_MAX_OPEN_POSITIONS};
use crate::strategy::{
    conditions_of, decision, evaluate, EntryConditions, IndicatorSnapshot, Signal, StrategyParams,
    MIN_DAILY_CANDLES, MIN_FOUR_HOUR_CANDLES,
};
use crate::text::same_text;

verus! {

/// The candles of one symbol.
#[derive(Debug)]
pub struct SymbolFeed<S> {
    pub symbol: String,
    pub daily: Vec<Candle<S>>,
    pub four_hour: Vec<Candle<S>>,
}

/// An open position in a symbol.
#[derive(Debug, PartialEq)]
pub struct Holding<S> {
    pub symbol: String,
    pub position: SimPosition<S>,
}

impl<S: Number> Clone for Holding<S> {
    fn clone(&self) -> (r: Self)
        ensures
            r == *self,
    {
        Holding { symbol: self.symbol.clone(), position: self.position }
    }
}

/// The last feed of `symbol`.
pub open spec fn feed_of<S>(feeds: Seq<SymbolFeed<S>>, symbol: Seq<char>) -> Option<int>
    decreases feeds.len(),
{
    if feeds.len() == 0 {
        None
    } else if feeds.last().symbol@ == symbol {
        Some(feeds.len() - 1)
    } else {
        feed_of(feeds.drop_last(), symbol)
    }
}

/// The first holding in `symbol` from `from` on.
pub open spec fn holding_from<S>(holdings: Seq<Holding<S>>, symbol: Seq<char>, from: int) -> Option<
    int,
>
    decreases holdings.len() - from,
{
    if from < 0 || from >= holdings.len() {
        None
    } else if holdings[from].symbol@ == symbol {
        Some(from)
    } else {
        holding_from(holdings, symbol, from + 1)
    }
}

/// How many bars every feed has.
pub open spec fn common_bars<S>(feeds: Seq<SymbolFeed<S>>) -> nat
    decreases feeds.len(),
{
    if feeds.len() == 0 {
        0
    } else if feeds.len() == 1 {
        feeds[0].four_hour@.len()
    } else {
        let before = common_bars(feeds.drop_last());
        if feeds.last().four_hour@.len() < before {
            feeds.last().four_hour@.len()
        } else {
            before
        }
    }
}

/// What a holding is worth at bar `j`: marked at the close of its symbol, or at its
/// entry where there is none.
pub open spec fn worth<S: Number>(feeds: Seq<SymbolFeed<S>>, holding: Holding<S>, j: int) -> S {
    holding.position.quantity.product(
        match feed_of(feeds, holding.symbol@) {
            Some(f) => feeds[f].four_hour@[j].close,
            None => holding.position.entry_price,
        },
    )
}

/// What all holdings are worth at bar `j`.
pub open spec fn open_value<S: Number>(
    feeds: Seq<SymbolFeed<S>>,
    holdings: Seq<Holding<S>>,
    j: int,
) -> S {
    total(holdings.map_values(|h: Holding<S>| worth(feeds, h, j)))
}

/// What a position took out of cash: its cost and the entry fee.
pub open spec fn outlay_of<S: Number>(pos: SimPosition<S>) -> S {
    pos.entry_price.product(pos.quantity).sum(pos.entry_fee)
}

/// Cash, holdings and what has come of them.
pub struct BookState<S> {
    pub balance: S,
    pub holdings: Seq<Holding<S>>,
    pub trades: Seq<SimTrade<S>>,
    pub diagnostics: Diagnostics,
    /// Most holdings at any one time.
    pub concurrent_peak: nat,
}

impl<S: Number> BookState<S> {
    /// With holding `i` sold at a quote. The proceeds come in, less the exit fee that
    /// the trade is settled with.
    pub open spec fn with_exit(
        self,
        i: int,
        quote: S,
        reason: ExitReason,
        costs: CostModel<S>,
    ) -> BookState<S> {
        let pos = self.holdings[i].position;
        let trade = settled(pos, quote, reason, costs);
        let proceeds = trade.exit_price.product(pos.quantity);
        BookState {
            balance: self.balance.sum(proceeds.difference(exit_charge(proceeds, reason, costs))),
            holdings: self.holdings.remove(i),
            trades: self.trades.push(trade),
            ..self
        }
    }

    /// After the levels of the holdings from `i` on were held against bar `j`.
    pub open spec fn after_levels(
        self,
        feeds: Seq<SymbolFeed<S>>,
        j: int,
        costs: CostModel<S>,
        i: int,
    ) -> BookState<S>
        decreases self.holdings.len() - i,
    {
        if i < 0 || i >= self.holdings.len() {
            self
        } else {
            match feed_of(feeds, self.holdings[i].symbol@) {
                Some(f) => {
                    let bar = feeds[f].four_hour@[j];
                    match touched(self.holdings[i].position, bar.low, bar.high) {
                        Some((level, reason)) => self.with_exit(
                            i,
                            level,
                            reason,
                            costs,
                        ).after_levels(feeds, j, costs, i),
                        None => self.after_levels(feeds, j, costs, i + 1),
                    }
                },
                None => self.after_levels(feeds, j, costs, i + 1),
            }
        }
    }

    /// After a BUY in `symbol`, where there is room and cash for it. Equity marks
    /// open positions; only cash can fund an entry.
    pub open spec fn after_buy(
        self,
        feeds: Seq<SymbolFeed<S>>,
        symbol: String,
        snap: IndicatorSnapshot<S>,
        j: int,
        costs: CostModel<S>,
        risk_per_trade: S,
    ) -> BookState<S> {
        let equity = self.balance.sum(open_value(feeds, self.holdings, j));
        let pos = entered(
            snap.current_price,
            snap.swing_low,
            equity,
            self.balance,
            risk_per_trade,
            costs,
        );
        let outlay = outlay_of(pos);
        if self.holdings.len() >= DEFAULT_MAX_OPEN_POSITIONS || pos.quantity.le(zero::<S>())
            || self.balance.lt(outlay) {
            self
        } else {
            BookState {
                balance: self.balance.difference(outlay),
                holdings: self.holdings.push(Holding { symbol, position: pos }),
                concurrent_peak: if self.concurrent_peak < self.holdings.len() + 1 {
                    self.holdings.len() + 1
                } else {
                    self.concurrent_peak
                },
                ..self
            }
        }
    }

    /// After the rules were applied to a snapshot of `symbol`.
    pub open spec fn after_signal(
        self,
        feeds: Seq<SymbolFeed<S>>,
        symbol: String,
        snap: IndicatorSnapshot<S>,
        j: int,
        costs: CostModel<S>,
        risk_per_trade: S,
        params: StrategyParams<S>,
    ) -> BookState<S> {
        let held = holding_from(self.holdings, symbol@, 0);
        let noted = BookState {
            diagnostics: self.diagnostics.recorded(conditions_of(snap, params), held is Some),
            ..self
        };
        match (decision(snap, params), held) {
            (Signal::Buy, None) => noted.after_buy(feeds, symbol, snap, j, costs, risk_per_trade),
            (Signal::Sell, Some(i)) => noted.with_exit(
                i,
                snap.current_price,
                ExitReason::Signal,
                costs,
            ),
            _ => noted,
        }
    }

    /// After the first `k` feeds were evaluated at bar `j`.
    pub open spec fn after_feeds(
        self,
        feeds: Seq<SymbolFeed<S>>,
        closed: Seq<int>,
        j: int,
        costs: CostModel<S>,
        risk_per_trade: S,
        params: StrategyParams<S>,
        k: nat,
    ) -> BookState<S>
        decreases k,
    {
        if k == 0 {
            self
        } else {
            let before = self.after_feeds(
                feeds,
                closed,
                j,
                costs,
                risk_per_trade,
                params,
                (k - 1) as nat,
            );
            let feed = feeds[k - 1];
            match snapshot_at(feed.daily@, closed[k - 1], feed.four_hour@.take(j + 1)) {
                Some(snap) => before.after_signal(
                    feeds,
                    feed.symbol,
                    snap,
                    j,
                    costs,
                    risk_per_trade,
                    params,
                ),
                None => before,
            }
        }
    }

    /// With every holding from `i` on marked out at bar `last`.
    pub open spec fn marked_out(
        self,
        feeds: Seq<SymbolFeed<S>>,
        last: int,
        costs: CostModel<S>,
    ) -> BookState<S>
        decreases self.holdings.len(),
    {
        if self.holdings.len() == 0 {
            self
        } else {
            let holding = self.holdings[0];
            let close = match feed_of(feeds, holding.symbol@) {
                Some(f) => feeds[f].four_hour@[last].close,
                None => holding.position.entry_price,
            };
            self.with_exit(0, close, ExitReason::EndOfData, costs).marked_out(feeds, last, costs)
        }
    }
}

/// Where the walk stands after some bars.
pub struct PortfolioState<S> {
    /// Daily candles that have closed, per feed.
    pub closed: Seq<int>,
    pub book: BookState<S>,
    pub drawdown: Drawdown<S>,
    pub first_bar: Option<int>,
}

pub open spec fn portfolio_start<S: Number>(feeds: Seq<SymbolFeed<S>>) -> PortfolioState<S> {
    PortfolioState {
        closed: Seq::new(feeds.len(), |i: int| 0int),
        book: BookState {
            balance: starting_balance::<S>(),
            holdings: Seq::empty(),
            trades: Seq::empty(),
            diagnostics: no_diagnostics(),
            concurrent_peak: 0,
        },
        drawdown: Drawdown::from(starting_balance::<S>()),
        first_bar: None,
    }
}

impl<S: Number> PortfolioState<S> {
    /// Whether `r` is what the walk came to.
    pub open spec fn comes_to(self, r: SimResult<S>) -> bool {
        &&& r.trades@ == self.book.trades
        &&& r.final_balance == self.book.balance
        &&& r.max_drawdown == self.drawdown.deepest
        &&& same_bar(r.first_bar, self.first_bar)
        &&& r.diagnostics == self.book.diagnostics
    }

    /// After bar `j`. The warmup is over only when every symbol has enough daily
    /// history. Exits come first, so freed cash can fund entries on the same bar.
    pub open spec fn after_bar(
        self,
        feeds: Seq<SymbolFeed<S>>,
        j: int,
        costs: CostModel<S>,
        risk_per_trade: S,
        params: StrategyParams<S>,
    ) -> PortfolioState<S> {
        let closed = Seq::new(
            feeds.len(),
            |i: int|
                absorbed(feeds[i].daily@, self.closed[i], feeds[i].four_hour@[j].close_time),
        );
        if (exists|i: int| 0 <= i < feeds.len() && #[trigger] closed[i] < MIN_DAILY_CANDLES) || j
            + 1 < MIN_FOUR_HOUR_CANDLES {
            PortfolioState { closed, ..self }
        } else {
            let book = self.book.after_levels(feeds, j, costs, 0).after_feeds(
                feeds,
                closed,
                j,
                costs,
                risk_per_trade,
                params,
                feeds.len(),
            );
            let equity = book.balance.sum(open_value(feeds, book.holdings, j));
            PortfolioState {
                closed,
                book,
                drawdown: self.drawdown.after(equity, equity),
                first_bar: match self.first_bar {
                    Some(first) => Some(first),
                    None => Some(j),
                },
            }
        }
    }
}

/// Where the walk stands after the first `n` bars.
pub open spec fn portfolio_walk<S: Number>(
    feeds: Seq<SymbolFeed<S>>,
    costs: CostModel<S>,
    risk_per_trade: S,
    params: StrategyParams<S>,
    n: nat,
) -> PortfolioState<S>
    decreases n,
{
    if n == 0 {
        portfolio_start(feeds)
    } else {
        portfolio_walk(feeds, costs, risk_per_trade, params, (n - 1) as nat).after_bar(
            feeds,
            n - 1,
            costs,
            risk_per_trade,
            params,
        )
    }
}

// ---------------------------------------------------------------------------
// The book
// ---------------------------------------------------------------------------

#[derive(Debug)]
struct Book<S> {
    balance: S,
    holdings: Vec<Holding<S>>,
    trades: Vec<SimTrade<S>>,
    diagnostics: Diagnostics,
    concurrent_peak: usize,
}

impl<S: Number> View for Book<S> {
    type V = BookState<S>;

    closed spec fn view(&self) -> BookState<S> {
        BookState {
            balance: self.balance,
            holdings: self.holdings@,
            trades: self.trades@,
            diagnostics: self.diagnostics,
            concurrent_peak: self.concurrent_peak as nat,
        }
    }
}

fn find_feed<S: Number>(feeds: &Vec<SymbolFeed<S>>, symbol: &str) -> (r: Option<usize>)
    ensures
        match r {
            Some(f) => feed_of(feeds@, symbol@) == Some(f as int) && f < feeds@.len(),
            None => feed_of(feeds@, symbol@) is None,
        },
{
    let mut n: usize = feeds.len();
    assert(feeds@.take(n as int) =~= feeds@);
    while n > 0
        invariant
            n <= feeds@.len(),
            feed_of(feeds@, symbol@) == feed_of(feeds@.take(n as int), symbol@),
        decreases n,
    {
        assert(feeds@.take(n as int).drop_last() =~= feeds@.take(n - 1));
        if same_text(feeds[n - 1].symbol.as_str(), symbol) {
            return Some(n - 1);
        }
        n = n - 1;
    }
    None
}

/// Whether every feed has more than `j` bars.
pub open spec fn reaches<S>(feeds: Seq<SymbolFeed<S>>, j: int) -> bool {
    forall|f: int| 0 <= f < feeds.len() ==> j < (#[trigger] feeds[f]).four_hour@.len()
}

impl<S: Number> Book<S> {
    fn find(&self, symbol: &str) -> (r: Option<usize>)
        ensures
            match r {
                Some(i) => holding_from(self@.holdings, symbol@, 0) == Some(i as int) && i
                    < self@.holdings.len(),
                None => holding_from(self@.holdings, symbol@, 0) is None,
            },
    {
        let mut i: usize = 0;
        while i < self.holdings.len()
            invariant
                i <= self.holdings@.len(),
                holding_from(self.holdings@, symbol@, 0) == holding_from(
                    self.holdings@,
                    symbol@,
                    i as int,
                ),
            decreases self.holdings@.len() - i,
        {
            if same_text(self.holdings[i].symbol.as_str(), symbol) {
                return Some(i);
            }
            i = i + 1;
        }
        None
    }

    fn value(&self, feeds: &Vec<SymbolFeed<S>>, j: usize) -> (r: S)
        requires
            reaches(feeds@, j as int),
        ensures
            r == open_value(feeds@, self@.holdings, j as int),
    {
        let ghost marks = self.holdings@.map_values(|h: Holding<S>| worth(feeds@, h, j as int));
        let mut sum = S::ratio(0, 1);
        let mut i: usize = 0;
        while i < self.holdings.len()
            invariant
                i <= self.holdings@.len(),
                reaches(feeds@, j as int),
                marks == self.holdings@.map_values(|h: Holding<S>| worth(feeds@, h, j as int)),
                sum == total(marks.take(i as int)),
            decreases self.holdings@.len() - i,
        {
            let holding = &self.holdings[i];
            let mark = match find_feed(feeds, holding.symbol.as_str()) {
                Some(f) => feeds[f].four_hour[j].close,
                None => holding.position.entry_price,
            };
            sum = sum.plus(holding.position.quantity.times(mark));
            proof {
                assert(marks.take(i + 1).drop_last() =~= marks.take(i as int));
                assert(marks[i as int] == worth(feeds@, *holding, j as int));
            }
            i = i + 1;
        }
        assert(marks.take(i as int) =~= marks);
        sum
    }

    fn exit(&mut self, i: usize, quote: S, reason: ExitReason, costs: &CostModel<S>)
        requires
            i < old(self)@.holdings.len(),
        ensures
            final(self)@ == old(self)@.with_exit(i as int, quote, reason, *costs),
    {
        let pos = self.holdings[i].position;
        let trade = settle(&pos, quote, reason, costs);
        let proceeds = trade.exit_price.times(pos.quantity);
        self.balance = self.balance.plus(proceeds.minus(exit_cost(proceeds, reason, costs)));
        self.trades.push(trade);
        self.holdings.remove(i);
    }

    fn check_levels(&mut self, feeds: &Vec<SymbolFeed<S>>, j: usize, costs: &CostModel<S>)
        requires
            reaches(feeds@, j as int),
        ensures
            final(self)@ == old(self)@.after_levels(feeds@, j as int, *costs, 0),
            final(self)@.diagnostics == old(self)@.diagnostics,
    {
        let mut i: usize = 0;
        while i < self.holdings.len()
            invariant
                i <= self.holdings@.len(),
                reaches(feeds@, j as int),
                self@.after_levels(feeds@, j as int, *costs, i as int) == old(self)@.after_levels(
                    feeds@,
                    j as int,
                    *costs,
                    0,
                ),
                self@.diagnostics == old(self)@.diagnostics,
            decreases self.holdings@.len() - i,
        {
            let pos = self.holdings[i].position;
            let touch = match find_feed(feeds, self.holdings[i].symbol.as_str()) {
                Some(f) => {
                    let bar = &feeds[f].four_hour[j];
                    touch(&pos, bar.low, bar.high)
                },
                None => None,
            };
            match touch {
                Some((level, reason)) => {
                    self.exit(i, level, reason, costs);
                },
                None => {
                    i = i + 1;
                },
            }
        }
    }

    fn buy(
        &mut self,
        feeds: &Vec<SymbolFeed<S>>,
        symbol: &String,
        snap: &IndicatorSnapshot<S>,
        j: usize,
        costs: &CostModel<S>,
        risk_per_trade: S,
    )
        requires
            reaches(feeds@, j as int),
        ensures
            final(self)@ == old(self)@.after_buy(
                feeds@,
                *symbol,
                *snap,
                j as int,
                *costs,
                risk_per_trade,
            ),
            final(self)@.diagnostics == old(self)@.diagnostics,
    {
        if self.holdings.len() >= DEFAULT_MAX_OPEN_POSITIONS {
            return;
        }
        let equity = self.balance.plus(self.value(feeds, j));
        let position = enter(
            snap.current_price,
            snap.swing_low,
            equity,
            self.balance,
            risk_per_trade,
            costs,
        );
        let outlay = position.entry_price.times(position.quantity).plus(position.entry_fee);
        if position.quantity.at_most(S::ratio(0, 1)) || self.balance.below(outlay) {
            return;
        }
        self.balance = self.balance.minus(outlay);
        self.holdings.push(Holding { symbol: symbol.clone(), position });
        if self.concurrent_peak < self.holdings.len() {
            self.concurrent_peak = self.holdings.len();
        }
    }

    fn apply(
        &mut self,
        feeds: &Vec<SymbolFeed<S>>,
        symbol: &String,
        snap: &IndicatorSnapshot<S>,
        j: usize,
        costs: &CostModel<S>,
        risk_per_trade: S,
        params: &StrategyParams<S>,
    )
        requires
            reaches(feeds@, j as int),
            old(self)@.diagnostics.consistent(),
            old(self)@.diagnostics.evaluated < u32::MAX,
        ensures
            final(self)@ == old(self)@.after_signal(
                feeds@,
                *symbol,
                *snap,
                j as int,
                *costs,
                risk_per_trade,
                *params,
            ),
            final(self)@.diagnostics.consistent(),
            final(self)@.diagnostics.evaluated == old(self)@.diagnostics.evaluated + 1,
    {
        let held = self.find(symbol.as_str());
        let conditions = EntryConditions::evaluate(snap, params);
        self.diagnostics.record(&conditions, held.is_some());
        let signal = evaluate(symbol.as_str(), snap, params);
        match (signal.signal, held) {
            (Signal::Buy, None) => self.buy(feeds, symbol, snap, j, costs, risk_per_trade),
            (Signal::Sell, Some(i)) => self.exit(i, snap.current_price, ExitReason::Signal, costs),
            _ => {},
        }
    }

    fn mark_out(&mut self, feeds: &Vec<SymbolFeed<S>>, last: usize, costs: &CostModel<S>)
        requires
            old(self)@.holdings.len() > 0 ==> reaches(feeds@, last as int),
        ensures
            final(self)@ == old(self)@.marked_out(feeds@, last as int, *costs),
            final(self)@.diagnostics == old(self)@.diagnostics,
    {
        while self.holdings.len() > 0
            invariant
                self.holdings@.len() > 0 ==> reaches(feeds@, last as int),
                self@.marked_out(feeds@, last as int, *costs) == old(self)@.marked_out(
                    feeds@,
                    last as int,
                    *costs,
                ),
                self@.diagnostics == old(self)@.diagnostics,
            decreases self.holdings@.len(),
        {
            let close = match find_feed(feeds, self.holdings[0].symbol.as_str()) {
                Some(f) => feeds[f].four_hour[last].close,
                None => self.holdings[0].position.entry_price,
            };
            self.exit(0, close, ExitReason::EndOfData, costs);
        }
    }
}

/// How many bars every feed has.
pub fn count_common_bars<S: Number>(feeds: &Vec<SymbolFeed<S>>) -> (r: usize)
    ensures
        r == common_bars(feeds@),
        forall|j: int| 0 <= j < r ==> #[trigger] reaches(feeds@, j),
        feeds@.len() == 0 ==> r == 0,
{
    if feeds.len() == 0 {
        return 0;
    }
    let mut least: usize = feeds[0].four_hour.len();
    let mut i: usize = 1;
    assert(feeds@.take(1)[0] == feeds@[0]);
    while i < feeds.len()
        invariant
            1 <= i <= feeds@.len(),
            least == common_bars(feeds@.take(i as int)),
            forall|f: int| 0 <= f < i ==> least <= (#[trigger] feeds@[f]).four_hour@.len(),
        decreases feeds@.len() - i,
    {
        proof {
            assert(feeds@.take(i + 1).drop_last() =~= feeds@.take(i as int));
        }
        if feeds[i].four_hour.len() < least {
            least = feeds[i].four_hour.len();
        }
        i = i + 1;
    }
    assert(feeds@.take(i as int) =~= feeds@);
    least
}

/// The daily candles of a feed that have closed so far.
#[derive(Debug)]
struct Cursor<S> {
    closed: usize,
    view: Vec<Candle<S>>,
}

impl<S: Number> Cursor<S> {
    spec fn follows(self, feed: SymbolFeed<S>) -> bool {
        self.closed <= feed.daily@.len() && self.view@ == feed.daily@.take(self.closed as int)
    }

    fn advance(&mut self, feed: &SymbolFeed<S>, time: u64)
        requires
            old(self).follows(*feed),
        ensures
            final(self).follows(*feed),
            final(self).closed == absorbed(feed.daily@, old(self).closed as int, time),
    {
        while self.closed < feed.daily.len() && feed.daily[self.closed].close_time <= time
            invariant
                self.follows(*feed),
                absorbed(feed.daily@, old(self).closed as int, time) == absorbed(
                    feed.daily@,
                    self.closed as int,
                    time,
                ),
            decreases feed.daily@.len() - self.closed,
        {
            self.view.push(feed.daily[self.closed]);
            self.closed = self.closed + 1;
            assert(self.view@ =~= feed.daily@.take(self.closed as int));
        }
    }
}

spec fn all_follow<S: Number>(cursors: Seq<Cursor<S>>, feeds: Seq<SymbolFeed<S>>) -> bool {
    &&& cursors.len() == feeds.len()
    &&& forall|i: int| 0 <= i < feeds.len() ==> (#[trigger] cursors[i]).follows(feeds[i])
}

spec fn closed_counts<S>(cursors: Seq<Cursor<S>>) -> Seq<int> {
    cursors.map_values(|c: Cursor<S>| c.closed as int)
}

fn start_cursors<S: Number>(feeds: &Vec<SymbolFeed<S>>) -> (r: Vec<Cursor<S>>)
    ensures
        all_follow(r@, feeds@),
        closed_counts(r@) == portfolio_start(feeds@).closed,
{
    let mut cursors: Vec<Cursor<S>> = Vec::new();
    let mut i: usize = 0;
    while i < feeds.len()
        invariant
            i <= feeds@.len(),
            cursors@.len() == i,
            forall|k: int|
                0 <= k < i ==> (#[trigger] cursors@[k]).follows(feeds@[k]) && cursors@[k].closed
                    == 0,
        decreases feeds@.len() - i,
    {
        let cursor = Cursor { closed: 0, view: Vec::new() };
        assert(cursor.view@ =~= feeds@[i as int].daily@.take(0));
        cursors.push(cursor);
        i = i + 1;
    }
    assert(closed_counts(cursors@) =~= portfolio_start(feeds@).closed);
    cursors
}

/// Moves every cursor to bar `j`, and says whether any of them still lacks history.
fn advance_cursors<S: Number>(
    cursors: &mut Vec<Cursor<S>>,
    feeds: &Vec<SymbolFeed<S>>,
    j: usize,
) -> (cold: bool)
    requires
        all_follow(old(cursors)@, feeds@),
        reaches(feeds@, j as int),
    ensures
        all_follow(final(cursors)@, feeds@),
        closed_counts(final(cursors)@) == Seq::new(
            feeds@.len(),
            |i: int|
                absorbed(
                    feeds@[i].daily@,
                    closed_counts(old(cursors)@)[i],
                    feeds@[i].four_hour@[j as int].close_time,
                ),
        ),
        cold == (exists|i: int|
            0 <= i < feeds@.len() && #[trigger] closed_counts(final(cursors)@)[i]
                < MIN_DAILY_CANDLES),
{
    let ghost before = cursors@;
    let mut cold = false;
    let mut i: usize = 0;
    while i < feeds.len()
        invariant
            i <= feeds@.len(),
            reaches(feeds@, j as int),
            all_follow(cursors@, feeds@),
            all_follow(before, feeds@),
            forall|k: int| i <= k < feeds@.len() ==> #[trigger] cursors@[k] == before[k],
            forall|k: int|
                0 <= k < i ==> (#[trigger] cursors@[k]).closed == absorbed(
                    feeds@[k].daily@,
                    before[k].closed as int,
                    feeds@[k].four_hour@[j as int].close_time,
                ),
            cold == (exists|k: int|
                0 <= k < i && (#[trigger] cursors@[k]).closed < MIN_DAILY_CANDLES),
        decreases feeds@.len() - i,
    {
        let ghost entry = cursors@;
        cursors[i].advance(&feeds[i], feeds[i].four_hour[j].close_time);
        let fresh = cursors[i].closed < MIN_DAILY_CANDLES;
        proof {
            assert(forall|k: int| 0 <= k < i ==> cursors@[k] == entry[k]);
            if cold {
                let k = choose|k: int|
                    0 <= k < i && (#[trigger] entry[k]).closed < MIN_DAILY_CANDLES;
                assert(cursors@[k].closed < MIN_DAILY_CANDLES);
            }
        }
        cold = cold || fresh;
        i = i + 1;
    }
    proof {
        let counts = closed_counts(cursors@);
        assert(counts =~= Seq::new(
            feeds@.len(),
            |i: int|
                absorbed(
                    feeds@[i].daily@,
                    closed_counts(before)[i],
                    feeds@[i].four_hour@[j as int].close_time,
                ),
        ));
        if cold {
            let k = choose|k: int|
                0 <= k < i && (#[trigger] cursors@[k]).closed < MIN_DAILY_CANDLES;
            assert(counts[k] < MIN_DAILY_CANDLES);
        }
        assert forall|k: int| 0 <= k < feeds@.len() && #[trigger] counts[k]
            < MIN_DAILY_CANDLES implies cold by {
            assert(cursors@[k].closed < MIN_DAILY_CANDLES);
        }
    }
    cold
}

/// Evaluates every feed at bar `j`.
fn evaluate_feeds<S: Number>(
    book: &mut Book<S>,
    cursors: &mut Vec<Cursor<S>>,
    feeds: &Vec<SymbolFeed<S>>,
    j: usize,
    costs: &CostModel<S>,
    risk_per_trade: S,
    params: &StrategyParams<S>,
)
    requires
        reaches(feeds@, j as int),
        j < usize::MAX,
        all_follow(old(cursors)@, feeds@),
        old(book)@.diagnostics.consistent(),
        old(book)@.diagnostics.evaluated + feeds@.len() <= u32::MAX,
    ensures
        final(book)@ == old(book)@.after_feeds(
            feeds@,
            closed_counts(old(cursors)@),
            j as int,
            *costs,
            risk_per_trade,
            *params,
            feeds@.len(),
        ),
        all_follow(final(cursors)@, feeds@),
        closed_counts(final(cursors)@) == closed_counts(old(cursors)@),
        final(book)@.diagnostics.consistent(),
        final(book)@.diagnostics.evaluated <= old(book)@.diagnostics.evaluated + feeds@.len(),
{
    let ghost counts = closed_counts(cursors@);
    let mut k: usize = 0;
    while k < feeds.len()
        invariant
            k <= feeds@.len(),
            reaches(feeds@, j as int),
            j < usize::MAX,
            all_follow(cursors@, feeds@),
            closed_counts(cursors@) == counts,
            book@ == old(book)@.after_feeds(
                feeds@,
                counts,
                j as int,
                *costs,
                risk_per_trade,
                *params,
                k as nat,
            ),
            book@.diagnostics.consistent(),
            book@.diagnostics.evaluated <= old(book)@.diagnostics.evaluated + k,
            old(book)@.diagnostics.evaluated + feeds@.len() <= u32::MAX,
        decreases feeds@.len() - k,
    {
        let feed = &feeds[k];
        let bars = vstd::slice::slice_subrange(feed.four_hour.as_slice(), 0, j + 1);
        assert(bars@ =~= feed.four_hour@.take(j + 1));
        let ghost entry = cursors@;
        let closed: usize = cursors[k].closed;
        assert(counts[k as int] == closed);
        let snap = snapshot(feed.daily.as_slice(), closed, &mut cursors[k].view, bars);
        proof {
            assert(closed_counts(cursors@) =~= counts) by {
                assert(forall|i: int| 0 <= i < feeds@.len() && i != k ==> cursors@[i] == entry[i]);
            }
        }
        if let Some(snap) = snap {
            book.apply(feeds, &feed.symbol, &snap, j, costs, risk_per_trade, params);
        }
        k = k + 1;
    }
}

/// The whole walk, with what is still open at its end marked out.
pub open spec fn portfolio_walked<S: Number>(
    feeds: Seq<SymbolFeed<S>>,
    costs: CostModel<S>,
    risk_per_trade: S,
    params: StrategyParams<S>,
) -> PortfolioState<S> {
    let bars = common_bars(feeds);
    let end = portfolio_walk(feeds, costs, risk_per_trade, params, bars);
    PortfolioState { book: end.book.marked_out(feeds, bars - 1, costs), ..end }
}

/// Runs every feed against one shared balance, and says how many positions were
/// open at once at most.
pub fn simulate_portfolio<S: Number>(
    feeds: &Vec<SymbolFeed<S>>,
    costs: &CostModel<S>,
    risk_per_trade: S,
    params: &StrategyParams<S>,
) -> (r: (SimResult<S>, usize))
    requires
        common_bars(feeds@) * feeds@.len() <= u32::MAX,
    ensures
        portfolio_walked(feeds@, *costs, risk_per_trade, *params).comes_to(r.0),
        r.1 == portfolio_walked(
            feeds@,
            *costs,
            risk_per_trade,
            *params,
        ).book.concurrent_peak,
        r.0.diagnostics.consistent(),
{
    let start = S::ratio(10_000, 1);
    let mut book = Book {
        balance: start,
        holdings: Vec::new(),
        trades: Vec::new(),
        diagnostics: Diagnostics::default(),
        concurrent_peak: 0,
    };
    let mut drawdown = Drawdown::new(start);
    let mut first_bar: Option<usize> = None;
    let mut cursors = start_cursors(feeds);
    let bars: usize = count_common_bars(feeds);
    let ghost mut state = portfolio_start(feeds@);
    assert(book@.holdings =~= state.book.holdings);
    assert(book@.trades =~= state.book.trades);
    let mut j: usize = 0;
    while j < bars
        invariant
            j <= bars,
            forall|i: int| 0 <= i < bars ==> #[trigger] reaches(feeds@, i),
            bars * feeds@.len() <= u32::MAX,
            all_follow(cursors@, feeds@),
            state == portfolio_walk(feeds@, *costs, risk_per_trade, *params, j as nat),
            state.closed == closed_counts(cursors@),
            state.book == book@,
            state.drawdown == drawdown,
            same_bar(first_bar, state.first_bar),
            book@.diagnostics.consistent(),
            book@.diagnostics.evaluated <= j * feeds@.len(),
        decreases bars - j,
    {
        let ghost before = state;
        proof {
            state = before.after_bar(feeds@, j as int, *costs, risk_per_trade, *params);
            assert(j * feeds@.len() + feeds@.len() == (j + 1) * feeds@.len()) by (nonlinear_arith);
            assert((j + 1) * feeds@.len() <= bars * feeds@.len()) by (nonlinear_arith)
                requires
                    j + 1 <= bars,
            ;
        }
        assert(reaches(feeds@, j as int));
        let cold = advance_cursors(&mut cursors, feeds, j);
        assert(state.closed =~= closed_counts(cursors@));
        j = j + 1;
        if cold || j < MIN_FOUR_HOUR_CANDLES {
            continue;
        }
        if first_bar.is_none() {
            first_bar = Some(j - 1);
        }
        book.check_levels(feeds, j - 1, costs);
        evaluate_feeds(&mut book, &mut cursors, feeds, j - 1, costs, risk_per_trade, params);
        let equity = book.balance.plus(book.value(feeds, j - 1));
        drawdown.mark(equity, equity);
    }
    if bars > 0 {
        assert(reaches(feeds@, bars - 1));
        book.mark_out(feeds, bars - 1, costs);
    }
    let Book { balance, holdings: _, trades, diagnostics, concurrent_peak } = book;
    (
        SimResult {
            trades,
            final_balance: balance,
            max_drawdown: drawdown.deepest,
            first_bar,
            diagnostics,
        },
        concurrent_peak,
    )
}

// ---------------------------------------------------------------------------
// Equal-weight holding
// ---------------------------------------------------------------------------

/// What an equal share of the starting balance buys of each symbol at `first_bar`.
pub open spec fn equal_shares<S: Number>(
    feeds: Seq<SymbolFeed<S>>,
    costs: CostModel<S>,
    first_bar: int,
) -> Seq<S> {
    let share = starting_balance::<S>().quotient(S::of_ratio(feeds.len() as int, 1));
    Seq::new(
        feeds.len(),
        |i: int|
            {
                let entry = costs.bought_at(feeds[i].four_hour@[first_bar].close);
                if zero::<S>().lt(entry) {
                    share.difference(costs.taker_charge(share)).quotient(entry)
                } else {
                    zero::<S>()
                }
            },
    )
}

/// What the quantities are worth at bar `j`'s lows.
pub open spec fn shares_at_low<S: Number>(
    feeds: Seq<SymbolFeed<S>>,
    quantities: Seq<S>,
    j: int,
) -> S {
    total(Seq::new(feeds.len(), |i: int| feeds[i].four_hour@[j].low.product(quantities[i])))
}

/// What the quantities are worth at bar `j`'s closes.
pub open spec fn shares_at_close<S: Number>(
    feeds: Seq<SymbolFeed<S>>,
    quantities: Seq<S>,
    j: int,
) -> S {
    total(Seq::new(feeds.len(), |i: int| feeds[i].four_hour@[j].close.product(quantities[i])))
}

/// What selling the quantities at bar `j`'s closes brings in.
pub open spec fn shares_sold<S: Number>(
    feeds: Seq<SymbolFeed<S>>,
    quantities: Seq<S>,
    costs: CostModel<S>,
    j: int,
) -> S {
    total(
        Seq::new(
            feeds.len(),
            |i: int| costs.sold_at(feeds[i].four_hour@[j].close).product(quantities[i]),
        ),
    )
}

/// The drawdown of holding the quantities from bar `first` up to bar `end`.
pub open spec fn shares_drawdown<S: Number>(
    feeds: Seq<SymbolFeed<S>>,
    quantities: Seq<S>,
    first: int,
    end: int,
) -> Drawdown<S>
    decreases end - first,
{
    if end <= first {
        Drawdown::from(starting_balance::<S>())
    } else {
        shares_drawdown(feeds, quantities, first, end - 1).after(
            shares_at_close(feeds, quantities, end - 1),
            shares_at_low(feeds, quantities, end - 1),
        )
    }
}

/// The final balance and the deepest drawdown of an equal-weight holding.
pub open spec fn held_equally<S: Number>(
    feeds: Seq<SymbolFeed<S>>,
    costs: CostModel<S>,
    first_bar: int,
) -> (S, S) {
    let bars = common_bars(feeds);
    if first_bar >= bars {
        (starting_balance::<S>(), zero::<S>())
    } else {
        let quantities = equal_shares(feeds, costs, first_bar);
        let proceeds = shares_sold(feeds, quantities, costs, bars - 1);
        (
            proceeds.difference(costs.taker_charge(proceeds)),
            shares_drawdown(feeds, quantities, first_bar, bars as int).deepest,
        )
    }
}

/// Equal-weight buy and hold over the same symbols and window.
///
/// `first_bar` is where the strategy began to trade. Holding from bar zero would
/// credit the benchmark with the whole warmup, which the strategy sat out.
pub fn portfolio_buy_and_hold<S: Number>(
    feeds: &Vec<SymbolFeed<S>>,
    costs: &CostModel<S>,
    first_bar: usize,
) -> (r: (S, S))
    ensures
        r == held_equally(feeds@, *costs, first_bar as int),
{
    let start = S::ratio(10_000, 1);
    let bars: usize = count_common_bars(feeds);
    if first_bar >= bars {
        return (start, S::ratio(0, 1));
    }
    let share = start.over(S::count(feeds.len() as u64));
    let after_fee = share.minus(costs.taker_cost(share));
    let ghost wanted = equal_shares(feeds@, *costs, first_bar as int);
    let mut quantities: Vec<S> = Vec::new();
    let mut i: usize = 0;
    while i < feeds.len()
        invariant
            i <= feeds@.len(),
            reaches(feeds@, first_bar as int),
            wanted == equal_shares(feeds@, *costs, first_bar as int),
            share == starting_balance::<S>().quotient(S::of_ratio(feeds@.len() as int, 1)),
            after_fee == share.difference(costs.taker_charge(share)),
            quantities@ == wanted.take(i as int),
        decreases feeds@.len() - i,
    {
        let entry = costs.buy_fill(feeds[i].four_hour[first_bar].close);
        let quantity = if S::ratio(0, 1).below(entry) {
            after_fee.over(entry)
        } else {
            S::ratio(0, 1)
        };
        quantities.push(quantity);
        assert(quantities@ =~= wanted.take(i + 1));
        i = i + 1;
    }
    assert(quantities@ =~= wanted);
    let mut drawdown = Drawdown::new(start);
    let mut j: usize = first_bar;
    while j < bars
        invariant
            first_bar <= j <= bars,
            forall|i: int| 0 <= i < bars ==> #[trigger] reaches(feeds@, i),
            quantities@.len() == feeds@.len(),
            drawdown == shares_drawdown(feeds@, quantities@, first_bar as int, j as int),
        decreases bars - j,
    {
        assert(reaches(feeds@, j as int));
        let ghost lows = Seq::new(
            feeds@.len(),
            |i: int| feeds@[i].four_hour@[j as int].low.product(quantities@[i]),
        );
        let ghost closes = Seq::new(
            feeds@.len(),
            |i: int| feeds@[i].four_hour@[j as int].close.product(quantities@[i]),
        );
        let mut low = S::ratio(0, 1);
        let mut close = S::ratio(0, 1);
        let mut i: usize = 0;
        while i < feeds.len()
            invariant
                i <= feeds@.len(),
                reaches(feeds@, j as int),
                quantities@.len() == feeds@.len(),
                lows == Seq::new(
                    feeds@.len(),
                    |i: int| feeds@[i].four_hour@[j as int].low.product(quantities@[i]),
                ),
                closes == Seq::new(
                    feeds@.len(),
                    |i: int| feeds@[i].four_hour@[j as int].close.product(quantities@[i]),
                ),
                low == total(lows.take(i as int)),
                close == total(closes.take(i as int)),
            decreases feeds@.len() - i,
        {
            low = low.plus(feeds[i].four_hour[j].low.times(quantities[i]));
            close = close.plus(feeds[i].four_hour[j].close.times(quantities[i]));
            proof {
                assert(lows.take(i + 1).drop_last() =~= lows.take(i as int));
                assert(closes.take(i + 1).drop_last() =~= closes.take(i as int));
            }
            i = i + 1;
        }
        assert(lows.take(i as int) =~= lows);
        assert(closes.take(i as int) =~= closes);
        drawdown.mark(close, low);
        j = j + 1;
    }
    assert(reaches(feeds@, bars - 1));
    let ghost sales = Seq::new(
        feeds@.len(),
        |i: int| costs.sold_at(feeds@[i].four_hour@[bars - 1].close).product(quantities@[i]),
    );
    let mut proceeds = S::ratio(0, 1);
    let mut i: usize = 0;
    while i < feeds.len()
        invariant
            i <= feeds@.len(),
            bars > 0,
            reaches(feeds@, bars - 1),
            quantities@.len() == feeds@.len(),
            sales == Seq::new(
                feeds@.len(),
                |i: int| costs.sold_at(feeds@[i].four_hour@[bars - 1].close).product(quantities@[i]),
            ),
            proceeds == total(sales.take(i as int)),
        decreases feeds@.len() - i,
    {
        let fill = costs.sell_fill(feeds[i].four_hour[bars - 1].close);
        proceeds = proceeds.plus(fill.times(quantities[i]));
        proof {
            assert(sales.take(i + 1).drop_last() =~= sales.take(i as int));
        }
        i = i + 1;
    }
    assert(sales.take(i as int) =~= sales);
    (proceeds.minus(costs.taker_cost(proceeds)), drawdown.deepest)
}

// ---------------------------------------------------------------------------
// Laws
// ---------------------------------------------------------------------------

/// Whether a book keeps within the position limit, holds no symbol twice, and holds
/// only what has a feed.
pub open spec fn within_limits<S>(book: BookState<S>, feeds: Seq<SymbolFeed<S>>) -> bool {
    &&& book.holdings.len() <= book.concurrent_peak
    &&& book.concurrent_peak <= DEFAULT_MAX_OPEN_POSITIONS
    &&& forall|i: int|
        0 <= i < book.holdings.len() ==> feed_of(feeds, (#[trigger] book.holdings[i]).symbol@)
            is Some
    &&& forall|i: int, k: int|
        0 <= i < k < book.holdings.len() ==> (#[trigger] book.holdings[i]).symbol@ != (
        #[trigger] book.holdings[k]).symbol@
}

proof fn lemma_not_held<S>(holdings: Seq<Holding<S>>, symbol: Seq<char>, from: int)
    requires
        0 <= from,
    ensures
        match holding_from(holdings, symbol, from) {
            Some(i) => from <= i < holdings.len() && holdings[i].symbol@ == symbol,
            None => forall|i: int|
                from <= i < holdings.len() ==> (#[trigger] holdings[i]).symbol@ != symbol,
        },
    decreases holdings.len() - from,
{
    if from < holdings.len() && holdings[from].symbol@ != symbol {
        lemma_not_held(holdings, symbol, from + 1);
    }
}

proof fn lemma_has_feed<S>(feeds: Seq<SymbolFeed<S>>, f: int)
    requires
        0 <= f < feeds.len(),
    ensures
        feed_of(feeds, feeds[f].symbol@) is Some,
    decreases feeds.len(),
{
    if f < feeds.len() - 1 {
        lemma_has_feed(feeds.drop_last(), f);
    }
}

proof fn lemma_exit_within<S: Number>(
    book: BookState<S>,
    feeds: Seq<SymbolFeed<S>>,
    i: int,
    quote: S,
    reason: ExitReason,
    costs: CostModel<S>,
)
    requires
        within_limits(book, feeds),
        0 <= i < book.holdings.len(),
    ensures
        within_limits(book.with_exit(i, quote, reason, costs), feeds),
{
    let after = book.with_exit(i, quote, reason, costs);
    assert forall|a: int, b: int| 0 <= a < b < after.holdings.len() implies (
    #[trigger] after.holdings[a]).symbol@ != (#[trigger] after.holdings[b]).symbol@ by {
        let a0 = if a < i { a } else { a + 1 };
        let b0 = if b < i { b } else { b + 1 };
        assert(after.holdings[a] == book.holdings[a0]);
        assert(after.holdings[b] == book.holdings[b0]);
    }
    assert forall|a: int| 0 <= a < after.holdings.len() implies feed_of(
        feeds,
        (#[trigger] after.holdings[a]).symbol@,
    ) is Some by {
        let a0 = if a < i { a } else { a + 1 };
        assert(after.holdings[a] == book.holdings[a0]);
    }
}

proof fn lemma_levels_within<S: Number>(
    book: BookState<S>,
    feeds: Seq<SymbolFeed<S>>,
    j: int,
    costs: CostModel<S>,
    i: int,
)
    requires
        within_limits(book, feeds),
    ensures
        within_limits(book.after_levels(feeds, j, costs, i), feeds),
    decreases book.holdings.len() - i,
{
    if 0 <= i < book.holdings.len() {
        match feed_of(feeds, book.holdings[i].symbol@) {
            Some(f) => {
                let bar = feeds[f].four_hour@[j];
                match touched(book.holdings[i].position, bar.low, bar.high) {
                    Some((level, reason)) => {
                        lemma_exit_within(book, feeds, i, level, reason, costs);
                        lemma_levels_within(
                            book.with_exit(i, level, reason, costs),
                            feeds,
                            j,
                            costs,
                            i,
                        );
                    },
                    None => lemma_levels_within(book, feeds, j, costs, i + 1),
                }
            },
            None => lemma_levels_within(book, feeds, j, costs, i + 1),
        }
    }
}

proof fn lemma_signal_within<S: Number>(
    book: BookState<S>,
    feeds: Seq<SymbolFeed<S>>,
    symbol: String,
    snap: IndicatorSnapshot<S>,
    j: int,
    costs: CostModel<S>,
    risk_per_trade: S,
    params: StrategyParams<S>,
)
    requires
        within_limits(book, feeds),
        feed_of(feeds, symbol@) is Some,
    ensures
        within_limits(
            book.after_signal(feeds, symbol, snap, j, costs, risk_per_trade, params),
            feeds,
        ),
{
    lemma_not_held(book.holdings, symbol@, 0);
    let held = holding_from(book.holdings, symbol@, 0);
    let noted = BookState {
        diagnostics: book.diagnostics.recorded(conditions_of(snap, params), held is Some),
        ..book
    };
    assert(within_limits(noted, feeds));
    if let Some(i) = held {
        lemma_exit_within(noted, feeds, i, snap.current_price, ExitReason::Signal, costs);
    }
}

proof fn lemma_feeds_within<S: Number>(
    book: BookState<S>,
    feeds: Seq<SymbolFeed<S>>,
    closed: Seq<int>,
    j: int,
    costs: CostModel<S>,
    risk_per_trade: S,
    params: StrategyParams<S>,
    k: nat,
)
    requires
        within_limits(book, feeds),
        k <= feeds.len(),
    ensures
        within_limits(
            book.after_feeds(feeds, closed, j, costs, risk_per_trade, params, k),
            feeds,
        ),
    decreases k,
{
    if k > 0 {
        let m = (k - 1) as nat;
        lemma_feeds_within(book, feeds, closed, j, costs, risk_per_trade, params, m);
        lemma_has_feed(feeds, k - 1);
        let before = book.after_feeds(feeds, closed, j, costs, risk_per_trade, params, m);
        let feed = feeds[k - 1];
        if let Some(snap) = snapshot_at(
            feed.daily@,
            closed[k - 1],
            feed.four_hour@.take(j + 1),
        ) {
            lemma_signal_within(
                before,
                feeds,
                feed.symbol,
                snap,
                j,
                costs,
                risk_per_trade,
                params,
            );
        }
    }
}

/// At no bar does the portfolio hold more positions than the limit, or two in one
/// symbol, or one whose symbol has no feed to mark it by.
pub proof fn law_portfolio_keeps_the_limits<S: Number>(
    feeds: Seq<SymbolFeed<S>>,
    costs: CostModel<S>,
    risk_per_trade: S,
    params: StrategyParams<S>,
    n: nat,
)
    ensures
        within_limits(portfolio_walk(feeds, costs, risk_per_trade, params, n).book, feeds),
    decreases n,
{
    if n > 0 {
        let m = (n - 1) as nat;
        law_portfolio_keeps_the_limits(feeds, costs, risk_per_trade, params, m);
        let before = portfolio_walk(feeds, costs, risk_per_trade, params, m);
        let closed = portfolio_walk(feeds, costs, risk_per_trade, params, n).closed;
        lemma_levels_within(before.book, feeds, n - 1, costs, 0);
        lemma_feeds_within(
            before.book.after_levels(feeds, n - 1, costs, 0),
            feeds,
            closed,
            n - 1,
            costs,
            risk_per_trade,
            params,
            feeds.len(),
        );
    }
}

/// An entry is paid in full from the cash at hand, and leaves no debt.
pub proof fn law_entries_are_paid_in_cash<S: Lawful>(
    book: BookState<S>,
    feeds: Seq<SymbolFeed<S>>,
    symbol: String,
    snap: IndicatorSnapshot<S>,
    j: int,
    costs: CostModel<S>,
    risk_per_trade: S,
)
    requires
        zero::<S>().le(book.balance),
        !book.after_buy(
            feeds,
            symbol,
            snap,
            j,
            costs,
            risk_per_trade,
        ).balance.is_undefined(),
    ensures
        zero::<S>().le(
            book.after_buy(feeds, symbol, snap, j, costs, risk_per_trade).balance,
        ),
{
    let equity = book.balance.sum(open_value(feeds, book.holdings, j));
    let pos = entered(
        snap.current_price,
        snap.swing_low,
        equity,
        book.balance,
        risk_per_trade,
        costs,
    );
    let outlay = outlay_of(pos);
    if !(book.holdings.len() >= DEFAULT_MAX_OPEN_POSITIONS || pos.quantity.le(zero::<S>())
        || book.balance.lt(outlay)) {
        S::law_difference(book.balance, outlay);
        if book.balance.is_undefined() || outlay.is_undefined() {
            S::law_absorbs(book.balance, outlay);
        }
        S::law_total(book.balance, outlay);
    }
}

/// Whether two lists of feeds agree on everything up to the first `n` bars.
pub open spec fn agree_on_bars<S>(
    feeds: Seq<SymbolFeed<S>>,
    other: Seq<SymbolFeed<S>>,
    n: nat,
) -> bool {
    &&& feeds.len() == other.len()
    &&& forall|i: int|
        0 <= i < feeds.len() ==> (#[trigger] feeds[i]).symbol == other[i].symbol
            && feeds[i].daily@ == other[i].daily@ && n <= feeds[i].four_hour@.len() && n
            <= other[i].four_hour@.len() && feeds[i].four_hour@.take(n as int)
            == other[i].four_hour@.take(n as int)
}

proof fn lemma_same_feed<S>(
    feeds: Seq<SymbolFeed<S>>,
    other: Seq<SymbolFeed<S>>,
    n: nat,
    symbol: Seq<char>,
)
    requires
        agree_on_bars(feeds, other, n),
    ensures
        feed_of(feeds, symbol) == feed_of(other, symbol),
        feed_of(feeds, symbol) matches Some(f) ==> 0 <= f < feeds.len(),
    decreases feeds.len(),
{
    if feeds.len() > 0 {
        assert(feeds.last() == feeds[feeds.len() - 1]);
        assert forall|i: int| 0 <= i < feeds.len() - 1 implies (
        #[trigger] feeds.drop_last()[i]).symbol == other.drop_last()[i].symbol
            && feeds.drop_last()[i].daily@ == other.drop_last()[i].daily@ && n
            <= feeds.drop_last()[i].four_hour@.len() && n
            <= other.drop_last()[i].four_hour@.len() && feeds.drop_last()[i].four_hour@.take(
            n as int,
        ) == other.drop_last()[i].four_hour@.take(n as int) by {
            assert(feeds.drop_last()[i] == feeds[i]);
        }
        lemma_same_feed(feeds.drop_last(), other.drop_last(), n, symbol);
    }
}

proof fn lemma_same_bars<S>(
    feeds: Seq<SymbolFeed<S>>,
    other: Seq<SymbolFeed<S>>,
    n: nat,
    f: int,
    j: int,
)
    requires
        agree_on_bars(feeds, other, n),
        0 <= f < feeds.len(),
        0 <= j < n,
    ensures
        feeds[f].four_hour@[j] == other[f].four_hour@[j],
        feeds[f].four_hour@.take(j + 1) == other[f].four_hour@.take(j + 1),
{
    let a = feeds[f].four_hour@;
    let b = other[f].four_hour@;
    assert(a[j] == a.take(n as int)[j]);
    assert(b[j] == b.take(n as int)[j]);
    assert(a.take(j + 1) =~= a.take(n as int).take(j + 1));
    assert(b.take(j + 1) =~= b.take(n as int).take(j + 1));
}

proof fn lemma_same_value<S: Number>(
    feeds: Seq<SymbolFeed<S>>,
    other: Seq<SymbolFeed<S>>,
    n: nat,
    holdings: Seq<Holding<S>>,
    j: int,
)
    requires
        agree_on_bars(feeds, other, n),
        0 <= j < n,
    ensures
        open_value(feeds, holdings, j) == open_value(other, holdings, j),
{
    assert(holdings.map_values(|h: Holding<S>| worth(feeds, h, j)) =~= holdings.map_values(
        |h: Holding<S>| worth(other, h, j),
    )) by {
        assert forall|i: int| 0 <= i < holdings.len() implies worth(feeds, holdings[i], j) == worth(
            other,
            holdings[i],
            j,
        ) by {
            lemma_same_feed(feeds, other, n, holdings[i].symbol@);
            if let Some(f) = feed_of(feeds, holdings[i].symbol@) {
                lemma_same_bars(feeds, other, n, f, j);
            }
        }
    }
}

proof fn lemma_same_levels<S: Number>(
    book: BookState<S>,
    feeds: Seq<SymbolFeed<S>>,
    other: Seq<SymbolFeed<S>>,
    n: nat,
    j: int,
    costs: CostModel<S>,
    i: int,
)
    requires
        agree_on_bars(feeds, other, n),
        0 <= j < n,
    ensures
        book.after_levels(feeds, j, costs, i) == book.after_levels(other, j, costs, i),
    decreases book.holdings.len() - i,
{
    if 0 <= i < book.holdings.len() {
        lemma_same_feed(feeds, other, n, book.holdings[i].symbol@);
        match feed_of(feeds, book.holdings[i].symbol@) {
            Some(f) => {
                lemma_same_bars(feeds, other, n, f, j);
                let bar = feeds[f].four_hour@[j];
                match touched(book.holdings[i].position, bar.low, bar.high) {
                    Some((level, reason)) => lemma_same_levels(
                        book.with_exit(i, level, reason, costs),
                        feeds,
                        other,
                        n,
                        j,
                        costs,
                        i,
                    ),
                    None => lemma_same_levels(book, feeds, other, n, j, costs, i + 1),
                }
            },
            None => lemma_same_levels(book, feeds, other, n, j, costs, i + 1),
        }
    }
}

proof fn lemma_same_signals<S: Number>(
    book: BookState<S>,
    feeds: Seq<SymbolFeed<S>>,
    other: Seq<SymbolFeed<S>>,
    n: nat,
    closed: Seq<int>,
    j: int,
    costs: CostModel<S>,
    risk_per_trade: S,
    params: StrategyParams<S>,
    k: nat,
)
    requires
        agree_on_bars(feeds, other, n),
        0 <= j < n,
        k <= feeds.len(),
    ensures
        book.after_feeds(feeds, closed, j, costs, risk_per_trade, params, k) == book.after_feeds(
            other,
            closed,
            j,
            costs,
            risk_per_trade,
            params,
            k,
        ),
    decreases k,
{
    if k > 0 {
        let m = (k - 1) as nat;
        lemma_same_signals(book, feeds, other, n, closed, j, costs, risk_per_trade, params, m);
        lemma_same_bars(feeds, other, n, k - 1, j);
        assert(feeds[k - 1].symbol == other[k - 1].symbol);
        let before = book.after_feeds(feeds, closed, j, costs, risk_per_trade, params, m);
        lemma_same_value(feeds, other, n, before.holdings, j);
    }
}

/// What the portfolio has done by a bar depends on no later bar of any feed.
pub proof fn law_portfolio_does_not_look_ahead<S: Number>(
    feeds: Seq<SymbolFeed<S>>,
    other: Seq<SymbolFeed<S>>,
    costs: CostModel<S>,
    risk_per_trade: S,
    params: StrategyParams<S>,
    n: nat,
)
    requires
        agree_on_bars(feeds, other, n),
    ensures
        portfolio_walk(feeds, costs, risk_per_trade, params, n) == portfolio_walk(
            other,
            costs,
            risk_per_trade,
            params,
            n,
        ),
    decreases n,
{
    if n == 0 {
        assert(portfolio_start(feeds).closed =~= portfolio_start(other).closed);
    } else {
        let m = (n - 1) as nat;
        assert forall|i: int| 0 <= i < feeds.len() implies (#[trigger] feeds[i]).four_hour@.take(
            m as int,
        ) == other[i].four_hour@.take(m as int) by {
            assert(feeds[i].four_hour@.take(m as int) =~= feeds[i].four_hour@.take(n as int).take(
                m as int,
            ));
            assert(other[i].four_hour@.take(m as int) =~= other[i].four_hour@.take(n as int).take(
                m as int,
            ));
        }
        law_portfolio_does_not_look_ahead(feeds, other, costs, risk_per_trade, params, m);
        let before = portfolio_walk(feeds, costs, risk_per_trade, params, m);
        let j = n - 1;
        let closed = portfolio_walk(feeds, costs, risk_per_trade, params, n).closed;
        let closed_other = portfolio_walk(other, costs, risk_per_trade, params, n).closed;
        assert(closed =~= closed_other) by {
            assert forall|i: int| 0 <= i < feeds.len() implies closed[i] == closed_other[i] by {
                lemma_same_bars(feeds, other, n, i, j);
            }
        }
        lemma_same_levels(before.book, feeds, other, n, j, costs, 0);
        let exited = before.book.after_levels(feeds, j, costs, 0);
        lemma_same_signals(
            exited,
            feeds,
            other,
            n,
            closed,
            j,
            costs,
            risk_per_trade,
            params,
            feeds.len(),
        );
        let book = exited.after_feeds(
            feeds,
            closed,
            j,
            costs,
            risk_per_trade,
            params,
            feeds.len(),
        );
        lemma_same_value(feeds, other, n, book.holdings, j);
    }
}

/// What the holdings took out of cash, in units.
pub open spec fn tied_up(holdings: Seq<Holding<Amount>>) -> int
    decreases holdings.len(),
{
    if holdings.len() == 0 {
        0
    } else {
        tied_up(holdings.drop_last()) + outlay_of(holdings.last().position)->0
    }
}

/// Whether cash and what is tied up agree with the booked trades, but for at most
/// one unit of rounding in each trade.
pub open spec fn cash_agrees(book: BookState<Amount>) -> bool {
    let books = booked(starting_balance::<Amount>(), book.trades);
    book.balance is Units && books is Units ==> {
        &&& forall|i: int|
            0 <= i < book.holdings.len() ==> outlay_of((#[trigger] book.holdings[i]).position)
                is Units
        &&& 0 <= book.balance->0 + tied_up(book.holdings) - books->0 <= book.trades.len()
    }
}

proof fn lemma_tied_up_removed(holdings: Seq<Holding<Amount>>, i: int)
    requires
        0 <= i < holdings.len(),
    ensures
        tied_up(holdings.remove(i)) == tied_up(holdings) - outlay_of(holdings[i].position)->0,
    decreases holdings.len(),
{
    if i == holdings.len() - 1 {
        assert(holdings.remove(i) =~= holdings.drop_last());
    } else {
        lemma_tied_up_removed(holdings.drop_last(), i);
        assert(holdings.remove(i).drop_last() =~= holdings.drop_last().remove(i));
        assert(holdings.remove(i).last() == holdings.last());
    }
}

/// Rounding down twice and subtracting is rounding the difference down, or a unit
/// more.
proof fn lemma_rounded_gain(exit: int, entry: int, quantity: int)
    ensures
        ({
            let s = SCALE as int;
            let gap = (exit * quantity) / s - (entry * quantity) / s - ((exit - entry) * quantity)
                / s;
            0 <= gap <= 1
        }),
{
    assert((exit - entry) * quantity == exit * quantity - entry * quantity) by (nonlinear_arith);
}

proof fn lemma_exit_agrees(
    book: BookState<Amount>,
    i: int,
    quote: Amount,
    reason: ExitReason,
    costs: CostModel<Amount>,
)
    requires
        cash_agrees(book),
        0 <= i < book.holdings.len(),
    ensures
        cash_agrees(book.with_exit(i, quote, reason, costs)),
{
    let after = book.with_exit(i, quote, reason, costs);
    let pos = book.holdings[i].position;
    let trade = settled(pos, quote, reason, costs);
    let start = starting_balance::<Amount>();
    assert(after.trades.drop_last() =~= book.trades);
    assert(after.trades.last() == trade);
    if after.balance is Units && booked(start, after.trades) is Units {
        lemma_tied_up_removed(book.holdings, i);
        lemma_rounded_gain(
            trade.exit_price->0 as int,
            pos.entry_price->0 as int,
            pos.quantity->0 as int,
        );
        assert forall|k: int| 0 <= k < after.holdings.len() implies outlay_of(
            (#[trigger] after.holdings[k]).position,
        ) is Units by {
            assert(after.holdings[k] == book.holdings[if k < i { k } else { k + 1 }]);
        }
    }
}

proof fn lemma_levels_agree(
    book: BookState<Amount>,
    feeds: Seq<SymbolFeed<Amount>>,
    j: int,
    costs: CostModel<Amount>,
    i: int,
)
    requires
        cash_agrees(book),
    ensures
        cash_agrees(book.after_levels(feeds, j, costs, i)),
    decreases book.holdings.len() - i,
{
    if 0 <= i < book.holdings.len() {
        let touch = match feed_of(feeds, book.holdings[i].symbol@) {
            Some(f) => touched(
                book.holdings[i].position,
                feeds[f].four_hour@[j].low,
                feeds[f].four_hour@[j].high,
            ),
            None => None,
        };
        match touch {
            Some((level, reason)) => {
                lemma_exit_agrees(book, i, level, reason, costs);
                lemma_levels_agree(book.with_exit(i, level, reason, costs), feeds, j, costs, i);
            },
            None => lemma_levels_agree(book, feeds, j, costs, i + 1),
        }
    }
}

proof fn lemma_signal_agrees(
    book: BookState<Amount>,
    feeds: Seq<SymbolFeed<Amount>>,
    symbol: String,
    snap: IndicatorSnapshot<Amount>,
    j: int,
    costs: CostModel<Amount>,
    risk_per_trade: Amount,
    params: StrategyParams<Amount>,
)
    requires
        cash_agrees(book),
    ensures
        cash_agrees(book.after_signal(feeds, symbol, snap, j, costs, risk_per_trade, params)),
{
    lemma_not_held(book.holdings, symbol@, 0);
    let held = holding_from(book.holdings, symbol@, 0);
    let noted = BookState {
        diagnostics: book.diagnostics.recorded(conditions_of(snap, params), held is Some),
        ..book
    };
    if let Some(i) = held {
        lemma_exit_agrees(noted, i, snap.current_price, ExitReason::Signal, costs);
    }
    let after = noted.after_buy(feeds, symbol, snap, j, costs, risk_per_trade);
    if after.holdings.len() > book.holdings.len() {
        assert(after.holdings.drop_last() =~= book.holdings);
    }
}

proof fn lemma_feeds_agree(
    book: BookState<Amount>,
    feeds: Seq<SymbolFeed<Amount>>,
    closed: Seq<int>,
    j: int,
    costs: CostModel<Amount>,
    risk_per_trade: Amount,
    params: StrategyParams<Amount>,
    k: nat,
)
    requires
        cash_agrees(book),
    ensures
        cash_agrees(book.after_feeds(feeds, closed, j, costs, risk_per_trade, params, k)),
    decreases k,
{
    if k > 0 {
        let m = (k - 1) as nat;
        lemma_feeds_agree(book, feeds, closed, j, costs, risk_per_trade, params, m);
        let before = book.after_feeds(feeds, closed, j, costs, risk_per_trade, params, m);
        let feed = feeds[k - 1];
        if let Some(snap) = snapshot_at(feed.daily@, closed[k - 1], feed.four_hour@.take(j + 1)) {
            lemma_signal_agrees(
                before,
                feeds,
                feed.symbol,
                snap,
                j,
                costs,
                risk_per_trade,
                params,
            );
        }
    }
}

proof fn lemma_walk_agrees(
    feeds: Seq<SymbolFeed<Amount>>,
    costs: CostModel<Amount>,
    risk_per_trade: Amount,
    params: StrategyParams<Amount>,
    n: nat,
)
    ensures
        cash_agrees(portfolio_walk(feeds, costs, risk_per_trade, params, n).book),
    decreases n,
{
    if n > 0 {
        let m = (n - 1) as nat;
        lemma_walk_agrees(feeds, costs, risk_per_trade, params, m);
        let before = portfolio_walk(feeds, costs, risk_per_trade, params, m);
        let closed = portfolio_walk(feeds, costs, risk_per_trade, params, n).closed;
        lemma_levels_agree(before.book, feeds, n - 1, costs, 0);
        lemma_feeds_agree(
            before.book.after_levels(feeds, n - 1, costs, 0),
            feeds,
            closed,
            n - 1,
            costs,
            risk_per_trade,
            params,
            feeds.len(),
        );
    }
}

proof fn lemma_marked_out_agrees(
    book: BookState<Amount>,
    feeds: Seq<SymbolFeed<Amount>>,
    last: int,
    costs: CostModel<Amount>,
)
    requires
        cash_agrees(book),
    ensures
        cash_agrees(book.marked_out(feeds, last, costs)),
        book.marked_out(feeds, last, costs).holdings.len() == 0,
    decreases book.holdings.len(),
{
    if book.holdings.len() > 0 {
        let holding = book.holdings[0];
        let close = match feed_of(feeds, holding.symbol@) {
            Some(f) => feeds[f].four_hour@[last].close,
            None => holding.position.entry_price,
        };
        lemma_exit_agrees(book, 0, close, ExitReason::EndOfData, costs);
        lemma_marked_out_agrees(
            book.with_exit(0, close, ExitReason::EndOfData, costs),
            feeds,
            last,
            costs,
        );
    }
}

/// Cash and the trade log agree: of exact amounts, the final balance is the starting
/// balance with the profit of every trade booked in turn, whatever the maker and
/// taker fees are. Profit is rounded down once where cash is rounded in and out, so
/// each trade can leave one smallest unit more in cash. At the end nothing is held.
pub proof fn law_portfolio_balance_is_the_sum_of_trades(
    feeds: Seq<SymbolFeed<Amount>>,
    costs: CostModel<Amount>,
    risk_per_trade: Amount,
    params: StrategyParams<Amount>,
)
    ensures
        ({
            let end = portfolio_walked(feeds, costs, risk_per_trade, params).book;
            let books = booked(starting_balance::<Amount>(), end.trades);
            &&& end.holdings.len() == 0
            &&& end.balance is Units && books is Units ==> 0 <= end.balance->0 - books->0
                <= end.trades.len()
        }),
{
    let bars = common_bars(feeds);
    lemma_walk_agrees(feeds, costs, risk_per_trade, params, bars);
    let end = portfolio_walk(feeds, costs, risk_per_trade, params, bars).book;
    lemma_marked_out_agrees(end, feeds, bars - 1, costs);
}

proof fn lemma_one_total<S: Lawful>(value: S)
    ensures
        total(seq![value]) == value,
{
    S::law_units(value);
    assert(seq![value].drop_last() =~= Seq::<S>::empty());
    assert(total(Seq::<S>::empty()) == zero::<S>());
}

proof fn lemma_one_drawdown<S: Lawful>(
    feeds: Seq<SymbolFeed<S>>,
    quantity: S,
    first: int,
    end: int,
)
    requires
        feeds.len() == 1,
        0 <= first <= end <= feeds[0].four_hour@.len(),
    ensures
        shares_drawdown(feeds, seq![quantity], first, end) == held_drawdown(
            feeds[0].four_hour@.subrange(first, end),
            quantity,
        ),
    decreases end - first,
{
    let bars = feeds[0].four_hour@;
    if first < end {
        lemma_one_drawdown(feeds, quantity, first, end - 1);
        let part = bars.subrange(first, end);
        assert(part.drop_last() =~= bars.subrange(first, end - 1));
        assert(part.last() == bars[end - 1]);
        let quantities = seq![quantity];
        lemma_one_total(bars[end - 1].close.product(quantity));
        lemma_one_total(bars[end - 1].low.product(quantity));
        assert(Seq::new(
            feeds.len(),
            |i: int| feeds[i].four_hour@[end - 1].close.product(quantities[i]),
        ) =~= seq![bars[end - 1].close.product(quantity)]);
        assert(Seq::new(
            feeds.len(),
            |i: int| feeds[i].four_hour@[end - 1].low.product(quantities[i]),
        ) =~= seq![bars[end - 1].low.product(quantity)]);
    }
}

/// With one symbol the two benchmarks agree: an equal-weight holding of one feed is buy
/// and hold from `first_bar` on, and what lies before it has no effect.
pub proof fn law_one_symbol_is_buy_and_hold<S: Lawful>(
    feeds: Seq<SymbolFeed<S>>,
    costs: CostModel<S>,
    first_bar: int,
)
    requires
        feeds.len() == 1,
        0 <= first_bar < feeds[0].four_hour@.len(),
        zero::<S>().lt(costs.bought_at(feeds[0].four_hour@[first_bar].close)),
    ensures
        held_equally(feeds, costs, first_bar) == held(
            feeds[0].four_hour@.skip(first_bar),
            costs,
        ),
{
    let bars = feeds[0].four_hour@;
    let end = bars.len() as int;
    let start = starting_balance::<S>();
    S::law_units(start);
    let entry = costs.bought_at(bars[first_bar].close);
    lemma_ordered(zero::<S>(), entry);
    S::law_total(zero::<S>(), entry);
    let quantity = start.difference(costs.taker_charge(start)).quotient(entry);
    let quantities = equal_shares(feeds, costs, first_bar);
    assert(quantities =~= seq![quantity]);
    lemma_one_drawdown(feeds, quantity, first_bar, end);
    assert(bars.subrange(first_bar, end) =~= bars.skip(first_bar));
    let sold = costs.sold_at(bars[end - 1].close).product(quantity);
    lemma_one_total(sold);
    assert(Seq::new(
        feeds.len(),
        |i: int| costs.sold_at(feeds[i].four_hour@[end - 1].close).product(quantities[i]),
    ) =~= seq![sold]);
    assert(bars.skip(first_bar).first() == bars[first_bar]);
    assert(bars.skip(first_bar).last() == bars[end - 1]);
}

proof fn lemma_levels_add<S: Number>(
    book: BookState<S>,
    feeds: Seq<SymbolFeed<S>>,
    j: int,
    costs: CostModel<S>,
    i: int,
)
    ensures
        book.trades.is_prefix_of(book.after_levels(feeds, j, costs, i).trades),
    decreases book.holdings.len() - i,
{
    if 0 <= i < book.holdings.len() {
        let touch = match feed_of(feeds, book.holdings[i].symbol@) {
            Some(f) => touched(
                book.holdings[i].position,
                feeds[f].four_hour@[j].low,
                feeds[f].four_hour@[j].high,
            ),
            None => None,
        };
        match touch {
            Some((level, reason)) => {
                let sold = book.with_exit(i, level, reason, costs);
                lemma_levels_add(sold, feeds, j, costs, i);
                assert(book.trades.is_prefix_of(sold.trades));
            },
            None => lemma_levels_add(book, feeds, j, costs, i + 1),
        }
    }
}

proof fn lemma_feeds_add<S: Number>(
    book: BookState<S>,
    feeds: Seq<SymbolFeed<S>>,
    closed: Seq<int>,
    j: int,
    costs: CostModel<S>,
    risk_per_trade: S,
    params: StrategyParams<S>,
    k: nat,
)
    ensures
        book.trades.is_prefix_of(
            book.after_feeds(feeds, closed, j, costs, risk_per_trade, params, k).trades,
        ),
    decreases k,
{
    if k > 0 {
        let m = (k - 1) as nat;
        lemma_feeds_add(book, feeds, closed, j, costs, risk_per_trade, params, m);
        let before = book.after_feeds(feeds, closed, j, costs, risk_per_trade, params, m);
        let after = book.after_feeds(feeds, closed, j, costs, risk_per_trade, params, k);
        assert(before.trades.is_prefix_of(after.trades));
    }
}

/// Whether a later state of a walk only adds to an earlier one.
pub open spec fn portfolio_only_adds<S: Number>(
    earlier: PortfolioState<S>,
    later: PortfolioState<S>,
) -> bool {
    &&& earlier.book.trades.is_prefix_of(later.book.trades)
    &&& earlier.first_bar is Some ==> later.first_bar == earlier.first_bar
    &&& earlier.drawdown.deepest.le(later.drawdown.deepest)
}

proof fn lemma_portfolio_bar_adds<S: Lawful>(
    state: PortfolioState<S>,
    feeds: Seq<SymbolFeed<S>>,
    j: int,
    costs: CostModel<S>,
    risk_per_trade: S,
    params: StrategyParams<S>,
)
    requires
        !state.drawdown.deepest.is_undefined(),
    ensures
        portfolio_only_adds(state, state.after_bar(feeds, j, costs, risk_per_trade, params)),
{
    let after = state.after_bar(feeds, j, costs, risk_per_trade, params);
    S::law_total(state.drawdown.deepest, state.drawdown.deepest);
    lemma_levels_add(state.book, feeds, j, costs, 0);
    let exited = state.book.after_levels(feeds, j, costs, 0);
    lemma_feeds_add(
        exited,
        feeds,
        after.closed,
        j,
        costs,
        risk_per_trade,
        params,
        feeds.len(),
    );
    let book = exited.after_feeds(
        feeds,
        after.closed,
        j,
        costs,
        risk_per_trade,
        params,
        feeds.len(),
    );
    let equity = book.balance.sum(open_value(feeds, book.holdings, j));
    lemma_drawdown_deepens(state.drawdown, equity, equity);
}

/// Later bars only add to the portfolio's walk: after more bars every trade made so far
/// is still there, in the same place, a first bar once set stays, and the deepest
/// drawdown has not shrunk.
pub proof fn law_later_portfolio_bars_only_add<S: Lawful>(
    feeds: Seq<SymbolFeed<S>>,
    costs: CostModel<S>,
    risk_per_trade: S,
    params: StrategyParams<S>,
    n: nat,
    m: nat,
)
    requires
        n <= m,
    ensures
        portfolio_only_adds(
            portfolio_walk(feeds, costs, risk_per_trade, params, n),
            portfolio_walk(feeds, costs, risk_per_trade, params, m),
        ),
    decreases m,
{
    let a = portfolio_walk(feeds, costs, risk_per_trade, params, n);
    let b = portfolio_walk(feeds, costs, risk_per_trade, params, m);
    if m == 0 {
        lemma_zero::<S>();
    } else {
        let k = (m - 1) as nat;
        let from = if n < m {
            n
        } else {
            0
        };
        law_later_portfolio_bars_only_add(feeds, costs, risk_per_trade, params, from, k);
        let start = portfolio_walk(feeds, costs, risk_per_trade, params, from);
        let before = portfolio_walk(feeds, costs, risk_per_trade, params, k);
        lemma_ordered(start.drawdown.deepest, before.drawdown.deepest);
        lemma_portfolio_bar_adds(before, feeds, m - 1, costs, risk_per_trade, params);
        lemma_ordered(before.drawdown.deepest, b.drawdown.deepest);
        S::law_total(b.drawdown.deepest, b.drawdown.deepest);
        if n < m {
            S::law_transitive(
                a.drawdown.deepest,
                before.drawdown.deepest,
                b.drawdown.deepest,
            );
        }
    }
}

proof fn lemma_common_bars<S>(feeds: Seq<SymbolFeed<S>>, n: nat)
    requires
        0 < feeds.len(),
        forall|i: int| 0 <= i < feeds.len() ==> n <= (#[trigger] feeds[i]).four_hour@.len(),
    ensures
        n <= common_bars(feeds),
    decreases feeds.len(),
{
    if feeds.len() > 1 {
        assert forall|i: int| 0 <= i < feeds.len() - 1 implies n <= (
        #[trigger] feeds.drop_last()[i]).four_hour@.len() by {
            assert(feeds.drop_last()[i] == feeds[i]);
        }
        lemma_common_bars(feeds.drop_last(), n);
    }
}

proof fn lemma_marked_out_adds<S: Number>(
    book: BookState<S>,
    feeds: Seq<SymbolFeed<S>>,
    last: int,
    costs: CostModel<S>,
)
    ensures
        book.trades.is_prefix_of(book.marked_out(feeds, last, costs).trades),
        forall|i: int|
            book.trades.len() <= i < book.marked_out(feeds, last, costs).trades.len() ==> (
            #[trigger] book.marked_out(feeds, last, costs).trades[i]).exit_reason
                == ExitReason::EndOfData,
    decreases book.holdings.len(),
{
    if book.holdings.len() > 0 {
        let holding = book.holdings[0];
        let close = match feed_of(feeds, holding.symbol@) {
            Some(f) => feeds[f].four_hour@[last].close,
            None => holding.position.entry_price,
        };
        let sold = book.with_exit(0, close, ExitReason::EndOfData, costs);
        lemma_marked_out_adds(sold, feeds, last, costs);
        assert(sold.trades[book.trades.len() as int].exit_reason == ExitReason::EndOfData);
    }
}

/// A run over longer feeds only adds to one over their beginning: apart from what the
/// shorter one marks out at its end, its trades are in the same places in the longer
/// one, a first bar is the same, and the deepest drawdown is no larger.
pub proof fn law_longer_feeds_only_add<S: Lawful>(
    beginning: Seq<SymbolFeed<S>>,
    feeds: Seq<SymbolFeed<S>>,
    costs: CostModel<S>,
    risk_per_trade: S,
    params: StrategyParams<S>,
)
    requires
        agree_on_bars(beginning, feeds, common_bars(beginning)),
    ensures
        ({
            let part = portfolio_walked(beginning, costs, risk_per_trade, params);
            let full = portfolio_walked(feeds, costs, risk_per_trade, params);
            &&& forall|i: int|
                0 <= i < part.book.trades.len() && (#[trigger] part.book.trades[i]).exit_reason
                    != ExitReason::EndOfData ==> i < full.book.trades.len()
                    && full.book.trades[i] == part.book.trades[i]
            &&& part.first_bar is Some ==> full.first_bar == part.first_bar
            &&& part.drawdown.deepest.le(full.drawdown.deepest)
        }),
{
    let n = common_bars(beginning);
    let m = common_bars(feeds);
    if feeds.len() > 0 {
        assert forall|i: int| 0 <= i < feeds.len() implies n <= (
        #[trigger] feeds[i]).four_hour@.len() by {
            assert(beginning[i].symbol == feeds[i].symbol);
        }
        lemma_common_bars(feeds, n);
    }
    law_portfolio_does_not_look_ahead(beginning, feeds, costs, risk_per_trade, params, n);
    law_later_portfolio_bars_only_add(feeds, costs, risk_per_trade, params, n, m);
    let at_n = portfolio_walk(feeds, costs, risk_per_trade, params, n);
    let at_m = portfolio_walk(feeds, costs, risk_per_trade, params, m);
    lemma_marked_out_adds(at_n.book, beginning, n - 1, costs);
    lemma_marked_out_adds(at_m.book, feeds, m - 1, costs);
    let part = portfolio_walked(beginning, costs, risk_per_trade, params);
    let full = portfolio_walked(feeds, costs, risk_per_trade, params);
    assert forall|i: int|
        0 <= i < part.book.trades.len() && (#[trigger] part.book.trades[i]).exit_reason
            != ExitReason::EndOfData implies i < full.book.trades.len() && full.book.trades[i]
        == part.book.trades[i] by {
        assert(i < at_n.book.trades.len());
        assert(at_n.book.trades[i] == part.book.trades[i]);
        assert(at_n.book.trades[i] == at_m.book.trades[i]);
        assert(at_m.book.trades[i] == full.book.trades[i]);
    }
}

/// Two runs over the same feeds, under the same costs, stake and rules, come to the
/// same, whatever was run before.
pub proof fn law_portfolio_runs_agree<S: Number>(
    feeds: Seq<SymbolFeed<S>>,
    costs: CostModel<S>,
    risk_per_trade: S,
    params: StrategyParams<S>,
    one: (SimResult<S>, usize),
    other: (SimResult<S>, usize),
)
    requires
        ({
            let end = portfolio_walked(feeds, costs, risk_per_trade, params);
            &&& end.comes_to(one.0) && one.1 == end.book.concurrent_peak
            &&& end.comes_to(other.0) && other.1 == end.book.concurrent_peak
        }),
    ensures
        one.0.trades@ == other.0.trades@,
        one.0.final_balance == other.0.final_balance,
        one.0.max_drawdown == other.0.max_drawdown,
        one.0.first_bar == other.0.first_bar,
        one.0.diagnostics == other.0.diagnostics,
        one.1 == other.1,
{
}

/// The feed of a symbol is the last one that bears it.
pub proof fn law_the_feed_of_a_symbol<S>(feeds: Seq<SymbolFeed<S>>, symbol: Seq<char>)
    ensures
        match feed_of(feeds, symbol) {
            Some(f) => 0 <= f < feeds.len() && feeds[f].symbol@ == symbol && forall|i: int|
                f < i < feeds.len() ==> (#[trigger] feeds[i]).symbol@ != symbol,
            None => forall|i: int| 0 <= i < feeds.len() ==> (#[trigger] feeds[i]).symbol@ != symbol,
        },
    decreases feeds.len(),
{
    if feeds.len() > 0 {
        law_the_feed_of_a_symbol(feeds.drop_last(), symbol);
        assert forall|i: int| 0 <= i < feeds.len() - 1 implies (#[trigger] feeds[i])
            == feeds.drop_last()[i] by {}
    }
}

/// No feed is shorter than the common bars, and where there are feeds one has no more.
pub proof fn law_common_bars_are_the_fewest<S>(feeds: Seq<SymbolFeed<S>>)
    ensures
        forall|i: int|
            0 <= i < feeds.len() ==> common_bars(feeds) <= (#[trigger] feeds[i]).four_hour@.len(),
        feeds.len() > 0 ==> exists|i: int|
            0 <= i < feeds.len() && (#[trigger] feeds[i]).four_hour@.len() == common_bars(feeds),
        feeds.len() == 0 ==> common_bars(feeds) == 0,
    decreases feeds.len(),
{
    if feeds.len() > 1 {
        let rest = feeds.drop_last();
        law_common_bars_are_the_fewest(rest);
        assert forall|i: int| 0 <= i < feeds.len() implies common_bars(feeds) <= (
        #[trigger] feeds[i]).four_hour@.len() by {
            if i < rest.len() {
                assert(rest[i] == feeds[i]);
            }
        }
        let k = choose|i: int|
            0 <= i < rest.len() && (#[trigger] rest[i]).four_hour@.len() == common_bars(rest);
        assert(feeds[k].four_hour@.len() == common_bars(rest));
        assert(feeds[feeds.len() - 1] == feeds.last());
    } else if feeds.len() == 1 {
        assert(feeds[0].four_hour@.len() == common_bars(feeds));
    }
}

/// What a holding is marked at: the close of its symbol's bar, times the quantity, and the
/// price it was bought at where its symbol has no feed. What is open is their sum.
pub proof fn law_holdings_are_marked_at_the_close<S: Number>(
    feeds: Seq<SymbolFeed<S>>,
    holdings: Seq<Holding<S>>,
    holding: Holding<S>,
    j: int,
    f: int,
)
    requires
        0 <= f < feeds.len(),
        feeds[f].symbol@ == holding.symbol@,
        forall|i: int| f < i < feeds.len() ==> (#[trigger] feeds[i]).symbol@ != holding.symbol@,
    ensures
        open_value(feeds, Seq::<Holding<S>>::empty(), j) == S::of_ratio(0, 1),
        open_value(feeds, holdings.push(holding), j) == open_value(feeds, holdings, j).sum(
            holding.position.quantity.product(feeds[f].four_hour@[j].close),
        ),
{
    law_the_feed_of_a_symbol(feeds, holding.symbol@);
    assert(feed_of(feeds, holding.symbol@) == Some(f));
    let mark = |h: Holding<S>| worth(feeds, h, j);
    assert(Seq::<Holding<S>>::empty().map_values(mark) =~= Seq::<S>::empty());
    assert(holdings.push(holding).map_values(mark).drop_last() =~= holdings.map_values(mark));
    assert(holdings.push(holding).map_values(mark).last() == mark(holding));
}

/// What selling a holding does to the cash: what it brings comes in, less the fee.
pub open spec fn pays_in<S: Number>(
    before: S,
    after: S,
    trade: SimTrade<S>,
    costs: CostModel<S>,
) -> bool {
    let proceeds = trade.exit_price.product(trade.quantity);
    &&& trade.exit_reason == ExitReason::TakeProfit ==> after == before.sum(
        proceeds.difference(proceeds.magnitude().product(costs.maker_fee)),
    )
    &&& trade.exit_reason != ExitReason::TakeProfit ==> after == before.sum(
        proceeds.difference(proceeds.magnitude().product(costs.taker_fee)),
    )
}

/// A SELL closes what is held in the symbol and nothing else: at the bar's close, logged
/// as closed by the signal, with what it brings paid in.
pub proof fn law_a_sell_signal_closes_the_holding<S: Number>(
    book: BookState<S>,
    feeds: Seq<SymbolFeed<S>>,
    closed: Seq<int>,
    j: int,
    costs: CostModel<S>,
    risk_per_trade: S,
    params: StrategyParams<S>,
    k: nat,
    snap: IndicatorSnapshot<S>,
    i: int,
)
    requires
        k < feeds.len(),
        0 <= j < feeds[k as int].four_hour@.len(),
        snapshot_at(
            feeds[k as int].daily@,
            closed[k as int],
            feeds[k as int].four_hour@.take(j + 1),
        ) == Some(snap),
        decision(snap, params) == Signal::Sell,
        ({
            let before = book.after_feeds(feeds, closed, j, costs, risk_per_trade, params, k);
            &&& 0 <= i < before.holdings.len()
            &&& before.holdings[i].symbol@ == feeds[k as int].symbol@
            &&& forall|m: int|
                0 <= m < i ==> (#[trigger] before.holdings[m]).symbol@ != feeds[k as int].symbol@
        }),
    ensures
        ({
            let before = book.after_feeds(feeds, closed, j, costs, risk_per_trade, params, k);
            let after = book.after_feeds(feeds, closed, j, costs, risk_per_trade, params, k + 1);
            let trade = after.trades.last();
            &&& after.holdings == before.holdings.remove(i)
            &&& after.trades == before.trades.push(trade)
            &&& closes_at(
                trade,
                before.holdings[i].position,
                feeds[k as int].four_hour@[j].close,
                ExitReason::Signal,
                costs,
            )
            &&& pays_in(before.balance, after.balance, trade, costs)
            &&& after.concurrent_peak == before.concurrent_peak
            &&& after.diagnostics == before.diagnostics.recorded(
                conditions_of(snap, params),
                true,
            )
        }),
{
    let before = book.after_feeds(feeds, closed, j, costs, risk_per_trade, params, k);
    let after = book.after_feeds(feeds, closed, j, costs, risk_per_trade, params, k + 1);
    lemma_first_held(before.holdings, feeds[k as int].symbol@, 0, i);
    assert(snap.current_price == feeds[k as int].four_hour@.take(j + 1).last().close);
    assert(feeds[k as int].four_hour@.take(j + 1).last() == feeds[k as int].four_hour@[j]);
    assert(after.trades =~= before.trades.push(after.trades.last()));
}

proof fn lemma_first_held<S>(holdings: Seq<Holding<S>>, symbol: Seq<char>, from: int, i: int)
    requires
        0 <= from <= i < holdings.len(),
        holdings[i].symbol@ == symbol,
        forall|m: int| from <= m < i ==> (#[trigger] holdings[m]).symbol@ != symbol,
    ensures
        holding_from(holdings, symbol, from) == Some(i),
    decreases i - from,
{
    if from < i {
        assert(holdings[from].symbol@ != symbol);
        lemma_first_held(holdings, symbol, from + 1, i);
    }
}

/// A BUY in a symbol that is not held opens a holding in it, where there are fewer than
/// four, the size is not nothing and the cash covers it: at the close and the slippage on
/// it, with the swing low as stop and the target twice as far above, sized on the cash and
/// all that is open. The cost and the fee are paid out of the cash. Anything else leaves
/// holdings, cash and log alone.
pub proof fn law_a_buy_signal_opens_a_holding<S: Number>(
    book: BookState<S>,
    feeds: Seq<SymbolFeed<S>>,
    closed: Seq<int>,
    j: int,
    costs: CostModel<S>,
    risk_per_trade: S,
    params: StrategyParams<S>,
    k: nat,
    snap: IndicatorSnapshot<S>,
)
    requires
        k < feeds.len(),
        0 <= j < feeds[k as int].four_hour@.len(),
        snapshot_at(
            feeds[k as int].daily@,
            closed[k as int],
            feeds[k as int].four_hour@.take(j + 1),
        ) == Some(snap),
        decision(snap, params) == Signal::Buy,
        forall|m: int|
            0 <= m < book.after_feeds(
                feeds,
                closed,
                j,
                costs,
                risk_per_trade,
                params,
                k,
            ).holdings.len() ==> (#[trigger] book.after_feeds(
                feeds,
                closed,
                j,
                costs,
                risk_per_trade,
                params,
                k,
            ).holdings[m]).symbol@ != feeds[k as int].symbol@,
    ensures
        ({
            let before = book.after_feeds(feeds, closed, j, costs, risk_per_trade, params, k);
            let after = book.after_feeds(feeds, closed, j, costs, risk_per_trade, params, k + 1);
            let fill = feeds[k as int].four_hour@[j].close.product(
                S::of_ratio(1, 1).sum(costs.slippage),
            );
            let equity = before.balance.sum(open_value(feeds, before.holdings, j));
            let size = sized_within(
                equity,
                before.balance,
                risk_per_trade,
                fill,
                snap.swing_low,
            ).0;
            let fee = fill.product(size).magnitude().product(costs.taker_fee);
            let outlay = fill.product(size).sum(fee);
            let holding = after.holdings.last();
            let opens = before.holdings.len() < 4 && !size.le(S::of_ratio(0, 1))
                && !before.balance.lt(outlay);
            &&& after.trades == before.trades
            &&& after.diagnostics == before.diagnostics.recorded(
                conditions_of(snap, params),
                false,
            )
            &&& !opens ==> after.holdings == before.holdings && after.balance == before.balance
                && after.concurrent_peak == before.concurrent_peak
            &&& opens ==> {
                &&& after.holdings == before.holdings.push(holding)
                &&& after.balance == before.balance.difference(outlay)
                &&& holding.symbol == feeds[k as int].symbol
                &&& holding.position.entry_price == fill
                &&& holding.position.quantity == size
                &&& holding.position.stop_loss == snap.swing_low
                &&& holding.position.take_profit == fill.sum(
                    S::of_ratio(2, 1).product(fill.difference(snap.swing_low)),
                )
                &&& holding.position.entry_fee == fee
                &&& holding.position.equity_at_entry == equity
                &&& after.concurrent_peak >= before.concurrent_peak
                &&& after.concurrent_peak >= after.holdings.len()
                &&& after.concurrent_peak == before.concurrent_peak || after.concurrent_peak
                    == after.holdings.len()
            }
        }),
{
    let before = book.after_feeds(feeds, closed, j, costs, risk_per_trade, params, k);
    let after = book.after_feeds(feeds, closed, j, costs, risk_per_trade, params, k + 1);
    lemma_not_held(before.holdings, feeds[k as int].symbol@, 0);
    assert(snap.current_price == feeds[k as int].four_hour@.take(j + 1).last().close);
    assert(feeds[k as int].four_hour@.take(j + 1).last() == feeds[k as int].four_hour@[j]);
    if after.holdings.len() > before.holdings.len() {
        assert(after.holdings =~= before.holdings.push(after.holdings.last()));
    }
}

/// No other feed trades: one without a snapshot, a HOLD, a BUY in a symbol that is held or
/// a SELL in one that is not leave holdings, cash and log alone.
pub proof fn law_no_other_feed_trades<S: Number>(
    book: BookState<S>,
    feeds: Seq<SymbolFeed<S>>,
    closed: Seq<int>,
    j: int,
    costs: CostModel<S>,
    risk_per_trade: S,
    params: StrategyParams<S>,
    k: nat,
)
    requires
        k < feeds.len(),
    ensures
        ({
            let before = book.after_feeds(feeds, closed, j, costs, risk_per_trade, params, k);
            let after = book.after_feeds(feeds, closed, j, costs, risk_per_trade, params, k + 1);
            let snap = snapshot_at(
                feeds[k as int].daily@,
                closed[k as int],
                feeds[k as int].four_hour@.take(j + 1),
            );
            let held = exists|m: int|
                0 <= m < before.holdings.len() && (#[trigger] before.holdings[m]).symbol@
                    == feeds[k as int].symbol@;
            let signal = decision(snap->0, params);
            let idle = snap is None || signal == Signal::Hold || (held && signal == Signal::Buy)
                || (!held && signal == Signal::Sell);
            &&& idle ==> after.holdings == before.holdings && after.trades == before.trades
                && after.balance == before.balance && after.concurrent_peak
                == before.concurrent_peak
            &&& snap is None ==> after.diagnostics == before.diagnostics
            &&& snap is Some ==> after.diagnostics == before.diagnostics.recorded(
                conditions_of(snap->0, params),
                held,
            )
        }),
        book.after_feeds(feeds, closed, j, costs, risk_per_trade, params, 0) == book,
{
    let before = book.after_feeds(feeds, closed, j, costs, risk_per_trade, params, k);
    lemma_not_held(before.holdings, feeds[k as int].symbol@, 0);
}

/// Whether a bar leaves both levels of a holding alone, or there is no bar to hold them
/// against.
pub open spec fn rests<S: Number>(feeds: Seq<SymbolFeed<S>>, holding: Holding<S>, j: int) -> bool {
    match feed_of(feeds, holding.symbol@) {
        Some(f) => between_levels(holding.position, feeds[f].four_hour@[j]),
        None => true,
    }
}

/// Whether `trade` is a holding closed at a level that its symbol's bar reaches: the stop
/// where the low does, else the target.
pub open spec fn stopped_or_filled<S: Number>(
    feeds: Seq<SymbolFeed<S>>,
    holding: Holding<S>,
    j: int,
    costs: CostModel<S>,
    trade: SimTrade<S>,
) -> bool {
    let pos = holding.position;
    feed_of(feeds, holding.symbol@) matches Some(f) && {
        let bar = feeds[f].four_hour@[j];
        if bar.low.le(pos.stop_loss) {
            closes_at(trade, pos, pos.stop_loss, ExitReason::StopLoss, costs)
        } else {
            pos.take_profit.le(bar.high) && closes_at(
                trade,
                pos,
                pos.take_profit,
                ExitReason::TakeProfit,
                costs,
            )
        }
    }
}

/// Whether `trade` closes one of the holdings from `i` on at a level.
pub open spec fn closes_one<S: Number>(
    feeds: Seq<SymbolFeed<S>>,
    holdings: Seq<Holding<S>>,
    i: int,
    j: int,
    costs: CostModel<S>,
    trade: SimTrade<S>,
) -> bool {
    exists|k: int|
        i <= k < holdings.len() && stopped_or_filled(
            feeds,
            #[trigger] holdings[k],
            j,
            costs,
            trade,
        )
}

/// The levels of all holdings are held against a bar. Afterwards every holding that is left
/// is one that the bar leaves alone, every such holding is left, and each that is gone has
/// a trade in the log, at its level.
pub proof fn law_levels_close_what_they_reach<S: Number>(
    book: BookState<S>,
    feeds: Seq<SymbolFeed<S>>,
    j: int,
    costs: CostModel<S>,
)
    ensures
        ({
            let after = book.after_levels(feeds, j, costs, 0);
            &&& forall|k: int|
                0 <= k < after.holdings.len() ==> rests(feeds, #[trigger] after.holdings[k], j)
                    && book.holdings.contains(after.holdings[k])
            &&& forall|k: int|
                0 <= k < book.holdings.len() && rests(feeds, #[trigger] book.holdings[k], j)
                    ==> after.holdings.contains(book.holdings[k])
            &&& after.trades.len() - book.trades.len() == book.holdings.len()
                - after.holdings.len()
            &&& book.trades.is_prefix_of(after.trades)
            &&& forall|m: int|
                book.trades.len() <= m < after.trades.len() ==> closes_one(
                    feeds,
                    book.holdings,
                    0,
                    j,
                    costs,
                    #[trigger] after.trades[m],
                )
            &&& after.diagnostics == book.diagnostics
            &&& after.concurrent_peak == book.concurrent_peak
        }),
{
    lemma_levels_reached(book, feeds, j, costs, 0);
}

proof fn lemma_levels_reached<S: Number>(
    book: BookState<S>,
    feeds: Seq<SymbolFeed<S>>,
    j: int,
    costs: CostModel<S>,
    i: int,
)
    requires
        0 <= i <= book.holdings.len(),
    ensures
        ({
            let after = book.after_levels(feeds, j, costs, i);
            &&& i <= after.holdings.len()
            &&& after.holdings.take(i) == book.holdings.take(i)
            &&& forall|k: int|
                i <= k < after.holdings.len() ==> rests(feeds, #[trigger] after.holdings[k], j)
            &&& forall|k: int|
                0 <= k < after.holdings.len() ==> book.holdings.contains(
                    #[trigger] after.holdings[k],
                )
            &&& forall|k: int|
                0 <= k < book.holdings.len() && (k < i || rests(
                    feeds,
                    #[trigger] book.holdings[k],
                    j,
                )) ==> after.holdings.contains(book.holdings[k])
            &&& after.trades.len() - book.trades.len() == book.holdings.len()
                - after.holdings.len()
            &&& book.trades.is_prefix_of(after.trades)
            &&& forall|m: int|
                book.trades.len() <= m < after.trades.len() ==> closes_one(
                    feeds,
                    book.holdings,
                    i,
                    j,
                    costs,
                    #[trigger] after.trades[m],
                )
            &&& after.diagnostics == book.diagnostics
            &&& after.concurrent_peak == book.concurrent_peak
        }),
    decreases book.holdings.len() - i,
{
    let after = book.after_levels(feeds, j, costs, i);
    if i < book.holdings.len() {
        let holding = book.holdings[i];
        if rests(feeds, holding, j) {
            lemma_levels_reached(book, feeds, j, costs, i + 1);
            assert(after == book.after_levels(feeds, j, costs, i + 1));
            assert(after.holdings.take(i + 1)[i] == book.holdings.take(i + 1)[i]);
            assert(after.holdings.take(i) =~= book.holdings.take(i)) by {
                assert(forall|k: int|
                    0 <= k < i ==> after.holdings[k] == after.holdings.take(i + 1)[k]);
            }
            assert forall|m: int| book.trades.len() <= m < after.trades.len() implies closes_one(
                feeds,
                book.holdings,
                i,
                j,
                costs,
                #[trigger] after.trades[m],
            ) by {
                assert(closes_one(feeds, book.holdings, i + 1, j, costs, after.trades[m]));
            }
        } else {
            let f = feed_of(feeds, holding.symbol@)->0;
            let bar = feeds[f].four_hour@[j];
            let (level, reason) = touched(holding.position, bar.low, bar.high)->0;
            let sold = book.with_exit(i, level, reason, costs);
            assert(after == sold.after_levels(feeds, j, costs, i));
            lemma_levels_reached(sold, feeds, j, costs, i);
            assert(sold.holdings.take(i) =~= book.holdings.take(i));
            assert forall|k: int| 0 <= k < after.holdings.len() implies book.holdings.contains(
                #[trigger] after.holdings[k],
            ) by {
                let m = choose|m: int|
                    0 <= m < sold.holdings.len() && sold.holdings[m] == after.holdings[k];
                if m < i {
                    assert(book.holdings[m] == after.holdings[k]);
                } else {
                    assert(book.holdings[m + 1] == after.holdings[k]);
                }
            }
            assert forall|k: int|
                0 <= k < book.holdings.len() && (k < i || rests(
                    feeds,
                    #[trigger] book.holdings[k],
                    j,
                )) implies after.holdings.contains(book.holdings[k]) by {
                if k < i {
                    assert(sold.holdings[k] == book.holdings[k]);
                } else {
                    assert(sold.holdings[k - 1] == book.holdings[k]);
                }
            }
            let first = sold.trades.last();
            assert(stopped_or_filled(feeds, book.holdings[i], j, costs, first));
            assert(book.trades.is_prefix_of(after.trades)) by {
                assert(sold.trades.is_prefix_of(after.trades));
                assert(after.trades.subrange(0, book.trades.len() as int) =~= book.trades) by {
                    assert forall|m: int| 0 <= m < book.trades.len() implies after.trades[m]
                        == book.trades[m] by {
                        assert(sold.trades[m] == after.trades.subrange(
                            0,
                            sold.trades.len() as int,
                        )[m]);
                    }
                }
            }
            assert forall|m: int| book.trades.len() <= m < after.trades.len() implies closes_one(
                feeds,
                book.holdings,
                i,
                j,
                costs,
                #[trigger] after.trades[m],
            ) by {
                if m == book.trades.len() {
                    assert(sold.trades[m] == after.trades.subrange(0, sold.trades.len() as int)[m]);
                    assert(after.trades[m] == first);
                } else {
                    assert(closes_one(feeds, sold.holdings, i, j, costs, after.trades[m]));
                    let k = choose|k: int|
                        i <= k < sold.holdings.len() && stopped_or_filled(
                            feeds,
                            #[trigger] sold.holdings[k],
                            j,
                            costs,
                            after.trades[m],
                        );
                    assert(book.holdings[k + 1] == sold.holdings[k]);
                }
            }
        }
    } else {
        assert forall|k: int| 0 <= k < after.holdings.len() implies book.holdings.contains(
            #[trigger] after.holdings[k],
        ) by {
            assert(book.holdings[k] == after.holdings[k]);
        }
    }
}

/// At the end every holding is closed at the last close of its symbol, one after another,
/// and nothing is held any more.
pub proof fn law_the_end_closes_every_holding<S: Number>(
    book: BookState<S>,
    feeds: Seq<SymbolFeed<S>>,
    last: int,
    costs: CostModel<S>,
)
    ensures
        ({
            let after = book.marked_out(feeds, last, costs);
            &&& after.holdings.len() == 0
            &&& after.trades.len() == book.trades.len() + book.holdings.len()
            &&& forall|m: int|
                0 <= m < book.trades.len() ==> #[trigger] after.trades[m] == book.trades[m]
            &&& forall|m: int|
                book.trades.len() <= m < after.trades.len() ==> {
                    let holding = book.holdings[m - book.trades.len()];
                    closes_at(
                        #[trigger] after.trades[m],
                        holding.position,
                        match feed_of(feeds, holding.symbol@) {
                            Some(f) => feeds[f].four_hour@[last].close,
                            None => holding.position.entry_price,
                        },
                        ExitReason::EndOfData,
                        costs,
                    )
                }
        }),
    decreases book.holdings.len(),
{
    if book.holdings.len() > 0 {
        let holding = book.holdings[0];
        let close = match feed_of(feeds, holding.symbol@) {
            Some(f) => feeds[f].four_hour@[last].close,
            None => holding.position.entry_price,
        };
        let sold = book.with_exit(0, close, ExitReason::EndOfData, costs);
        law_the_end_closes_every_holding(sold, feeds, last, costs);
        let after = book.marked_out(feeds, last, costs);
        assert(after == sold.marked_out(feeds, last, costs));
        assert forall|m: int| 0 <= m < book.trades.len() implies #[trigger] after.trades[m]
            == book.trades[m] by {
            assert(after.trades[m] == sold.trades[m]);
        }
        assert forall|m: int| book.trades.len() <= m < after.trades.len() implies ({
            let holding = book.holdings[m - book.trades.len()];
            closes_at(
                #[trigger] after.trades[m],
                holding.position,
                match feed_of(feeds, holding.symbol@) {
                    Some(f) => feeds[f].four_hour@[last].close,
                    None => holding.position.entry_price,
                },
                ExitReason::EndOfData,
                costs,
            )
        }) by {
            if m == book.trades.len() {
                assert(after.trades[m] == sold.trades[m]);
            } else {
                assert(sold.holdings[m - sold.trades.len()] == book.holdings[m
                    - book.trades.len()]);
            }
        }
    }
}

/// A portfolio starts with ten thousand and nothing held. A bar counts from the
/// thirty-fifth on, once every symbol has two hundred daily candles closed; until it does
/// the book stays as it is. One that counts holds the levels against the bar first, then
/// goes through the feeds in their order, and marks the cash and all that is open.
pub proof fn law_a_portfolio_bar<S: Number>(
    feeds: Seq<SymbolFeed<S>>,
    costs: CostModel<S>,
    risk_per_trade: S,
    params: StrategyParams<S>,
    n: nat,
)
    ensures
        ({
            let start = portfolio_walk(feeds, costs, risk_per_trade, params, 0);
            &&& start.book.balance == S::of_ratio(10_000, 1)
            &&& start.book.holdings.len() == 0
            &&& start.book.trades.len() == 0
            &&& start.book.concurrent_peak == 0
            &&& start.book.diagnostics == no_diagnostics()
            &&& start.drawdown.peak == S::of_ratio(10_000, 1)
            &&& start.drawdown.deepest == S::of_ratio(0, 1)
            &&& start.first_bar is None
        }),
        ({
            let before = portfolio_walk(feeds, costs, risk_per_trade, params, n);
            let after = portfolio_walk(feeds, costs, risk_per_trade, params, n + 1);
            let cold = n + 1 < 35 || exists|i: int|
                0 <= i < feeds.len() && #[trigger] after.closed[i] < 200;
            let equity = after.book.balance.sum(open_value(feeds, after.book.holdings, n as int));
            &&& after.closed.len() == feeds.len()
            &&& forall|i: int|
                0 <= i < feeds.len() ==> #[trigger] after.closed[i] == absorbed(
                    feeds[i].daily@,
                    before.closed[i],
                    feeds[i].four_hour@[n as int].close_time,
                )
            &&& cold ==> after.book == before.book && after.drawdown == before.drawdown
                && after.first_bar == before.first_bar
            &&& !cold ==> {
                &&& after.book == before.book.after_levels(feeds, n as int, costs, 0).after_feeds(
                    feeds,
                    after.closed,
                    n as int,
                    costs,
                    risk_per_trade,
                    params,
                    feeds.len(),
                )
                &&& after.drawdown == before.drawdown.after(equity, equity)
                &&& before.first_bar is Some ==> after.first_bar == before.first_bar
                &&& before.first_bar is None ==> after.first_bar == Some(n as int)
            }
        }),
        ({
            let last = portfolio_walk(feeds, costs, risk_per_trade, params, common_bars(feeds));
            let end = portfolio_walked(feeds, costs, risk_per_trade, params);
            &&& end.book == last.book.marked_out(feeds, common_bars(feeds) - 1, costs)
            &&& end.drawdown == last.drawdown
            &&& end.first_bar == last.first_bar
        }),
{
    let before = portfolio_walk(feeds, costs, risk_per_trade, params, n);
    let after = portfolio_walk(feeds, costs, risk_per_trade, params, n + 1);
    assert(after == before.after_bar(feeds, n as int, costs, risk_per_trade, params));
}

/// A result says what the walk came to: its log, its last balance, its deepest drawdown,
/// its first bar and its counts.
pub proof fn law_a_portfolio_result<S: Number>(end: PortfolioState<S>, result: SimResult<S>)
    requires
        end.comes_to(result),
    ensures
        result.trades@ == end.book.trades,
        result.final_balance == end.book.balance,
        result.max_drawdown == end.drawdown.deepest,
        end.first_bar is None ==> result.first_bar is None,
        end.first_bar matches Some(bar) ==> (result.first_bar matches Some(first) && first == bar),
        result.diagnostics == end.book.diagnostics,
{
}

/// An equal-weight holding buys each symbol once, at the close of the first bar and the
/// slippage on it, for an equal part of the ten thousand less the fee, and sells all of it
/// at the last common bar, with the slippage on each and the fee on the whole. It takes no
/// part in anything before the first bar.
pub proof fn law_an_equal_weight_holding<S: Number>(
    feeds: Seq<SymbolFeed<S>>,
    costs: CostModel<S>,
    first_bar: int,
    units: Seq<S>,
)
    requires
        0 <= first_bar,
        units.len() == feeds.len(),
        forall|i: int|
            0 <= i < feeds.len() ==> #[trigger] units[i] == ({
                let part = S::of_ratio(10_000, 1).quotient(S::of_ratio(feeds.len() as int, 1));
                let paid = feeds[i].four_hour@[first_bar].close.product(
                    S::of_ratio(1, 1).sum(costs.slippage),
                );
                if S::of_ratio(0, 1).lt(paid) {
                    part.difference(part.magnitude().product(costs.taker_fee)).quotient(paid)
                } else {
                    S::of_ratio(0, 1)
                }
            }),
    ensures
        first_bar >= common_bars(feeds) ==> held_equally(feeds, costs, first_bar) == (
            S::of_ratio(10_000, 1),
            S::of_ratio(0, 1),
        ),
        first_bar < common_bars(feeds) ==> {
            let last = common_bars(feeds) - 1;
            let brought = total(
                Seq::new(
                    feeds.len(),
                    |i: int|
                        feeds[i].four_hour@[last].close.product(
                            S::of_ratio(1, 1).difference(costs.slippage),
                        ).product(units[i]),
                ),
            );
            &&& held_equally(feeds, costs, first_bar).0 == brought.difference(
                brought.magnitude().product(costs.taker_fee),
            )
            &&& held_equally(feeds, costs, first_bar).1 == shares_drawdown(
                feeds,
                units,
                first_bar,
                last + 1,
            ).deepest
        },
{
    let wanted = equal_shares(feeds, costs, first_bar);
    assert(wanted =~= units);
    let last = common_bars(feeds) - 1;
    assert(Seq::new(
        feeds.len(),
        |i: int| costs.sold_at(feeds[i].four_hour@[last].close).product(wanted[i]),
    ) =~= Seq::new(
        feeds.len(),
        |i: int|
            feeds[i].four_hour@[last].close.product(
                S::of_ratio(1, 1).difference(costs.slippage),
            ).product(units[i]),
    ));
}

/// The drawdown of an equal-weight holding starts at ten thousand and takes in every bar:
/// what all of it is worth at the closes as a possible peak, and at the lows as the fall.
pub proof fn law_an_equal_weight_holding_is_marked<S: Number>(
    feeds: Seq<SymbolFeed<S>>,
    units: Seq<S>,
    first: int,
    bar: int,
)
    requires
        first <= bar,
    ensures
        shares_drawdown(feeds, units, first, first) == (Drawdown {
            peak: S::of_ratio(10_000, 1),
            deepest: S::of_ratio(0, 1),
        }),
        shares_drawdown(feeds, units, first, bar + 1) == shares_drawdown(
            feeds,
            units,
            first,
            bar,
        ).after(
            total(
                Seq::new(feeds.len(), |i: int| feeds[i].four_hour@[bar].close.product(units[i])),
            ),
            total(
                Seq::new(feeds.len(), |i: int| feeds[i].four_hour@[bar].low.product(units[i])),
            ),
        ),
{
}

} // verus!
