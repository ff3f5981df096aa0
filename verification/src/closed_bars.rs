//! A cycle looks at closed bars only: two cycles whose answers differ in nothing but
//! bars still in progress ask the same and end with the same positions.

use vstd::prelude::*;
use crate::config::Config;
use crate::cycle::{
    acts_on, begins_cycle, begins_pair, closed_candles, law_open_bars_make_no_difference,
    looks_after, opens_with, CycleRun, CycleStage, CycleStep,
};
use crate::equity::{Equity, EquityRun, EquityStage, EquityStep};
use crate::exchange::Candle;
use crate::executor::{
    marked, opened_state, ratchets, with_news, BuyRun, MaintainRun, SellRun,
};
use crate::notify::notice_message;
use crate::number::Number;
use crate::risk::{exit_from, index_from, index_of, Position, RiskState};
use crate::strategy::{indicators_of, IndicatorSnapshot, StrategyParams};
use crate::venue::{ExecError, Notice, Reply, Request, Step};

verus! {

// ---------------------------------------------------------------------------
// The same, text for text
// ---------------------------------------------------------------------------

/// Whether two positions are the same, their symbols text for text.
pub open spec fn same_position<S: Number>(a: Position<S>, b: Position<S>) -> bool {
    a.symbol@ == b.symbol@ && a == (Position { symbol: a.symbol, ..b })
}

/// Whether two records hold the same positions in the same order, and agree in all
/// else.
pub open spec fn same_state<S: Number>(a: RiskState<S>, b: RiskState<S>) -> bool {
    &&& a.positions.len() == b.positions.len()
    &&& forall|i: int|
        0 <= i < a.positions.len() ==> same_position(#[trigger] a.positions[i], b.positions[i])
    &&& a == (RiskState { positions: a.positions, ..b })
}

/// Whether two notices tell the operator the same.
pub open spec fn same_notice<S: Number>(a: Notice<S>, b: Notice<S>) -> bool {
    forall|quote_asset: Seq<char>| #[trigger]
        notice_message(a, quote_asset) == notice_message(b, quote_asset)
}

/// Whether two requests ask the venue for the same, or tell the operator the same.
pub open spec fn same_request<S: Number>(a: Request<S>, b: Request<S>) -> bool {
    match (a, b) {
        (Request::Filters { symbol: x }, Request::Filters { symbol: y }) => x@ == y@,
        (
            Request::MarketOrder { symbol: x, side: side_x, quantity: quantity_x },
            Request::MarketOrder { symbol: y, side: side_y, quantity: quantity_y },
        ) => x@ == y@ && side_x == side_y && quantity_x == quantity_y,
        (Request::OcoSell { symbol: x, .. }, Request::OcoSell { symbol: y, .. }) => {
            &&& x@ == y@
            &&& a->OcoSell_quantity == b->OcoSell_quantity
            &&& a->OcoSell_take_profit == b->OcoSell_take_profit
            &&& a->OcoSell_stop == b->OcoSell_stop
            &&& a->OcoSell_stop_limit == b->OcoSell_stop_limit
        },
        (Request::StopLoss { symbol: x, .. }, Request::StopLoss { symbol: y, .. }) => {
            &&& x@ == y@
            &&& a->StopLoss_quantity == b->StopLoss_quantity
            &&& a->StopLoss_stop == b->StopLoss_stop
            &&& a->StopLoss_stop_limit == b->StopLoss_stop_limit
        },
        (Request::CancelOrders { symbol: x }, Request::CancelOrders { symbol: y }) => x@ == y@,
        (Request::OpenOrders { symbol: x }, Request::OpenOrders { symbol: y }) => x@ == y@,
        (Request::Price { symbol: x }, Request::Price { symbol: y }) => x@ == y@,
        (
            Request::Klines { symbol: x, interval: interval_x, limit: limit_x },
            Request::Klines { symbol: y, interval: interval_y, limit: limit_y },
        ) => x@ == y@ && interval_x == interval_y && limit_x == limit_y,
        (Request::Account, Request::Account) => true,
        (Request::Notify(x), Request::Notify(y)) => same_notice(x, y),
        _ => false,
    }
}

/// Whether two steps ask for the same, or both end the same way.
pub open spec fn same_step<S: Number>(a: CycleStep<S>, b: CycleStep<S>) -> bool {
    match (a, b) {
        (CycleStep::Ask(x), CycleStep::Ask(y)) => same_request(x, y),
        (CycleStep::Done(x), CycleStep::Done(y)) => x == y,
        _ => false,
    }
}

/// Whether two answers are the same, but for bars that have not closed by `now`.
pub open spec fn same_but_open_bars<S>(a: Reply<S>, b: Reply<S>, now: u64) -> bool {
    a == b || match (a, b) {
        (Reply::Klines(Ok(x)), Reply::Klines(Ok(y))) => closed_candles(x@, now) == closed_candles(
            y@,
            now,
        ),
        _ => false,
    }
}

// ---------------------------------------------------------------------------
// A whole cycle
// ---------------------------------------------------------------------------

/// Where a cycle stands.
pub struct CyclePoint<S> {
    pub run: CycleRun<S>,
    pub step: CycleStep<S>,
    pub state: RiskState<S>,
}

/// Whether `points` is how a cycle goes with these replies, which come at these
/// moments: its beginning, and where each reply leads.
pub open spec fn cycle_goes<S: Number>(
    config: Config<S>,
    force_close: bool,
    params: StrategyParams<S>,
    before: RiskState<S>,
    replies: Seq<Reply<S>>,
    moments: Seq<u64>,
    points: Seq<CyclePoint<S>>,
) -> bool {
    &&& points.len() == replies.len() + 1
    &&& moments.len() == replies.len()
    &&& begins_cycle(
        force_close,
        params,
        before,
        points[0].run,
        points[0].step,
        points[0].state,
    )
    &&& forall|k: int| 0 <= k < replies.len() ==> #[trigger] goes_on(
        config,
        points[k],
        replies[k],
        moments[k],
        points[k + 1],
    )
}

/// Whether an awaited reply leads from one point of a cycle to the next.
pub open spec fn goes_on<S: Number>(
    config: Config<S>,
    point: CyclePoint<S>,
    reply: Reply<S>,
    now: u64,
    next: CyclePoint<S>,
) -> bool {
    &&& point.run.awaits(reply)
    &&& point.run.leads_to(reply, now, config, point.state, next.run, next.step, next.state)
}

// ---------------------------------------------------------------------------
// Runs in step with each other
// ---------------------------------------------------------------------------

spec fn same_buy<S: Number>(a: BuyRun<S>, b: BuyRun<S>) -> bool {
    &&& a.asset@ == b.asset@
    &&& a.confidence@ == b.confidence@
    &&& a.reasoning@ == b.reasoning@
    &&& a == (BuyRun { asset: a.asset, confidence: a.confidence, reasoning: a.reasoning, ..b })
}

/// Whether two executions end the same way.
spec fn same_end<S: Number>(a: Result<(), ExecError<S>>, b: Result<(), ExecError<S>>) -> bool {
    match (a, b) {
        (Ok(_), Ok(_)) => true,
        (Err(x), Err(y)) => x.message() == y.message(),
        _ => false,
    }
}

spec fn same_sale<S: Number>(a: SellRun<S>, b: SellRun<S>) -> bool {
    &&& a.symbol@ == b.symbol@
    &&& same_position(a.position, b.position)
    &&& a.stage == b.stage
}

spec fn same_maintenance<S: Number>(a: MaintainRun<S>, b: MaintainRun<S>) -> bool {
    a.symbol@ == b.symbol@ && a == (MaintainRun { symbol: a.symbol, ..b })
}

spec fn same_pricing<S: Number>(a: EquityRun<S>, b: EquityRun<S>) -> bool {
    match (a.stage, b.stage) {
        (EquityStage::AwaitAccount, EquityStage::AwaitAccount) => true,
        (
            EquityStage::AwaitPrice { equity: x, assets: held_x, index: i, symbol: symbol_x },
            EquityStage::AwaitPrice { equity: y, assets: held_y, index: k, symbol: symbol_y },
        ) => x == y && held_x@ == held_y@ && i == k && symbol_x == symbol_y,
        (EquityStage::Over, EquityStage::Over) => true,
        _ => false,
    }
}

/// Whether two runs are at the same pair with the same means.
spec fn same_place<S: Number>(a: CycleRun<S>, b: CycleRun<S>) -> bool {
    a.index == b.index && a.equity == b.equity
}

/// Whether two points of two cycles are in step.
spec fn in_step<S: Number>(a: CyclePoint<S>, b: CyclePoint<S>) -> bool {
    &&& a.run.params == b.run.params
    &&& same_step(a.step, b.step)
    &&& same_state(a.state, b.state)
    &&& match (a.run.stage, b.run.stage) {
        (CycleStage::ClosingAll(x), CycleStage::ClosingAll(y)) => {
            &&& a.state == b.state
            &&& x.symbols@ == y.symbols@
            &&& x.next == y.next
            &&& x.sale == y.sale
        },
        (CycleStage::Pricing(x), CycleStage::Pricing(y)) => a.state == b.state && same_pricing(x, y),
        (CycleStage::AwaitHaltNotice, CycleStage::AwaitHaltNotice) => true,
        (CycleStage::AwaitDaily, CycleStage::AwaitDaily) => same_place(a.run, b.run),
        (CycleStage::AwaitFourHour { daily: x }, CycleStage::AwaitFourHour { daily: y }) => {
            same_place(a.run, b.run) && x@ == y@
        },
        (
            CycleStage::AwaitPrice { daily: x, four_hour: bars_x },
            CycleStage::AwaitPrice { daily: y, four_hour: bars_y },
        ) => same_place(a.run, b.run) && x@ == y@ && bars_x@ == bars_y@,
        (CycleStage::Buying(x), CycleStage::Buying(y)) => same_place(a.run, b.run) && same_buy(x, y),
        (
            CycleStage::Selling { sale: x, exit: exit_x },
            CycleStage::Selling { sale: y, exit: exit_y },
        ) => same_place(a.run, b.run) && same_sale(x, y) && exit_x == exit_y,
        (CycleStage::Maintaining(x), CycleStage::Maintaining(y)) => same_place(a.run, b.run)
            && same_maintenance(x, y),
        (CycleStage::AwaitErrorNotice, CycleStage::AwaitErrorNotice) => same_place(a.run, b.run),
        (CycleStage::Over, CycleStage::Over) => true,
        _ => false,
    }
}

proof fn lemma_same_found<S: Number>(
    a: RiskState<S>,
    b: RiskState<S>,
    symbol: Seq<char>,
    price: S,
    from: int,
)
    requires
        same_state(a, b),
        0 <= from,
    ensures
        index_from(a.positions, symbol, from) == index_from(b.positions, symbol, from),
        index_from(a.positions, symbol, from) matches Some(i) ==> from <= i < a.positions.len(),
        exit_from(a.positions, symbol, price, from) == exit_from(b.positions, symbol, price, from),
    decreases a.positions.len() - from,
{
    if from < a.positions.len() {
        assert(same_position(a.positions[from], b.positions[from]));
        lemma_same_found(a, b, symbol, price, from + 1);
    }
}

/// What is done to two records that are the same leaves them the same.
proof fn lemma_same_changes<S: Number>(
    a: RiskState<S>,
    b: RiskState<S>,
    symbol: Seq<char>,
    x: Position<S>,
    y: Position<S>,
)
    requires
        same_state(a, b),
        same_position(x, y),
    ensures
        same_state(a.with_opened(x), b.with_opened(y)),
        same_state(a.with_closed(symbol), b.with_closed(symbol)),
        same_state(a.with_updated(symbol, x), b.with_updated(symbol, y)),
{
    lemma_same_found(a, b, symbol, x.stop_loss, 0);
    let closed_a = a.with_closed(symbol);
    let closed_b = b.with_closed(symbol);
    assert forall|i: int| 0 <= i < closed_a.positions.len() implies same_position(
        #[trigger] closed_a.positions[i],
        closed_b.positions[i],
    ) by {
        if let Some(k) = index_of(a.positions, symbol) {
            let j = if i < k {
                i
            } else {
                i + 1
            };
            assert(same_position(a.positions[j], b.positions[j]));
        }
    }
}

proof fn lemma_same_buy<S: Number>(a: BuyRun<S>, b: BuyRun<S>, reply: Reply<S>, now: u64)
    requires
        same_buy(a, b),
    ensures
        same_buy(a.next(reply, now).run, b.next(reply, now).run),
        match (a.next(reply, now).step, b.next(reply, now).step) {
            (Step::Ask(x), Step::Ask(y)) => same_request(x, y),
            (Step::Done(x), Step::Done(y)) => same_end(x, y),
            _ => false,
        },
        match (a.next(reply, now).opened, b.next(reply, now).opened) {
            (Some(x), Some(y)) => same_position(x, y),
            (None, None) => true,
            _ => false,
        },
{
}

proof fn lemma_same_sale<S: Number>(a: SellRun<S>, b: SellRun<S>, reply: Reply<S>)
    requires
        same_sale(a, b),
    ensures
        same_sale(a.next(reply).run, b.next(reply).run),
        match (a.next(reply).step, b.next(reply).step) {
            (Step::Ask(x), Step::Ask(y)) => same_request(x, y),
            (Step::Done(x), Step::Done(y)) => same_end(x, y),
            _ => false,
        },
        match (a.next(reply).restored, b.next(reply).restored) {
            (Some(x), Some(y)) => same_position(x, y),
            (None, None) => true,
            _ => false,
        },
{
}

proof fn lemma_same_maintenance<S: Number>(a: MaintainRun<S>, b: MaintainRun<S>, reply: Reply<S>)
    requires
        same_maintenance(a, b),
    ensures
        same_maintenance(a.next(reply).run, b.next(reply).run),
        match (a.next(reply).step, b.next(reply).step) {
            (Step::Ask(x), Step::Ask(y)) => same_request(x, y),
            (Step::Done(_), Step::Done(_)) => true,
            _ => false,
        },
        a.next(reply).news == b.next(reply).news,
{
}

proof fn lemma_same_news<S: Number>(
    a: RiskState<S>,
    b: RiskState<S>,
    run: MaintainRun<S>,
    other: MaintainRun<S>,
    reply: Reply<S>,
)
    requires
        same_state(a, b),
        same_maintenance(run, other),
    ensures
        same_state(
            with_news(a, run.symbol@, run.next(reply).news),
            with_news(b, other.symbol@, other.next(reply).news),
        ),
{
    lemma_same_maintenance(run, other, reply);
    let symbol = run.symbol@;
    let news = run.next(reply).news;
    lemma_same_found(a, b, symbol, run.desired, 0);
    if let Some(i) = index_of(a.positions, symbol) {
        assert(same_position(a.positions[i], b.positions[i]));
        let x = with_news(a, symbol, news).positions[i];
        let y = with_news(b, symbol, news).positions[i];
        lemma_same_changes(a, b, symbol, x, y);
    }
}

/// Two cycles that begin the same pair are in step.
proof fn lemma_pair_in_step<S: Number>(
    config: Config<S>,
    index: int,
    a: CyclePoint<S>,
    b: CyclePoint<S>,
)
    requires
        begins_pair(config, index, a.run, a.step),
        begins_pair(config, index, b.run, b.step),
        a.run.params == b.run.params,
        a.run.equity == b.run.equity,
        same_state(a.state, b.state),
    ensures
        in_step(a, b),
{
}

proof fn lemma_care_in_step<S: Number>(
    config: Config<S>,
    index: int,
    symbol: String,
    price: S,
    params: StrategyParams<S>,
    was: RiskState<S>,
    was_other: RiskState<S>,
    a: CyclePoint<S>,
    b: CyclePoint<S>,
)
    requires
        same_state(was, was_other),
        looks_after(config, index, symbol, price, params, was, a.run, a.step, a.state),
        looks_after(config, index, symbol, price, params, was_other, b.run, b.step, b.state),
        a.run.params == b.run.params,
        a.run.equity == b.run.equity,
    ensures
        in_step(a, b),
{
    lemma_same_found(was, was_other, symbol@, price, 0);
    match index_of(was.positions, symbol@) {
        None => lemma_pair_in_step(config, index + 1, a, b),
        Some(i) => {
            assert(same_position(was.positions[i], was_other.positions[i]));
            let x = marked(was.positions[i], price);
            let y = marked(was_other.positions[i], price);
            lemma_same_changes(was, was_other, symbol@, x, y);
            if x.protected && !ratchets(x, params) {
                lemma_pair_in_step(config, index + 1, a, b);
            }
        },
    }
}

proof fn lemma_action_in_step<S: Number>(
    config: Config<S>,
    index: int,
    equity: Equity<S>,
    snap: IndicatorSnapshot<S>,
    params: StrategyParams<S>,
    was: RiskState<S>,
    was_other: RiskState<S>,
    a: CyclePoint<S>,
    b: CyclePoint<S>,
)
    requires
        same_state(was, was_other),
        acts_on(config, index, equity, snap, params, was, a.run, a.step, a.state),
        acts_on(config, index, equity, snap, params, was_other, b.run, b.step, b.state),
        a.run.params == b.run.params,
        a.run.equity == b.run.equity,
    ensures
        in_step(a, b),
{
    let symbol = config.trading_pairs@[index];
    let price = snap.current_price;
    lemma_same_found(was, was_other, symbol@, price, 0);
    if let Some(i) = index_of(was.positions, symbol@) {
        assert(same_position(was.positions[i], was_other.positions[i]));
        lemma_same_changes(
            was,
            was_other,
            symbol@,
            was.positions[i],
            was_other.positions[i],
        );
    }
    if looks_after(config, index, symbol, price, params, was, a.run, a.step, a.state)
        && looks_after(config, index, symbol, price, params, was_other, b.run, b.step, b.state) {
        lemma_care_in_step(config, index, symbol, price, params, was, was_other, a, b);
    } else if begins_pair(config, index + 1, a.run, a.step) && begins_pair(
        config,
        index + 1,
        b.run,
        b.step,
    ) && same_state(a.state, b.state) {
        lemma_pair_in_step(config, index + 1, a, b);
    }
}

proof fn lemma_same_pricing<S: Number>(
    config: Config<S>,
    a: EquityRun<S>,
    b: EquityRun<S>,
    reply: Reply<S>,
    next_a: EquityRun<S>,
    next_b: EquityRun<S>,
    step_a: EquityStep<S>,
    step_b: EquityStep<S>,
)
    requires
        same_pricing(a, b),
        a.leads_to(reply, config, next_a, step_a),
        b.leads_to(reply, config, next_b, step_b),
    ensures
        same_pricing(next_a, next_b),
        step_a == step_b,
{
}

proof fn lemma_opened_in_step<S: Number>(
    a: RiskState<S>,
    b: RiskState<S>,
    x: Option<Position<S>>,
    y: Option<Position<S>>,
)
    requires
        same_state(a, b),
        match (x, y) {
            (Some(opened), Some(other)) => same_position(opened, other),
            (None, None) => true,
            _ => false,
        },
    ensures
        same_state(opened_state(a, x), opened_state(b, y)),
{
    if let Some(opened) = x {
        lemma_same_changes(a, b, opened.symbol@, opened, y->0);
    }
}

/// Whether a step of the pricing leads a cycle to `next`.
spec fn pricing_leads<S: Number>(
    config: Config<S>,
    point: CyclePoint<S>,
    now: u64,
    run: EquityRun<S>,
    step: EquityStep<S>,
    next: CyclePoint<S>,
) -> bool {
    match step {
        EquityStep::Ask(request) => {
            &&& next.run.stage == CycleStage::Pricing(run)
            &&& next.step == CycleStep::<S>::Ask(request)
            &&& next.state == point.state
            &&& next.run.equity == point.run.equity
        },
        EquityStep::Done(Ok(equity)) => opens_with(
            config,
            equity,
            now,
            point.state,
            next.run,
            next.step,
            next.state,
        ),
        EquityStep::Done(Err(error)) => {
            &&& next.run.stage is Over
            &&& next.step == CycleStep::<S>::Done(Err(error))
            &&& next.state == point.state
            &&& next.run.equity == point.run.equity
        },
    }
}

/// Two cycles in step stay in step where their answers agree but for open bars.
proof fn lemma_stays_in_step<S: Number>(
    config: Config<S>,
    a: CyclePoint<S>,
    b: CyclePoint<S>,
    reply: Reply<S>,
    other: Reply<S>,
    now: u64,
    next_a: CyclePoint<S>,
    next_b: CyclePoint<S>,
)
    requires
        in_step(a, b),
        same_but_open_bars(reply, other, now),
        goes_on(config, a, reply, now, next_a),
        goes_on(config, b, other, now, next_b),
    ensures
        in_step(next_a, next_b),
{
    let i = a.run.index as int;
    match (a.run.stage, b.run.stage) {
        (CycleStage::ClosingAll(x), CycleStage::ClosingAll(y)) => {},
        (CycleStage::Pricing(x), CycleStage::Pricing(y)) => {
            let (run_a, step_a) = choose|run: EquityRun<S>, step: EquityStep<S>|
                {
                    &&& #[trigger] x.leads_to(reply, config, run, step)
                    &&& pricing_leads(config, a, now, run, step, next_a)
                };
            let (run_b, step_b) = choose|run: EquityRun<S>, step: EquityStep<S>|
                {
                    &&& #[trigger] y.leads_to(reply, config, run, step)
                    &&& pricing_leads(config, b, now, run, step, next_b)
                };
            lemma_same_pricing(config, x, y, reply, run_a, run_b, step_a, step_b);
        },
        (CycleStage::AwaitHaltNotice, _) => {},
        (CycleStage::AwaitDaily, _) => {
            if !(reply matches Reply::Klines(Ok(_))) {
                lemma_pair_in_step(config, i + 1, next_a, next_b);
            }
        },
        (CycleStage::AwaitFourHour { .. }, _) => {
            if !(reply matches Reply::Klines(Ok(_))) {
                lemma_pair_in_step(config, i + 1, next_a, next_b);
            }
        },
        (CycleStage::AwaitPrice { daily, four_hour }, _) => {
            match reply {
                Reply::Price(Ok(price)) => match indicators_of(daily@, four_hour@, price) {
                    Some(snap) => lemma_action_in_step(
                        config,
                        i,
                        a.run.equity,
                        snap,
                        a.run.params,
                        a.state,
                        b.state,
                        next_a,
                        next_b,
                    ),
                    None => lemma_pair_in_step(config, i + 1, next_a, next_b),
                },
                _ => lemma_pair_in_step(config, i + 1, next_a, next_b),
            }
        },
        (CycleStage::Buying(x), CycleStage::Buying(y)) => {
            lemma_same_buy(x, y, reply, now);
            lemma_opened_in_step(
                a.state,
                b.state,
                x.next(reply, now).opened,
                y.next(reply, now).opened,
            );
            if x.next(reply, now).step matches Step::Done(Ok(_)) {
                lemma_pair_in_step(config, i + 1, next_a, next_b);
            }
        },
        (CycleStage::Selling { sale: x, .. }, CycleStage::Selling { sale: y, .. }) => {
            lemma_same_sale(x, y, reply);
            lemma_opened_in_step(a.state, b.state, x.next(reply).restored, y.next(reply).restored);
            if x.next(reply).step matches Step::Done(Ok(_)) {
                lemma_pair_in_step(config, i + 1, next_a, next_b);
            }
        },
        (CycleStage::Maintaining(x), CycleStage::Maintaining(y)) => {
            lemma_same_maintenance(x, y, reply);
            lemma_same_news(a.state, b.state, x, y, reply);
            if x.next(reply).step is Done {
                lemma_pair_in_step(config, i + 1, next_a, next_b);
            }
        },
        _ => {
            lemma_pair_in_step(config, i + 1, next_a, next_b);
        },
    }
}

proof fn lemma_in_step<S: Number>(
    config: Config<S>,
    force_close: bool,
    params: StrategyParams<S>,
    before: RiskState<S>,
    replies: Seq<Reply<S>>,
    others: Seq<Reply<S>>,
    moments: Seq<u64>,
    points: Seq<CyclePoint<S>>,
    other_points: Seq<CyclePoint<S>>,
    k: int,
)
    requires
        cycle_goes(config, force_close, params, before, replies, moments, points),
        cycle_goes(config, force_close, params, before, others, moments, other_points),
        forall|i: int|
            0 <= i < replies.len() ==> #[trigger] same_but_open_bars(
                replies[i],
                others[i],
                moments[i],
            ),
        0 <= k < points.len(),
    ensures
        in_step(points[k], other_points[k]),
    decreases k,
{
    if k > 0 {
        let i = k - 1;
        lemma_in_step(
            config,
            force_close,
            params,
            before,
            replies,
            others,
            moments,
            points,
            other_points,
            i,
        );
        assert(goes_on(config, points[i], replies[i], moments[i], points[i + 1]));
        assert(goes_on(config, other_points[i], others[i], moments[i], other_points[i + 1]));
        assert(same_but_open_bars(replies[i], others[i], moments[i]));
        lemma_stays_in_step(
            config,
            points[i],
            other_points[i],
            replies[i],
            others[i],
            moments[i],
            points[k],
            other_points[k],
        );
    }
}

// ---------------------------------------------------------------------------
// Laws
// ---------------------------------------------------------------------------

/// A series that ends in a bar still in progress is the same answer as the series
/// without that bar.
pub proof fn law_the_open_bar_is_dropped<S>(
    with_bar: Vec<Candle<S>>,
    without: Vec<Candle<S>>,
    bar: Candle<S>,
    now: u64,
)
    requires
        with_bar@ == without@.push(bar),
        bar.close_time >= now,
    ensures
        same_but_open_bars(
            Reply::<S>::Klines(Ok(with_bar)),
            Reply::<S>::Klines(Ok(without)),
            now,
        ),
{
    law_open_bars_make_no_difference(without@, bar, now);
}

/// Two whole cycles that start from the same positions, and whose answers are the
/// same but for bars that had not closed when they came, ask the venue for the same
/// and tell the operator the same at every step, and at every step have the same
/// positions on record and the same halt: what a bar in progress says makes no
/// difference to any order.
pub proof fn law_a_cycle_ignores_open_bars<S: Number>(
    config: Config<S>,
    force_close: bool,
    params: StrategyParams<S>,
    before: RiskState<S>,
    replies: Seq<Reply<S>>,
    others: Seq<Reply<S>>,
    moments: Seq<u64>,
    points: Seq<CyclePoint<S>>,
    other_points: Seq<CyclePoint<S>>,
)
    requires
        cycle_goes(config, force_close, params, before, replies, moments, points),
        cycle_goes(config, force_close, params, before, others, moments, other_points),
        forall|i: int|
            0 <= i < replies.len() ==> #[trigger] same_but_open_bars(
                replies[i],
                others[i],
                moments[i],
            ),
    ensures
        points.len() == other_points.len(),
        forall|k: int|
            0 <= k < points.len() ==> same_step(
                (#[trigger] points[k]).step,
                other_points[k].step,
            ) && same_state(points[k].state, other_points[k].state),
{
    assert forall|k: int| 0 <= k < points.len() implies same_step(
        (#[trigger] points[k]).step,
        other_points[k].step,
    ) && same_state(points[k].state, other_points[k].state) by {
        lemma_in_step(
            config,
            force_close,
            params,
            before,
            replies,
            others,
            moments,
            points,
            other_points,
            k,
        );
    }
}

} // verus!
