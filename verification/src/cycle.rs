//! One full evaluation cycle: value the account, check the drawdown, then for
//! each pair fetch data, compute indicators, evaluate and execute.

use vstd::prelude::*;
use crate::clock::{day_of, utc_day_of};
use crate::config::{Config, Environment};
use crate::equity::{Equity, EquityRun, EquityStep};
use crate::exchange::Candle;
use crate::executor::{
    desired_stop, marked, next_sale, opened_state, ratchets, sale_step, with_news, BuyRun,
    CloseAllRun, Executor, MaintainRun, MaintainStage, SellRun, SellStage, StopNews,
};
use crate::number::{larger_of, zero, Number};
use crate::risk::{
    exit_from, index_of, law_a_loss_beyond_the_limit_halts, law_a_new_day_starts_afresh,
    law_exits_are_at_the_levels, law_positions_change_one_at_a_time, lemma_first_index,
    lemma_index_from, reaches_a_level, sized_within, Position, RiskManager, RiskState,
};
use crate::strategy::{
    compute_indicators, confidence_of, decision, evaluate, indicators_of, reasoning_of,
    IndicatorSnapshot, Signal, StrategyParams,
};
use crate::text::same_text;
use crate::venue::{CycleError, ExecError, Interval, Notice, Reply, Request, Step, Trouble};

verus! {

/// How many daily candles a cycle reads.
pub const DAILY_LIMIT: u32 = 250;

/// How many four-hour candles a cycle reads.
pub const FOUR_HOUR_LIMIT: u32 = 100;

/// The candles that have closed by `now`: the bar in progress is dropped, so a
/// signal cannot appear mid-bar and vanish before the next poll.
pub open spec fn closed_candles<S>(candles: Seq<Candle<S>>, now: u64) -> Seq<Candle<S>> {
    candles.filter(|c: Candle<S>| c.close_time < now)
}

/// Drops the candles that have not closed by `now`.
pub fn closed_only<S: Number>(candles: &Vec<Candle<S>>, now: u64) -> (r: Vec<Candle<S>>)
    ensures
        r@ == closed_candles(candles@, now),
{
    let ghost has_closed = |c: Candle<S>| c.close_time < now;
    let mut out: Vec<Candle<S>> = Vec::new();
    let mut i: usize = 0;
    proof {
        reveal(Seq::filter);
        assert(candles@.take(0).filter(has_closed) =~= Seq::empty());
    }
    while i < candles.len()
        invariant
            i <= candles@.len(),
            has_closed == (|c: Candle<S>| c.close_time < now),
            out@ == candles@.take(i as int).filter(has_closed),
        decreases candles@.len() - i,
    {
        proof {
            reveal(Seq::filter);
            assert(candles@.take(i + 1).drop_last() =~= candles@.take(i as int));
        }
        if candles[i].close_time < now {
            out.push(candles[i]);
        }
        i = i + 1;
    }
    assert(candles@.take(i as int) =~= candles@);
    out
}

/// Whether the environment asks for every position to be closed.
pub fn force_close_asked(env: &Environment) -> (r: bool)
    ensures
        r == (env.value("FORCE_CLOSE"@) == Some("true"@)),
{
    match env.get("FORCE_CLOSE") {
        Some(value) => same_text(value.as_str(), "true"),
        None => false,
    }
}

// ---------------------------------------------------------------------------
// The run
// ---------------------------------------------------------------------------

#[derive(Debug, PartialEq)]
pub enum CycleStep<S> {
    Ask(Request<S>),
    Done(Result<(), CycleError>),
}

#[derive(Debug)]
pub enum CycleStage<S> {
    ClosingAll(CloseAllRun<S>),
    Pricing(EquityRun<S>),
    AwaitHaltNotice,
    AwaitDaily,
    AwaitFourHour { daily: Vec<Candle<S>> },
    AwaitPrice { daily: Vec<Candle<S>>, four_hour: Vec<Candle<S>> },
    Buying(BuyRun<S>),
    /// A sale, on a signal or because a level was reached.
    Selling { sale: SellRun<S>, exit: bool },
    Maintaining(MaintainRun<S>),
    AwaitErrorNotice,
    Over,
}

/// One cycle over all configured pairs. What fails for one pair does not stop the
/// others.
#[derive(Debug)]
pub struct CycleRun<S> {
    pub params: StrategyParams<S>,
    pub equity: Equity<S>,
    /// The pair at hand.
    pub index: usize,
    pub stage: CycleStage<S>,
}

/// Whether `run` and `step` are the beginning of pair `index`, or the end where
/// there is none.
pub open spec fn begins_pair<S: Number>(
    config: Config<S>,
    index: int,
    run: CycleRun<S>,
    step: CycleStep<S>,
) -> bool {
    if index < config.trading_pairs@.len() {
        &&& run.index == index
        &&& run.stage is AwaitDaily
        &&& step == CycleStep::<S>::Ask(
            Request::Klines {
                symbol: config.trading_pairs@[index],
                interval: Interval::Daily,
                limit: DAILY_LIMIT,
            },
        )
    } else {
        run.stage is Over && step == CycleStep::<S>::Done(Ok(()))
    }
}

/// Whether `run` and `step` are the beginning of a buy on a snapshot.
pub open spec fn begins_buy<S: Number>(
    symbol: Seq<char>,
    snap: IndicatorSnapshot<S>,
    params: StrategyParams<S>,
    quantity: S,
    run: CycleRun<S>,
    step: CycleStep<S>,
) -> bool {
    &&& run.stage matches CycleStage::Buying(buy) && {
        &&& buy.asset@ == symbol
        &&& buy.entry_price == snap.current_price
        &&& buy.stop_loss == snap.swing_low
        &&& buy.atr == snap.atr_14
        &&& buy.confidence@ == confidence_of(snap, params)
        &&& buy.reasoning@ == reasoning_of(snap, params)
        &&& buy.quantity == quantity
        &&& buy.trailing_stop_atr == params.trailing_stop_atr
        &&& buy.stage is AwaitFilters
        &&& step == CycleStep::<S>::Ask(Request::Filters { symbol: buy.asset })
    }
}

/// Whether `run`, `step` and `after` are the beginning of the sale of what is
/// held in `symbol`.
pub open spec fn begins_sale<S: Number>(
    symbol: String,
    exit: bool,
    before: RiskState<S>,
    run: CycleRun<S>,
    step: CycleStep<S>,
    after: RiskState<S>,
) -> bool {
    &&& after == before.with_closed(symbol@)
    &&& index_of(before.positions, symbol@) matches Some(i) && run.stage matches CycleStage::Selling {
        sale,
        exit: on_exit,
    } && on_exit == exit && sale == (SellRun {
        symbol,
        position: before.positions[i],
        stage: SellStage::AwaitCancel,
    })
    &&& step == CycleStep::<S>::Ask(Request::CancelOrders { symbol })
}

/// Whether the protection of what is held in `symbol`, if anything, is looked
/// after: with a maintenance begun where it needs work, else on with the next
/// pair.
pub open spec fn looks_after<S: Number>(
    config: Config<S>,
    index: int,
    symbol: String,
    price: S,
    params: StrategyParams<S>,
    before: RiskState<S>,
    run: CycleRun<S>,
    step: CycleStep<S>,
    after: RiskState<S>,
) -> bool {
    match index_of(before.positions, symbol@) {
        None => after == before && begins_pair(config, index + 1, run, step),
        Some(i) => {
            let position = marked(before.positions[i], price);
            &&& after == before.with_updated(symbol@, position)
            &&& if position.protected && !ratchets(position, params) {
                begins_pair(config, index + 1, run, step)
            } else {
                &&& run.index == index
                &&& run.stage matches CycleStage::Maintaining(maintenance) && maintenance == (
                MaintainRun {
                    symbol,
                    desired: desired_stop(position, params),
                    quantity: position.quantity,
                    was_protected: position.protected,
                    stage: MaintainStage::AwaitFilters,
                })
                &&& step == CycleStep::<S>::Ask(Request::Filters { symbol })
            }
        },
    }
}

/// Whether `run`, `step` and `after` are what the rules make of a snapshot.
pub open spec fn acts_on<S: Number>(
    config: Config<S>,
    index: int,
    equity: Equity<S>,
    snap: IndicatorSnapshot<S>,
    params: StrategyParams<S>,
    before: RiskState<S>,
    run: CycleRun<S>,
    step: CycleStep<S>,
    after: RiskState<S>,
) -> bool {
    let symbol = config.trading_pairs@[index];
    let price = snap.current_price;
    match decision(snap, params) {
        Signal::Buy => if before.holds(symbol@) {
            looks_after(config, index, symbol, price, params, before, run, step, after)
        } else {
            let quantity = sized_within(
                equity.total,
                equity.free_quote,
                before.limits.risk_per_trade,
                price,
                snap.swing_low,
            ).0;
            &&& after == before
            &&& if !before.may_open() || quantity.le(zero::<S>()) {
                begins_pair(config, index + 1, run, step)
            } else {
                run.index == index && begins_buy(symbol@, snap, params, quantity, run, step)
            }
        },
        Signal::Sell => if before.holds(symbol@) {
            run.index == index && begins_sale(symbol, false, before, run, step, after)
        } else {
            after == before && begins_pair(config, index + 1, run, step)
        },
        _ => if exit_from(before.positions, symbol@, price, 0) is Some {
            run.index == index && begins_sale(symbol, true, before, run, step, after)
        } else {
            looks_after(config, index, symbol, price, params, before, run, step, after)
        },
    }
}

/// Whether `run`, `step` and `after` are what follows from the equity: a new day
/// is opened where one has begun, a drawdown beyond the limit halts and is told,
/// a halt that stands ends the cycle, and otherwise the first pair is begun.
pub open spec fn opens_with<S: Number>(
    config: Config<S>,
    equity: Equity<S>,
    now: u64,
    before: RiskState<S>,
    run: CycleRun<S>,
    step: CycleStep<S>,
    after: RiskState<S>,
) -> bool {
    let today = before.on_day(day_of(now), equity.total);
    &&& after == today.after_drawdown_check(equity.total)
    &&& run.equity == equity
    &&& if today.limit_broken(equity.total) {
        &&& run.stage is AwaitHaltNotice
        &&& step == CycleStep::<S>::Ask(
            Request::Notify(
                Notice::Halt {
                    drawdown_pct: today.drawdown(equity.total).product(S::of_ratio(100, 1)),
                    equity: equity.total,
                },
            ),
        )
    } else if today.halted {
        run.stage is Over && step == CycleStep::<S>::Done(Ok(()))
    } else {
        begins_pair(config, 0, run, step)
    }
}

/// Whether `run` and `step` follow from the end of an execution: an error is told
/// before the next pair is begun.
pub open spec fn closes_pair<S: Number>(
    config: Config<S>,
    index: int,
    result: Result<(), ExecError<S>>,
    trouble: spec_fn(ExecError<S>) -> Trouble<S>,
    run: CycleRun<S>,
    step: CycleStep<S>,
) -> bool {
    match result {
        Ok(_) => begins_pair(config, index + 1, run, step),
        Err(error) => {
            &&& run.index == index
            &&& run.stage is AwaitErrorNotice
            &&& step == CycleStep::<S>::Ask(Request::Notify(Notice::Error(trouble(error))))
        },
    }
}

pub open spec fn sale_trouble<S>(symbol: String, exit: bool, error: ExecError<S>) -> Trouble<S> {
    if exit {
        Trouble::Exit { symbol, error }
    } else {
        Trouble::Sell { symbol, error }
    }
}

/// Whether `run`, `step` and `after` are the beginning of a cycle, or of the closing
/// of everything where that is asked for.
pub open spec fn begins_cycle<S: Number>(
    force_close: bool,
    params: StrategyParams<S>,
    before: RiskState<S>,
    run: CycleRun<S>,
    step: CycleStep<S>,
    after: RiskState<S>,
) -> bool {
    &&& run.params == params
    &&& if force_close {
        let names = before.positions.map_values(|p: Position<S>| p.symbol);
        let m = next_sale(names, 0, before);
        &&& after == m.state
        &&& match sale_step(m.sale) {
            Step::Ask(request) => {
                &&& run.stage matches CycleStage::ClosingAll(inner) && inner.symbols@ == names
                    && inner.next == m.next && inner.sale == m.sale
                &&& step == CycleStep::<S>::Ask(request)
            },
            Step::Done(_) => run.stage is Over && step == CycleStep::<S>::Done(Ok(())),
        }
    } else {
        &&& run.stage matches CycleStage::Pricing(inner) && inner.stage is AwaitAccount
        &&& step == CycleStep::<S>::Ask(Request::Account)
        &&& after == before
    }
}

impl<S: Number> CycleRun<S> {
    pub open spec fn awaits(self, reply: Reply<S>) -> bool {
        match self.stage {
            CycleStage::ClosingAll(inner) => inner.awaits(reply),
            CycleStage::Pricing(inner) => inner.awaits(reply),
            CycleStage::AwaitHaltNotice => reply is Notified,
            CycleStage::AwaitDaily => reply is Klines,
            CycleStage::AwaitFourHour { .. } => reply is Klines,
            CycleStage::AwaitPrice { .. } => reply is Price,
            CycleStage::Buying(inner) => inner.awaits(reply),
            CycleStage::Selling { sale, .. } => sale.awaits(reply),
            CycleStage::Maintaining(inner) => inner.awaits(reply),
            CycleStage::AwaitErrorNotice => reply is Notified,
            CycleStage::Over => false,
        }
    }

    /// The pair at hand is one of the configured ones.
    pub open spec fn well_formed(self, config: Config<S>) -> bool {
        match self.stage {
            CycleStage::ClosingAll(inner) => inner.next <= inner.symbols@.len(),
            CycleStage::Pricing(inner) => inner.well_formed(),
            CycleStage::AwaitHaltNotice => true,
            CycleStage::Over => true,
            _ => self.index < config.trading_pairs.len(),
        }
    }

    /// Whether a reply it awaits leads to `run`, `step` and `after`.
    pub open spec fn leads_to(
        self,
        reply: Reply<S>,
        now: u64,
        config: Config<S>,
        before: RiskState<S>,
        run: CycleRun<S>,
        step: CycleStep<S>,
        after: RiskState<S>,
    ) -> bool {
        let i = self.index as int;
        let symbol = config.trading_pairs@[i];
        &&& run.params == self.params
        &&& !(self.stage is Pricing) ==> run.equity == self.equity
        &&& match (self.stage, reply) {
            (CycleStage::ClosingAll(inner), _) => exists|next: CloseAllRun<S>, inner_step: Step<S>|
                {
                    &&& #[trigger] inner.leads_to(reply, before, next, inner_step, after)
                    &&& match inner_step {
                        Step::Ask(request) => run.stage == CycleStage::ClosingAll(next) && step
                            == CycleStep::<S>::Ask(request),
                        Step::Done(_) => run.stage is Over && step == CycleStep::<S>::Done(Ok(())),
                    }
                },
            (CycleStage::Pricing(inner), _) => exists|next: EquityRun<S>, inner_step: EquityStep<S>|
                {
                    &&& #[trigger] inner.leads_to(reply, config, next, inner_step)
                    &&& match inner_step {
                        EquityStep::Ask(request) => {
                            &&& run.stage == CycleStage::Pricing(next)
                            &&& step == CycleStep::<S>::Ask(request)
                            &&& after == before
                            &&& run.equity == self.equity
                        },
                        EquityStep::Done(Ok(equity)) => opens_with(
                            config,
                            equity,
                            now,
                            before,
                            run,
                            step,
                            after,
                        ),
                        EquityStep::Done(Err(error)) => {
                            &&& run.stage is Over
                            &&& step == CycleStep::<S>::Done(Err(error))
                            &&& after == before
                            &&& run.equity == self.equity
                        },
                    }
                },
            (CycleStage::AwaitHaltNotice, _) => after == before && run.stage is Over && step
                == CycleStep::<S>::Done(Ok(())),
            (CycleStage::AwaitDaily, Reply::Klines(Ok(candles))) => {
                &&& after == before
                &&& run.index == i
                &&& run.stage matches CycleStage::AwaitFourHour { daily } && daily@
                    == closed_candles(candles@, now)
                &&& step == CycleStep::<S>::Ask(
                    Request::Klines {
                        symbol,
                        interval: Interval::FourHour,
                        limit: FOUR_HOUR_LIMIT,
                    },
                )
            },
            (CycleStage::AwaitFourHour { daily }, Reply::Klines(Ok(candles))) => {
                &&& after == before
                &&& run.index == i
                &&& run.stage matches CycleStage::AwaitPrice { daily: kept, four_hour } && kept@
                    == daily@ && four_hour@ == closed_candles(candles@, now)
                &&& step == CycleStep::<S>::Ask(Request::Price { symbol })
            },
            (CycleStage::AwaitPrice { daily, four_hour }, Reply::Price(Ok(price))) => {
                match indicators_of(daily@, four_hour@, price) {
                    Some(snap) => acts_on(
                        config,
                        i,
                        self.equity,
                        snap,
                        self.params,
                        before,
                        run,
                        step,
                        after,
                    ),
                    None => after == before && begins_pair(config, i + 1, run, step),
                }
            },
            (CycleStage::Buying(inner), _) => {
                let moved = inner.next(reply, now);
                &&& after == opened_state(before, moved.opened)
                &&& match moved.step {
                    Step::Ask(request) => run.index == i && run.stage == CycleStage::Buying(
                        moved.run,
                    ) && step == CycleStep::<S>::Ask(request),
                    Step::Done(result) => closes_pair(
                        config,
                        i,
                        result,
                        |error: ExecError<S>| Trouble::Buy { symbol, error },
                        run,
                        step,
                    ),
                }
            },
            (CycleStage::Selling { sale, exit }, _) => {
                let moved = sale.next(reply);
                &&& after == opened_state(before, moved.restored)
                &&& match moved.step {
                    Step::Ask(request) => run.index == i && run.stage == (CycleStage::Selling {
                        sale: moved.run,
                        exit,
                    }) && step == CycleStep::<S>::Ask(request),
                    Step::Done(result) => closes_pair(
                        config,
                        i,
                        result,
                        |error: ExecError<S>| sale_trouble(symbol, exit, error),
                        run,
                        step,
                    ),
                }
            },
            (CycleStage::Maintaining(inner), _) => {
                let moved = inner.next(reply);
                &&& after == with_news(before, inner.symbol@, moved.news)
                &&& match moved.step {
                    Step::Ask(request) => run.index == i && run.stage == CycleStage::Maintaining(
                        moved.run,
                    ) && step == CycleStep::<S>::Ask(request),
                    Step::Done(_) => begins_pair(config, i + 1, run, step),
                }
            },
            // A fetch that failed, or an error that was told.
            _ => after == before && begins_pair(config, i + 1, run, step),
        }
    }

    /// Starts a cycle, or the closing of everything where that is asked for.
    pub fn begin(force_close: bool, params: StrategyParams<S>, risk: &mut RiskManager<S>) -> (r: (
        CycleRun<S>,
        CycleStep<S>,
    ))
        ensures
            begins_cycle(force_close, params, old(risk)@, r.0, r.1, final(risk)@),
            forall|config: Config<S>| #[trigger] r.0.well_formed(config),
            r.1 matches CycleStep::Ask(request) ==> forall|answer: Reply<S>| #[trigger]
                request.is_answered_by(answer) ==> r.0.awaits(answer),
    {
        let nothing = Equity { free_quote: S::ratio(0, 1), total: S::ratio(0, 1) };
        if force_close {
            let (inner, step) = Executor::close_all_positions(risk);
            match step {
                Step::Ask(request) => (
                    CycleRun {
                        params,
                        equity: nothing,
                        index: 0,
                        stage: CycleStage::ClosingAll(inner),
                    },
                    CycleStep::Ask(request),
                ),
                Step::Done(_) => (
                    CycleRun { params, equity: nothing, index: 0, stage: CycleStage::Over },
                    CycleStep::Done(Ok(())),
                ),
            }
        } else {
            let (inner, _) = EquityRun::begin();
            (
                CycleRun { params, equity: nothing, index: 0, stage: CycleStage::Pricing(inner) },
                CycleStep::Ask(Request::Account),
            )
        }
    }

    fn at(self, stage: CycleStage<S>) -> (r: CycleRun<S>)
        ensures
            r.params == self.params,
            r.equity == self.equity,
            r.index == self.index,
            r.stage == stage,
    {
        CycleRun { params: self.params, equity: self.equity, index: self.index, stage }
    }

    fn start_pair(self, index: usize, config: &Config<S>) -> (r: (CycleRun<S>, CycleStep<S>))
        ensures
            begins_pair(*config, index as int, r.0, r.1),
            r.0.params == self.params,
            r.0.equity == self.equity,
            r.0.well_formed(*config),
            r.1 matches CycleStep::Ask(request) ==> forall|answer: Reply<S>| #[trigger]
                request.is_answered_by(answer) ==> r.0.awaits(answer),
    {
        if index < config.trading_pairs.len() {
            let run = CycleRun {
                params: self.params,
                equity: self.equity,
                index,
                stage: CycleStage::AwaitDaily,
            };
            let step = CycleStep::Ask(
                Request::Klines {
                    symbol: config.trading_pairs[index].clone(),
                    interval: Interval::Daily,
                    limit: DAILY_LIMIT,
                },
            );
            (run, step)
        } else {
            (self.at(CycleStage::Over), CycleStep::Done(Ok(())))
        }
    }

    fn open_cycle(
        self,
        equity: Equity<S>,
        now: u64,
        config: &Config<S>,
        risk: &mut RiskManager<S>,
    ) -> (r: (CycleRun<S>, CycleStep<S>))
        ensures
            opens_with(*config, equity, now, old(risk)@, r.0, r.1, final(risk)@),
            r.0.params == self.params,
            r.0.well_formed(*config),
            r.1 matches CycleStep::Ask(request) ==> forall|answer: Reply<S>| #[trigger]
                request.is_answered_by(answer) ==> r.0.awaits(answer),
    {
        let run = CycleRun {
            params: self.params,
            equity,
            index: self.index,
            stage: CycleStage::Over,
        };
        risk.start_day(utc_day_of(now), equity.total);
        if risk.check_drawdown(equity.total) {
            let notice = Notice::Halt {
                drawdown_pct: risk.drawdown_pct(equity.total),
                equity: equity.total,
            };
            return (
                run.at(CycleStage::AwaitHaltNotice),
                CycleStep::Ask(Request::Notify(notice)),
            );
        }
        if risk.halted {
            return (run, CycleStep::Done(Ok(())));
        }
        run.start_pair(0, config)
    }

    fn start_sale(self, symbol: &String, exit: bool, risk: &mut RiskManager<S>) -> (r: (
        CycleRun<S>,
        CycleStep<S>,
    ))
        requires
            old(risk)@.holds(symbol@),
        ensures
            begins_sale(*symbol, exit, old(risk)@, r.0, r.1, final(risk)@),
            r.0.params == self.params,
            r.0.equity == self.equity,
            r.0.index == self.index,
            r.1 matches CycleStep::Ask(request) ==> forall|answer: Reply<S>| #[trigger]
                request.is_answered_by(answer) ==> r.0.awaits(answer),
    {
        match Executor::execute_sell(symbol, risk) {
            Ok((sale, _)) => {
                let step = CycleStep::Ask(Request::CancelOrders { symbol: symbol.clone() });
                (self.at(CycleStage::Selling { sale, exit }), step)
            },
            Err(_) => (self, CycleStep::Done(Ok(()))),
        }
    }

    fn look_after(
        self,
        symbol: &String,
        price: S,
        config: &Config<S>,
        risk: &mut RiskManager<S>,
    ) -> (r: (CycleRun<S>, CycleStep<S>))
        requires
            self.index < config.trading_pairs.len(),
        ensures
            looks_after(
                *config,
                self.index as int,
                *symbol,
                price,
                self.params,
                old(risk)@,
                r.0,
                r.1,
                final(risk)@,
            ),
            r.0.params == self.params,
            r.0.equity == self.equity,
            r.0.well_formed(*config),
            r.1 matches CycleStep::Ask(request) ==> forall|answer: Reply<S>| #[trigger]
                request.is_answered_by(answer) ==> r.0.awaits(answer),
    {
        let next: usize = self.index + 1;
        match Executor::maintain_protection(symbol, price, &self.params, risk) {
            Some((maintenance, _)) => {
                let step = CycleStep::Ask(Request::Filters { symbol: symbol.clone() });
                (self.at(CycleStage::Maintaining(maintenance)), step)
            },
            None => self.start_pair(next, config),
        }
    }

    fn act(self, snap: &IndicatorSnapshot<S>, config: &Config<S>, risk: &mut RiskManager<S>) -> (r:
        (CycleRun<S>, CycleStep<S>))
        requires
            self.index < config.trading_pairs.len(),
        ensures
            acts_on(
                *config,
                self.index as int,
                self.equity,
                *snap,
                self.params,
                old(risk)@,
                r.0,
                r.1,
                final(risk)@,
            ),
            r.0.params == self.params,
            r.0.equity == self.equity,
            r.0.well_formed(*config),
            r.1 matches CycleStep::Ask(request) ==> forall|answer: Reply<S>| #[trigger]
                request.is_answered_by(answer) ==> r.0.awaits(answer),
    {
        let symbol = &config.trading_pairs[self.index];
        let next: usize = self.index + 1;
        let signal = evaluate(symbol.as_str(), snap, &self.params);
        match signal.signal {
            Signal::Buy => {
                if risk.has_position(symbol.as_str()) {
                    return self.look_after(symbol, snap.current_price, config, risk);
                }
                if !risk.can_open_position() {
                    return self.start_pair(next, config);
                }
                let (quantity, _) = risk.calculate_capped_size(
                    self.equity.total,
                    self.equity.free_quote,
                    signal.entry_price,
                    signal.stop_loss,
                );
                if quantity.at_most(S::ratio(0, 1)) {
                    return self.start_pair(next, config);
                }
                let (buy, _) = Executor::execute_buy(&signal, quantity, &self.params);
                let step = CycleStep::Ask(Request::Filters { symbol: signal.asset.clone() });
                (self.at(CycleStage::Buying(buy)), step)
            },
            Signal::Sell => {
                if !risk.has_position(symbol.as_str()) {
                    return self.start_pair(next, config);
                }
                self.start_sale(symbol, false, risk)
            },
            _ => {
                if risk.check_exits(symbol.as_str(), snap.current_price).is_some() {
                    proof {
                        lemma_exit_is_held(risk.positions@, symbol@, snap.current_price, 0);
                    }
                    return self.start_sale(symbol, true, risk);
                }
                self.look_after(symbol, snap.current_price, config, risk)
            },
        }
    }

    fn close_pair(
        self,
        result: Result<(), ExecError<S>>,
        buy: bool,
        exit: bool,
        config: &Config<S>,
    ) -> (r: (CycleRun<S>, CycleStep<S>))
        requires
            self.index < config.trading_pairs.len(),
        ensures
            ({
                let symbol = config.trading_pairs@[self.index as int];
                &&& buy ==> closes_pair(
                    *config,
                    self.index as int,
                    result,
                    |error: ExecError<S>| Trouble::Buy { symbol, error },
                    r.0,
                    r.1,
                )
                &&& !buy ==> closes_pair(
                    *config,
                    self.index as int,
                    result,
                    |error: ExecError<S>| sale_trouble(symbol, exit, error),
                    r.0,
                    r.1,
                )
            }),
            r.0.params == self.params,
            r.0.equity == self.equity,
            r.0.well_formed(*config),
            r.1 matches CycleStep::Ask(request) ==> forall|answer: Reply<S>| #[trigger]
                request.is_answered_by(answer) ==> r.0.awaits(answer),
    {
        let next: usize = self.index + 1;
        match result {
            Ok(_) => self.start_pair(next, config),
            Err(error) => {
                let symbol = config.trading_pairs[self.index].clone();
                let trouble = if buy {
                    Trouble::Buy { symbol, error }
                } else if exit {
                    Trouble::Exit { symbol, error }
                } else {
                    Trouble::Sell { symbol, error }
                };
                (
                    self.at(CycleStage::AwaitErrorNotice),
                    CycleStep::Ask(Request::Notify(Notice::Error(trouble))),
                )
            },
        }
    }

    /// Takes the reply to the last request. `now` is the time in epoch
    /// milliseconds.
    pub fn step(
        self,
        reply: Reply<S>,
        now: u64,
        config: &Config<S>,
        risk: &mut RiskManager<S>,
    ) -> (r: (CycleRun<S>, CycleStep<S>))
        requires
            self.awaits(reply),
            self.well_formed(*config),
        ensures
            self.leads_to(reply, now, *config, old(risk)@, r.0, r.1, final(risk)@),
            r.0.well_formed(*config),
            r.1 matches CycleStep::Ask(request) ==> forall|answer: Reply<S>| #[trigger]
                request.is_answered_by(answer) ==> r.0.awaits(answer),
    {
        let CycleRun { params, equity, index, stage } = self;
        let run = CycleRun { params, equity, index, stage: CycleStage::Over };
        match (stage, reply) {
            (CycleStage::ClosingAll(inner), reply) => {
                let (next, step) = inner.step(reply, risk);
                match step {
                    Step::Ask(request) => (
                        run.at(CycleStage::ClosingAll(next)),
                        CycleStep::Ask(request),
                    ),
                    Step::Done(_) => (run, CycleStep::Done(Ok(()))),
                }
            },
            (CycleStage::Pricing(inner), reply) => {
                let (next, step) = inner.step(reply, config);
                match step {
                    EquityStep::Ask(request) => (
                        run.at(CycleStage::Pricing(next)),
                        CycleStep::Ask(request),
                    ),
                    EquityStep::Done(Ok(equity)) => run.open_cycle(equity, now, config, risk),
                    EquityStep::Done(Err(error)) => (run, CycleStep::Done(Err(error))),
                }
            },
            (CycleStage::AwaitHaltNotice, _) => (run, CycleStep::Done(Ok(()))),
            (CycleStage::AwaitDaily, Reply::Klines(Ok(candles))) => {
                let daily = closed_only(&candles, now);
                let step = CycleStep::Ask(
                    Request::Klines {
                        symbol: config.trading_pairs[index].clone(),
                        interval: Interval::FourHour,
                        limit: FOUR_HOUR_LIMIT,
                    },
                );
                (run.at(CycleStage::AwaitFourHour { daily }), step)
            },
            (CycleStage::AwaitFourHour { daily }, Reply::Klines(Ok(candles))) => {
                let four_hour = closed_only(&candles, now);
                let step = CycleStep::Ask(
                    Request::Price { symbol: config.trading_pairs[index].clone() },
                );
                (run.at(CycleStage::AwaitPrice { daily, four_hour }), step)
            },
            (CycleStage::AwaitPrice { daily, four_hour }, Reply::Price(Ok(price))) => {
                match compute_indicators(daily.as_slice(), four_hour.as_slice(), price) {
                    Some(snap) => run.act(&snap, config, risk),
                    None => run.start_pair(index + 1, config),
                }
            },
            (CycleStage::Buying(inner), reply) => {
                let (next, step) = inner.step(reply, now, risk);
                match step {
                    Step::Ask(request) => (run.at(CycleStage::Buying(next)), CycleStep::Ask(request)),
                    Step::Done(result) => run.close_pair(result, true, false, config),
                }
            },
            (CycleStage::Selling { sale, exit }, reply) => {
                let (next, step) = sale.step(reply, risk);
                match step {
                    Step::Ask(request) => (
                        run.at(CycleStage::Selling { sale: next, exit }),
                        CycleStep::Ask(request),
                    ),
                    Step::Done(result) => run.close_pair(result, false, exit, config),
                }
            },
            (CycleStage::Maintaining(inner), reply) => {
                let (next, step) = inner.step(reply, risk);
                match step {
                    Step::Ask(request) => (
                        run.at(CycleStage::Maintaining(next)),
                        CycleStep::Ask(request),
                    ),
                    Step::Done(_) => run.start_pair(index + 1, config),
                }
            },
            _ => run.start_pair(index + 1, config),
        }
    }
}

proof fn lemma_exit_is_held<S: Number>(
    positions: Seq<Position<S>>,
    symbol: Seq<char>,
    price: S,
    from: int,
)
    requires
        0 <= from,
        exit_from(positions, symbol, price, from) is Some,
    ensures
        crate::risk::index_from(positions, symbol, from) is Some,
    decreases positions.len() - from,
{
    if from < positions.len() && positions[from].symbol@ != symbol {
        lemma_exit_is_held(positions, symbol, price, from + 1);
    }
}

// ---------------------------------------------------------------------------
// Laws
// ---------------------------------------------------------------------------

/// A buy is only begun where every entry condition holds, nothing is held in the
/// pair yet, no halt stands and there is room for a position, and then of a
/// quantity above zero. Beginning it changes nothing that is tracked.
pub proof fn law_buys_only_where_allowed<S: Number>(
    config: Config<S>,
    index: int,
    equity: Equity<S>,
    snap: IndicatorSnapshot<S>,
    params: StrategyParams<S>,
    before: RiskState<S>,
    run: CycleRun<S>,
    step: CycleStep<S>,
    after: RiskState<S>,
)
    requires
        acts_on(config, index, equity, snap, params, before, run, step, after),
        run.stage is Buying,
    ensures
        decision(snap, params) == Signal::Buy,
        !before.holds(config.trading_pairs@[index]@),
        before.may_open(),
        run.stage matches CycleStage::Buying(buy) ==> !buy.quantity.le(zero::<S>()),
        after == before,
{
}

/// A cycle that starts with a halt, or finds the drawdown limit broken, begins no
/// pair.
pub proof fn law_a_halt_stops_the_cycle<S: Number>(
    config: Config<S>,
    equity: Equity<S>,
    now: u64,
    before: RiskState<S>,
    run: CycleRun<S>,
    step: CycleStep<S>,
    after: RiskState<S>,
)
    requires
        opens_with(config, equity, now, before, run, step, after),
        after.halted,
    ensures
        run.stage is AwaitHaltNotice || run.stage is Over,
{
}

/// An account that cannot be valued ends the cycle with an error and leaves every
/// position as it was.
pub proof fn law_unknown_equity_ends_the_cycle<S: Number>(
    cycle: CycleRun<S>,
    reply: Reply<S>,
    now: u64,
    config: Config<S>,
    before: RiskState<S>,
    run: CycleRun<S>,
    step: CycleStep<S>,
    after: RiskState<S>,
)
    requires
        cycle.stage is Pricing,
        cycle.awaits(reply),
        (reply matches Reply::Account(Err(_))) || (reply matches Reply::Price(Err(_))),
        cycle.leads_to(reply, now, config, before, run, step, after),
    ensures
        run.stage is Over,
        step matches CycleStep::Done(Err(_)),
        after == before,
{
}

/// Only closed candles are looked at: what has not closed by `now` makes no
/// difference.
pub proof fn law_open_bars_make_no_difference<S>(candles: Seq<Candle<S>>, bar: Candle<S>, now: u64)
    requires
        bar.close_time >= now,
    ensures
        closed_candles(candles.push(bar), now) == closed_candles(candles, now),
        forall|i: int|
            0 <= i < closed_candles(candles, now).len() ==> (#[trigger] closed_candles(
                candles,
                now,
            )[i]).close_time < now,
{
    reveal(Seq::filter);
    assert(candles.push(bar).drop_last() =~= candles);
    broadcast use vstd::seq_lib::group_filter_ensures;

}

/// Every candle that has closed by `now` is looked at, in its place.
pub proof fn law_closed_bars_are_kept<S>(candles: Seq<Candle<S>>, bar: Candle<S>, now: u64)
    requires
        bar.close_time < now,
    ensures
        closed_candles(candles.push(bar), now) == closed_candles(candles, now).push(bar),
        closed_candles(Seq::<Candle<S>>::empty(), now).len() == 0,
{
    reveal(Seq::filter);
    assert(candles.push(bar).drop_last() =~= candles);
}

/// A pair begins with its last two hundred and fifty daily candles, and a cycle that is
/// through with its pairs is over, without an error.
pub proof fn law_a_pair_begins_with_its_days<S: Number>(
    config: Config<S>,
    index: int,
    run: CycleRun<S>,
    step: CycleStep<S>,
)
    requires
        0 <= index,
        begins_pair(config, index, run, step),
    ensures
        index < config.trading_pairs@.len() ==> {
            &&& run.index == index
            &&& run.stage is AwaitDaily
            &&& step matches CycleStep::Ask(Request::Klines { symbol, interval, limit })
            &&& symbol == config.trading_pairs@[index]
            &&& interval is Daily
            &&& limit == 250
        },
        index >= config.trading_pairs@.len() ==> run.stage is Over && step == CycleStep::<S>::Done(
            Ok(()),
        ),
{
}

/// What a pair is decided on. Its daily candles are followed by its last hundred of four
/// hours, and those by its price; both are kept as far as they have closed. A fetch that
/// fails moves on to the next pair, and none of it touches a position.
pub proof fn law_what_a_pair_is_decided_on<S: Number>(
    cycle: CycleRun<S>,
    reply: Reply<S>,
    now: u64,
    config: Config<S>,
    before: RiskState<S>,
    run: CycleRun<S>,
    step: CycleStep<S>,
    after: RiskState<S>,
)
    requires
        cycle.well_formed(config),
        cycle.awaits(reply),
        cycle.leads_to(reply, now, config, before, run, step, after),
        cycle.stage is AwaitDaily || cycle.stage is AwaitFourHour || cycle.stage is AwaitPrice,
    ensures
        run.params == cycle.params,
        run.equity == cycle.equity,
        ({
            let pair = config.trading_pairs@[cycle.index as int];
            &&& reply matches Reply::Klines(Ok(candles)) ==> {
                &&& after == before
                &&& run.index == cycle.index
                &&& cycle.stage is AwaitDaily ==> {
                    &&& run.stage matches CycleStage::AwaitFourHour { daily }
                    &&& daily@ == closed_candles(candles@, now)
                    &&& step matches CycleStep::Ask(Request::Klines { symbol, interval, limit })
                    &&& symbol == pair
                    &&& interval is FourHour
                    &&& limit == 100
                }
                &&& (cycle.stage matches CycleStage::AwaitFourHour { daily } ==> {
                    &&& run.stage matches CycleStage::AwaitPrice { daily: kept, four_hour }
                    &&& kept@ == daily@
                    &&& four_hour@ == closed_candles(candles@, now)
                    &&& step matches CycleStep::Ask(Request::Price { symbol })
                    &&& symbol == pair
                })
            }
        }),
        ((reply matches Reply::Klines(Err(_))) || (reply matches Reply::Price(Err(_)))) ==> after
            == before && begins_pair(config, cycle.index + 1, run, step),
{
}

/// What a SELL does: what is held in the pair is sold, from the record that was kept of it,
/// after its orders are cancelled; without anything held the next pair is begun.
pub proof fn law_a_sell_sells_what_is_held<S: Number>(
    cycle: CycleRun<S>,
    price: S,
    now: u64,
    config: Config<S>,
    before: RiskState<S>,
    run: CycleRun<S>,
    step: CycleStep<S>,
    after: RiskState<S>,
    snap: IndicatorSnapshot<S>,
    i: int,
)
    requires
        cycle.well_formed(config),
        cycle.leads_to(Reply::Price(Ok(price)), now, config, before, run, step, after),
        cycle.stage matches CycleStage::AwaitPrice { daily, four_hour } && indicators_of(
            daily@,
            four_hour@,
            price,
        ) == Some(snap),
        decision(snap, cycle.params) == Signal::Sell,
    ensures
        ({
            let pair = config.trading_pairs@[cycle.index as int];
            &&& (0 <= i < before.positions.len() && before.positions[i].symbol@ == pair@ && forall|
                k: int,
            |
                0 <= k < i ==> (#[trigger] before.positions[k]).symbol@ != pair@) ==> {
                &&& run.index == cycle.index
                &&& run.stage matches CycleStage::Selling { sale, exit }
                &&& !exit
                &&& sale.symbol == pair
                &&& sale.position == before.positions[i]
                &&& step == CycleStep::<S>::Ask(Request::CancelOrders { symbol: pair })
                &&& after.positions == before.positions.remove(i)
            }
            &&& (forall|k: int|
                0 <= k < before.positions.len() ==> (#[trigger] before.positions[k]).symbol@
                    != pair@) ==> after == before && begins_pair(
                config,
                cycle.index + 1,
                run,
                step,
            )
        }),
{
    let pair = config.trading_pairs@[cycle.index as int];
    law_positions_change_one_at_a_time(before, pair@, arbitrary(), i);
    lemma_index_at(before, pair@, i);
}

proof fn lemma_index_at<S: Number>(state: RiskState<S>, symbol: Seq<char>, i: int)
    ensures
        (0 <= i < state.positions.len() && state.positions[i].symbol@ == symbol && forall|k: int|
            0 <= k < i ==> (#[trigger] state.positions[k]).symbol@ != symbol) ==> index_of(
            state.positions,
            symbol,
        ) == Some(i),
{
    lemma_first_index(state.positions, symbol, 0, i);
}

/// What a BUY does in a pair that is not held: where no halt stands, there is room and the
/// size is not nothing, a buy is begun at the price, with the swing low as its stop, of the
/// size that the equity, the free cash and that stop allow. Otherwise the next pair is
/// begun. Either way no position has changed.
pub proof fn law_a_buy_is_begun_as_sized<S: Number>(
    cycle: CycleRun<S>,
    price: S,
    now: u64,
    config: Config<S>,
    before: RiskState<S>,
    run: CycleRun<S>,
    step: CycleStep<S>,
    after: RiskState<S>,
    snap: IndicatorSnapshot<S>,
)
    requires
        cycle.well_formed(config),
        cycle.leads_to(Reply::Price(Ok(price)), now, config, before, run, step, after),
        cycle.stage matches CycleStage::AwaitPrice { daily, four_hour } && indicators_of(
            daily@,
            four_hour@,
            price,
        ) == Some(snap),
        decision(snap, cycle.params) == Signal::Buy,
        forall|k: int|
            0 <= k < before.positions.len() ==> (#[trigger] before.positions[k]).symbol@
                != config.trading_pairs@[cycle.index as int]@,
    ensures
        ({
            let pair = config.trading_pairs@[cycle.index as int];
            let size = sized_within(
                cycle.equity.total,
                cycle.equity.free_quote,
                before.limits.risk_per_trade,
                price,
                snap.swing_low,
            ).0;
            let allowed = !before.halted && before.positions.len()
                < before.limits.max_open_positions && !size.le(S::of_ratio(0, 1));
            &&& after == before
            &&& !allowed ==> begins_pair(config, cycle.index + 1, run, step)
            &&& allowed ==> {
                &&& run.index == cycle.index
                &&& run.stage matches CycleStage::Buying(buy)
                &&& buy.asset@ == pair@
                &&& buy.entry_price == price
                &&& buy.stop_loss == snap.swing_low
                &&& buy.atr == snap.atr_14
                &&& buy.quantity == size
                &&& buy.trailing_stop_atr == cycle.params.trailing_stop_atr
                &&& buy.stage is AwaitFilters
                &&& buy.confidence@ == confidence_of(snap, cycle.params)
                &&& buy.reasoning@ == reasoning_of(snap, cycle.params)
                &&& step == CycleStep::<S>::Ask(Request::Filters { symbol: buy.asset })
            }
        }),
{
    let pair = config.trading_pairs@[cycle.index as int];
    law_positions_change_one_at_a_time(before, pair@, arbitrary(), 0);
    lemma_snapshot_is_at_the_price(cycle, price);
}

proof fn lemma_snapshot_is_at_the_price<S: Number>(cycle: CycleRun<S>, price: S)
    ensures
        cycle.stage matches CycleStage::AwaitPrice { daily, four_hour } ==> (indicators_of(
            daily@,
            four_hour@,
            price,
        ) matches Some(snap) ==> snap.current_price == price),
{
}

/// What a HOLD does, and a BUY in a pair that is held: on a HOLD a position whose stop or
/// target the price has reached is sold; otherwise the position takes the price in as a
/// possible highest high, and is worked on where it is unprotected or its stop has a step
/// to go up. Without a position the next pair is begun.
pub proof fn law_a_position_is_looked_after<S: Number>(
    cycle: CycleRun<S>,
    price: S,
    now: u64,
    config: Config<S>,
    before: RiskState<S>,
    run: CycleRun<S>,
    step: CycleStep<S>,
    after: RiskState<S>,
    snap: IndicatorSnapshot<S>,
    i: int,
)
    requires
        cycle.well_formed(config),
        cycle.leads_to(Reply::Price(Ok(price)), now, config, before, run, step, after),
        cycle.stage matches CycleStage::AwaitPrice { daily, four_hour } && indicators_of(
            daily@,
            four_hour@,
            price,
        ) == Some(snap),
        decision(snap, cycle.params) == Signal::Hold || (decision(snap, cycle.params)
            == Signal::Buy && 0 <= i < before.positions.len()),
        (0 <= i < before.positions.len() && before.positions[i].symbol@
            == config.trading_pairs@[cycle.index as int]@ && forall|k: int|
            0 <= k < before.positions.len() && k != i ==> (#[trigger] before.positions[k]).symbol@
                != config.trading_pairs@[cycle.index as int]@) || forall|k: int|
            0 <= k < before.positions.len() ==> (#[trigger] before.positions[k]).symbol@
                != config.trading_pairs@[cycle.index as int]@,
        decision(snap, cycle.params) == Signal::Buy ==> before.positions[i].symbol@
            == config.trading_pairs@[cycle.index as int]@,
    ensures
        ({
            let pair = config.trading_pairs@[cycle.index as int];
            let held = 0 <= i < before.positions.len() && before.positions[i].symbol@ == pair@;
            let position = before.positions[i];
            let exits = decision(snap, cycle.params) == Signal::Hold && reaches_a_level(
                position,
                price,
            );
            &&& !held ==> after == before && begins_pair(config, cycle.index + 1, run, step)
            &&& held && exits ==> {
                &&& run.index == cycle.index
                &&& run.stage matches CycleStage::Selling { sale, exit }
                &&& exit
                &&& sale.symbol == pair
                &&& sale.position == position
                &&& step == CycleStep::<S>::Ask(Request::CancelOrders { symbol: pair })
                &&& after.positions == before.positions.remove(i)
            }
            &&& held && !exits ==> {
                let now_marked = after.positions[i];
                &&& after.positions == before.positions.update(i, now_marked)
                &&& now_marked == (Position { highest_high: now_marked.highest_high, ..position })
                &&& now_marked.highest_high == larger_of(position.highest_high, price)
                &&& now_marked.protected && !ratchets(now_marked, cycle.params) ==> begins_pair(
                    config,
                    cycle.index + 1,
                    run,
                    step,
                )
                &&& !now_marked.protected || ratchets(now_marked, cycle.params) ==> {
                    &&& run.index == cycle.index
                    &&& run.stage matches CycleStage::Maintaining(work)
                    &&& work.symbol == pair
                    &&& work.desired == desired_stop(now_marked, cycle.params)
                    &&& work.quantity == position.quantity
                    &&& work.was_protected == position.protected
                    &&& step == CycleStep::<S>::Ask(Request::Filters { symbol: pair })
                }
            }
        }),
{
    let pair = config.trading_pairs@[cycle.index as int];
    lemma_snapshot_is_at_the_price(cycle, price);
    law_positions_change_one_at_a_time(before, pair@, arbitrary(), i);
    lemma_index_at(before, pair@, i);
    law_exits_are_at_the_levels(before.positions, pair@, price, i);
    let exit = exit_from(before.positions, pair@, price, 0);
    if let Some(found) = exit {
        law_exits_are_at_the_levels(before.positions, pair@, price, found);
        assert(before.positions[found].symbol@ == pair@);
    }
    if 0 <= i < before.positions.len() && before.positions[i].symbol@ == pair@ {
        let fresh = marked(before.positions[i], price);
        law_positions_change_one_at_a_time(before, pair@, fresh, i);
    }
}

/// Without a snapshot a pair is left as it is, and the next one is begun.
pub proof fn law_no_snapshot_no_action<S: Number>(
    cycle: CycleRun<S>,
    price: S,
    now: u64,
    config: Config<S>,
    before: RiskState<S>,
    run: CycleRun<S>,
    step: CycleStep<S>,
    after: RiskState<S>,
)
    requires
        cycle.well_formed(config),
        cycle.leads_to(Reply::Price(Ok(price)), now, config, before, run, step, after),
        cycle.stage matches CycleStage::AwaitPrice { daily, four_hour } && indicators_of(
            daily@,
            four_hour@,
            price,
        ) is None,
    ensures
        after == before,
        begins_pair(config, cycle.index + 1, run, step),
{
}

/// How a cycle opens once the account is valued. Another day than the one on record starts
/// from this equity, without a halt. Where the day has lost more of what it opened with
/// than the limit allows, trading is halted and that is told, with the loss in percent.
/// A halt that stands ends the cycle; otherwise the first pair is begun.
pub proof fn law_how_a_cycle_opens<S: Number>(
    config: Config<S>,
    equity: Equity<S>,
    now: u64,
    before: RiskState<S>,
    run: CycleRun<S>,
    step: CycleStep<S>,
    after: RiskState<S>,
)
    requires
        opens_with(config, equity, now, before, run, step, after),
    ensures
        ({
            let fresh = day_of(now) != before.current_utc_day;
            let opened = if fresh {
                equity.total
            } else {
                before.day_open_balance
            };
            let lost = opened.difference(equity.total).quotient(opened);
            let broken = !opened.le(S::of_ratio(0, 1)) && before.limits.daily_drawdown.lt(lost);
            let stands = !fresh && before.halted;
            &&& run.equity == equity
            &&& after.positions == before.positions
            &&& after.limits == before.limits
            &&& after.current_utc_day == day_of(now)
            &&& after.day_open_balance == opened
            &&& after.halted == (stands || broken)
            &&& broken ==> {
                &&& run.stage is AwaitHaltNotice
                &&& step matches CycleStep::Ask(
                    Request::Notify(Notice::Halt { drawdown_pct, equity: told }),
                )
                &&& drawdown_pct == lost.product(S::of_ratio(100, 1))
                &&& told == equity.total
            }
            &&& !broken && stands ==> run.stage is Over && step == CycleStep::<S>::Done(Ok(()))
            &&& !broken && !stands ==> begins_pair(config, 0, run, step)
        }),
{
    law_a_new_day_starts_afresh(before, day_of(now), equity.total);
    law_a_loss_beyond_the_limit_halts(before.on_day(day_of(now), equity.total), equity.total);
}

/// How an execution ends: what went wrong with it is told, under the pair and what was
/// being done, and the next pair is begun once that is told or nothing went wrong.
pub proof fn law_how_an_execution_ends<S: Number>(
    cycle: CycleRun<S>,
    reply: Reply<S>,
    now: u64,
    config: Config<S>,
    before: RiskState<S>,
    run: CycleRun<S>,
    step: CycleStep<S>,
    after: RiskState<S>,
)
    requires
        cycle.well_formed(config),
        cycle.awaits(reply),
        cycle.leads_to(reply, now, config, before, run, step, after),
    ensures
        ({
            let symbol = config.trading_pairs@[cycle.index as int];
            &&& (cycle.stage matches CycleStage::Buying(buy) ==> match buy.next(reply, now).step {
                Step::Ask(request) => run.index == cycle.index && run.stage == CycleStage::Buying(
                    buy.next(reply, now).run,
                ) && step == CycleStep::<S>::Ask(request),
                Step::Done(Ok(_)) => begins_pair(config, cycle.index + 1, run, step),
                Step::Done(Err(error)) => run.stage is AwaitErrorNotice && step == CycleStep::<
                    S,
                >::Ask(Request::Notify(Notice::Error(Trouble::Buy { symbol, error }))),
            })
            &&& (cycle.stage matches CycleStage::Selling { sale, exit } ==> match sale.next(
                reply,
            ).step {
                Step::Ask(request) => run.index == cycle.index && run.stage == (
                CycleStage::Selling { sale: sale.next(reply).run, exit }) && step == CycleStep::<
                    S,
                >::Ask(request),
                Step::Done(Ok(_)) => begins_pair(config, cycle.index + 1, run, step),
                Step::Done(Err(error)) => run.stage is AwaitErrorNotice && step == CycleStep::<
                    S,
                >::Ask(
                    Request::Notify(
                        Notice::Error(
                            if exit {
                                Trouble::Exit { symbol, error }
                            } else {
                                Trouble::Sell { symbol, error }
                            },
                        ),
                    ),
                ),
            })
            &&& (cycle.stage matches CycleStage::Maintaining(work) ==> match work.next(reply).step {
                Step::Ask(request) => run.index == cycle.index && step == CycleStep::<S>::Ask(
                    request,
                ),
                Step::Done(_) => begins_pair(config, cycle.index + 1, run, step),
            })
            &&& cycle.stage is AwaitErrorNotice ==> after == before && begins_pair(
                config,
                cycle.index + 1,
                run,
                step,
            )
            &&& cycle.stage is AwaitHaltNotice ==> after == before && run.stage is Over && step
                == CycleStep::<S>::Done(Ok(()))
        }),
{
}

/// How a cycle begins: with the account. Where everything is to be closed, it begins with
/// the sale of the first position on record instead, and is over where nothing is held.
pub proof fn law_how_a_cycle_begins<S: Number>(
    force_close: bool,
    params: StrategyParams<S>,
    before: RiskState<S>,
    run: CycleRun<S>,
    step: CycleStep<S>,
    after: RiskState<S>,
)
    requires
        begins_cycle(force_close, params, before, run, step, after),
    ensures
        run.params == params,
        !force_close ==> {
            &&& run.stage is Pricing
            &&& step == CycleStep::<S>::Ask(Request::Account)
            &&& after == before
        },
        force_close && before.positions.len() == 0 ==> {
            &&& run.stage is Over
            &&& step == CycleStep::<S>::Done(Ok(()))
            &&& after == before
        },
        force_close && before.positions.len() > 0 ==> {
            &&& run.stage matches CycleStage::ClosingAll(inner)
            &&& inner.symbols@ == before.positions.map_values(|p: Position<S>| p.symbol)
            &&& inner.next == 1
            &&& inner.sale matches Some(sale)
            &&& sale.position == before.positions[0]
            &&& sale.symbol == before.positions[0].symbol
            &&& step == CycleStep::<S>::Ask(
                Request::CancelOrders { symbol: before.positions[0].symbol },
            )
            &&& after.positions == before.positions.remove(0)
        },
{
    if force_close && before.positions.len() > 0 {
        let first = before.positions[0];
        let names = before.positions.map_values(|p: Position<S>| p.symbol);
        assert(names[0] == first.symbol);
        lemma_index_at(before, first.symbol@, 0);
        law_positions_change_one_at_a_time(before, first.symbol@, first, 0);
    }
}

/// What a cycle is in the middle of is followed to its end. While everything is being
/// closed, or the account valued, what that asks for is asked for; the one ends the cycle
/// and the other opens it, with the equity that was found, or ends it with what went wrong.
pub proof fn law_what_is_begun_is_followed<S: Number>(
    cycle: CycleRun<S>,
    reply: Reply<S>,
    now: u64,
    config: Config<S>,
    before: RiskState<S>,
    run: CycleRun<S>,
    step: CycleStep<S>,
    after: RiskState<S>,
)
    requires
        cycle.well_formed(config),
        cycle.awaits(reply),
        cycle.leads_to(reply, now, config, before, run, step, after),
    ensures
        run.params == cycle.params,
        (cycle.stage matches CycleStage::ClosingAll(closing) ==> exists|
            next: CloseAllRun<S>,
            asked: Step<S>,
        |
            {
                &&& #[trigger] closing.leads_to(reply, before, next, asked, after)
                &&& asked matches Step::Ask(request) ==> run.stage == CycleStage::ClosingAll(next)
                &&& asked matches Step::Ask(request) ==> step == CycleStep::<S>::Ask(request)
                &&& asked is Done ==> run.stage is Over
                &&& asked is Done ==> step == CycleStep::<S>::Done(Ok(()))
            }),
        (cycle.stage matches CycleStage::Pricing(pricing) ==> exists|
            next: EquityRun<S>,
            asked: EquityStep<S>,
        |
            {
                &&& #[trigger] pricing.leads_to(reply, config, next, asked)
                &&& asked matches EquityStep::Ask(request) ==> {
                    &&& run.stage == CycleStage::Pricing(next)
                    &&& step == CycleStep::<S>::Ask(request)
                    &&& after == before
                }
                &&& asked matches EquityStep::Done(Ok(equity)) ==> opens_with(
                    config,
                    equity,
                    now,
                    before,
                    run,
                    step,
                    after,
                )
                &&& asked matches EquityStep::Done(Err(error)) ==> {
                    &&& run.stage is Over
                    &&& step == CycleStep::<S>::Done(Err(error))
                    &&& after == before
                }
            }),
{
}

/// What an execution does to the record: a buy adds the position it opened once it has, a
/// sale that failed puts its position back, and the news of a stop goes to the position in
/// its symbol. Until there is something to record the positions stay.
pub proof fn law_executions_are_recorded<S: Number>(
    cycle: CycleRun<S>,
    reply: Reply<S>,
    now: u64,
    config: Config<S>,
    before: RiskState<S>,
    run: CycleRun<S>,
    step: CycleStep<S>,
    after: RiskState<S>,
)
    requires
        cycle.well_formed(config),
        cycle.awaits(reply),
        cycle.leads_to(reply, now, config, before, run, step, after),
    ensures
        cycle.stage matches CycleStage::Buying(buy) ==> match buy.next(reply, now).opened {
            Some(position) => after.positions == before.positions.push(position),
            None => after == before,
        },
        cycle.stage matches CycleStage::Selling { sale, .. } ==> match sale.next(reply).restored {
            Some(position) => after.positions == before.positions.push(position),
            None => after == before,
        },
        cycle.stage matches CycleStage::Maintaining(work) ==> {
            &&& run.stage is Maintaining ==> run.stage == CycleStage::Maintaining(
                work.next(reply).run,
            )
            &&& after.positions.len() == before.positions.len()
            &&& forall|k: int|
                #![trigger before.positions[k]]
                0 <= k < before.positions.len() ==> {
                    let was = before.positions[k];
                    let fresh = after.positions[k];
                    &&& fresh == (Position {
                        stop_loss: fresh.stop_loss,
                        protected: fresh.protected,
                        ..was
                    })
                    &&& was.symbol@ != work.symbol@ ==> fresh == was
                    &&& work.next(reply).news is Nothing ==> fresh == was
                    &&& fresh != was || (was.symbol@ == work.symbol@ && forall|j: int|
                        0 <= j < k ==> (#[trigger] before.positions[j]).symbol@ != work.symbol@)
                        ==> match work.next(reply).news {
                        StopNews::Nothing => fresh == was,
                        StopNews::Placed(stop) => fresh.stop_loss == stop && fresh.protected,
                        StopNews::Lost => fresh.stop_loss == was.stop_loss && !fresh.protected,
                    }
                }
        },
{
    if let CycleStage::Maintaining(work) = cycle.stage {
        lemma_index_from(before.positions, work.symbol@, 0);
        assert forall|k: int|
            #![trigger before.positions[k]]
            0 <= k < before.positions.len() && before.positions[k].symbol@ == work.symbol@ && (
            forall|j: int|
                0 <= j < k ==> (#[trigger] before.positions[j]).symbol@ != work.symbol@) implies
            index_of(before.positions, work.symbol@) == Some(k) by {
            lemma_index_at(before, work.symbol@, k);
        }
    }
}

} // verus!
