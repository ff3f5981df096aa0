//! Startup reconciliation: after a crash, holdings are matched to configured
//! pairs, and none is left without a protective stop.

use vstd::prelude::*;
use crate::config::{pair_of, Config};
use crate::equity::{law_every_configured_holding_is_priced, next_holding};
use crate::exchange::{
    last_stop, last_target, protective_levels, rounded_down, AccountSnapshot, Balance, OpenOrder,
    SymbolFilters,
};
use crate::executor::stop_limit_slip;
use crate::number::{zero, Number};
use crate::risk::{Position, RiskManager, RiskState};
use crate::venue::{Notice, Reply, Request};

verus! {

/// Holdings worth less than this are leftover fractions, not real positions.
pub open spec fn dust_notional<S: Number>() -> S {
    S::of_ratio(5, 1)
}

/// The conservative bracket around a holding whose levels are unknown, as
/// fractions of its price.
pub open spec fn emergency_stop<S: Number>() -> S {
    S::of_ratio(97, 100)
}

pub open spec fn emergency_target<S: Number>() -> S {
    S::of_ratio(106, 100)
}

/// What a reconciliation found.
#[derive(Debug, Clone, Copy, PartialEq, Eq, Structural)]
pub struct Counts {
    /// Positions whose stop was still on the venue.
    pub restored: u32,
    /// Emergency brackets placed.
    pub emergency: u32,
    /// Holdings that could not be protected or even looked at.
    pub failed: u32,
}

pub open spec fn one_more(n: u32) -> u32 {
    if n < u32::MAX {
        (n + 1) as u32
    } else {
        n
    }
}

fn count_one(n: u32) -> (r: u32)
    ensures
        r == one_more(n),
{
    if n < u32::MAX {
        n + 1
    } else {
        n
    }
}

/// The bracket that an unprotected holding is rescued with.
#[derive(Debug, Clone, Copy, PartialEq)]
pub struct Rescue<S> {
    pub price: S,
    pub quantity: S,
    pub stop: S,
    pub take_profit: S,
    pub stop_limit: S,
}

/// The bracket, at the venue's tick and step: otherwise the rescue would be
/// rejected and the position stay naked.
pub open spec fn rescue_of<S: Number>(quantity: S, price: S, filters: SymbolFilters<S>) -> Rescue<S> {
    let stop = price.product(emergency_stop::<S>());
    Rescue {
        price,
        quantity: rounded_down(quantity, filters.step_size),
        stop: rounded_down(stop, filters.tick_size),
        take_profit: rounded_down(price.product(emergency_target::<S>()), filters.tick_size),
        stop_limit: rounded_down(stop.product(stop_limit_slip::<S>()), filters.tick_size),
    }
}

fn rescue<S: Number>(quantity: S, price: S, filters: &SymbolFilters<S>) -> (r: Rescue<S>)
    ensures
        r == rescue_of(quantity, price, *filters),
{
    let stop = price.times(S::ratio(97, 100));
    Rescue {
        price,
        quantity: filters.round_quantity(quantity),
        stop: filters.round_price(stop),
        take_profit: filters.round_price(price.times(S::ratio(106, 100))),
        stop_limit: filters.round_price(stop.times(S::ratio(998, 1000))),
    }
}

#[derive(Debug, PartialEq)]
pub enum ReconcileStep<S> {
    Ask(Request<S>),
    Done,
}

#[derive(Debug, Clone, Copy, PartialEq)]
pub enum ReconcileStage<S> {
    AwaitAccount,
    AwaitOrders,
    /// A stop rests on the venue, and these levels were found among the orders.
    AwaitMark { stop_loss: S, take_profit: S },
    /// No stop could be identified on the venue.
    AwaitPrice,
    AwaitFilters { price: S },
    AwaitBracket { rescue: Rescue<S> },
    AwaitNotice,
    Over,
}

/// Goes through the account's holdings, and registers each as a position.
#[derive(Debug)]
pub struct ReconcileRun<S> {
    pub assets: Vec<Balance<S>>,
    /// The holding at hand, which trades as `symbol`.
    pub index: usize,
    pub symbol: String,
    pub counts: Counts,
    pub stage: ReconcileStage<S>,
}

/// A position found on the venue. Its true entry is not persisted anywhere, so
/// the entry price is today's mark and the entry time unknown. Only a stop that
/// was positively identified counts as protection, so only such a holding is
/// restored.
pub open spec fn restored_position<S: Number>(
    symbol: String,
    quantity: S,
    price: S,
    stop_loss: S,
    take_profit: S,
) -> Position<S> {
    Position {
        symbol,
        entry_price: price,
        quantity,
        stop_loss,
        take_profit,
        entry_time: 0,
        protected: zero::<S>().lt(stop_loss),
        highest_high: price,
        atr_at_entry: zero::<S>(),
    }
}

/// A position bracketed in an emergency. Its levels are tracked either way: where
/// the bracket failed, the bot's own exit check is the only stop.
pub open spec fn rescued_position<S: Number>(
    symbol: String,
    rescue: Rescue<S>,
    protected: bool,
) -> Position<S> {
    Position {
        symbol,
        entry_price: rescue.price,
        quantity: rescue.quantity,
        stop_loss: rescue.stop,
        take_profit: rescue.take_profit,
        entry_time: 0,
        protected,
        highest_high: rescue.price,
        atr_at_entry: zero::<S>(),
    }
}

/// Whether `run` and `step` are at the next holding from `from` on, or at the
/// report where there is none.
pub open spec fn looks_from<S: Number>(
    config: Config<S>,
    assets: Seq<Balance<S>>,
    from: int,
    counts: Counts,
    run: ReconcileRun<S>,
    step: ReconcileStep<S>,
) -> bool {
    &&& run.counts == counts
    &&& match next_holding(config.trading_pairs@, config.quote_asset@, assets, from) {
        Some((i, pair)) => {
            &&& run.assets@ == assets
            &&& run.index == i
            &&& run.symbol == pair
            &&& run.stage is AwaitOrders
            &&& step == ReconcileStep::<S>::Ask(Request::OpenOrders { symbol: pair })
        },
        None => {
            &&& run.stage is AwaitNotice
            &&& step == ReconcileStep::<S>::Ask(
                Request::Notify(
                    Notice::Reconcile {
                        restored: counts.restored,
                        emergency: counts.emergency,
                        failed: counts.failed,
                    },
                ),
            )
        },
    }
}

impl<S: Number> ReconcileRun<S> {
    pub open spec fn awaits(self, reply: Reply<S>) -> bool {
        match self.stage {
            ReconcileStage::AwaitAccount => reply is Account,
            ReconcileStage::AwaitOrders => reply is Orders,
            ReconcileStage::AwaitMark { .. } => reply is Price,
            ReconcileStage::AwaitPrice => reply is Price,
            ReconcileStage::AwaitFilters { .. } => reply is Filters,
            ReconcileStage::AwaitBracket { .. } => reply is Oco,
            ReconcileStage::AwaitNotice => reply is Notified,
            ReconcileStage::Over => false,
        }
    }

    pub open spec fn well_formed(self) -> bool {
        match self.stage {
            ReconcileStage::AwaitAccount => true,
            ReconcileStage::AwaitNotice => true,
            ReconcileStage::Over => true,
            ReconcileStage::AwaitMark { stop_loss, .. } => self.index < self.assets.len()
                && zero::<S>().lt(stop_loss),
            _ => self.index < self.assets.len(),
        }
    }

    /// Whether `run` is this one at another stage of the same holding.
    pub open spec fn goes_on(self, stage: ReconcileStage<S>, run: ReconcileRun<S>) -> bool {
        &&& run.assets@ == self.assets@
        &&& run.index == self.index
        &&& run.symbol == self.symbol
        &&& run.counts == self.counts
        &&& run.stage == stage
    }

    /// Whether `run` and `step` are on with the next holding.
    pub open spec fn next_with(
        self,
        config: Config<S>,
        counts: Counts,
        run: ReconcileRun<S>,
        step: ReconcileStep<S>,
    ) -> bool {
        looks_from(config, self.assets@, self.index + 1, counts, run, step)
    }

    pub open spec fn with_failure(self) -> Counts {
        Counts { failed: one_more(self.counts.failed), ..self.counts }
    }

    /// Whether a reply it awaits leads to `run`, `step` and `after`.
    pub open spec fn leads_to(
        self,
        reply: Reply<S>,
        config: Config<S>,
        before: RiskState<S>,
        run: ReconcileRun<S>,
        step: ReconcileStep<S>,
        after: RiskState<S>,
    ) -> bool {
        let quantity = self.assets@[self.index as int].quantity;
        match (self.stage, reply) {
            (ReconcileStage::AwaitAccount, Reply::Account(Ok(account))) => {
                &&& after == before
                &&& looks_from(config, account.assets@, 0, self.counts, run, step)
            },
            (ReconcileStage::AwaitOrders, Reply::Orders(Ok(orders))) => {
                &&& after == before
                &&& self.goes_on(
                    if zero::<S>().lt(last_stop(orders@)) {
                        ReconcileStage::AwaitMark {
                            stop_loss: last_stop(orders@),
                            take_profit: last_target(orders@),
                        }
                    } else {
                        ReconcileStage::AwaitPrice
                    },
                    run,
                )
                &&& step == ReconcileStep::<S>::Ask(Request::Price { symbol: self.symbol })
            },
            (ReconcileStage::AwaitMark { stop_loss, take_profit }, Reply::Price(price)) => {
                &&& after == before.with_opened(
                    restored_position(
                        self.symbol,
                        quantity,
                        match price {
                            Ok(mark) => mark,
                            Err(_) => zero::<S>(),
                        },
                        stop_loss,
                        take_profit,
                    ),
                )
                &&& self.next_with(
                    config,
                    Counts { restored: one_more(self.counts.restored), ..self.counts },
                    run,
                    step,
                )
            },
            (ReconcileStage::AwaitPrice, Reply::Price(Ok(price))) => {
                &&& after == before
                &&& if quantity.product(price).lt(dust_notional::<S>()) {
                    self.next_with(config, self.counts, run, step)
                } else {
                    &&& self.goes_on(ReconcileStage::AwaitFilters { price }, run)
                    &&& step == ReconcileStep::<S>::Ask(Request::Filters { symbol: self.symbol })
                }
            },
            (ReconcileStage::AwaitFilters { price }, Reply::Filters(Ok(filters))) => {
                let rescue = rescue_of(quantity, price, filters);
                &&& after == before
                &&& self.goes_on(ReconcileStage::AwaitBracket { rescue }, run)
                &&& step == ReconcileStep::<S>::Ask(
                    Request::OcoSell {
                        symbol: self.symbol,
                        quantity: rescue.quantity,
                        take_profit: rescue.take_profit,
                        stop: rescue.stop,
                        stop_limit: rescue.stop_limit,
                    },
                )
            },
            (ReconcileStage::AwaitBracket { rescue }, Reply::Oco(placed)) => {
                &&& after == before.with_opened(
                    rescued_position(self.symbol, rescue, placed is Ok),
                )
                &&& self.next_with(
                    config,
                    if placed is Ok {
                        Counts { emergency: one_more(self.counts.emergency), ..self.counts }
                    } else {
                        self.with_failure()
                    },
                    run,
                    step,
                )
            },
            // Without a view of the account, or after the report, there is nothing
            // more to do.
            (ReconcileStage::AwaitAccount, _) => after == before && self.goes_on(
                ReconcileStage::Over,
                run,
            ) && step == ReconcileStep::<S>::Done,
            (ReconcileStage::AwaitNotice, _) => after == before && self.goes_on(
                ReconcileStage::Over,
                run,
            ) && step == ReconcileStep::<S>::Done,
            // A holding that could not be looked at.
            _ => after == before && self.next_with(config, self.with_failure(), run, step),
        }
    }

    /// Starts going through the account.
    pub fn begin() -> (r: (ReconcileRun<S>, ReconcileStep<S>))
        ensures
            r.0.stage is AwaitAccount,
            r.0.counts == (Counts { restored: 0, emergency: 0, failed: 0 }),
            r.0.well_formed(),
            r.1 == ReconcileStep::<S>::Ask(Request::Account),
    {
        let run = ReconcileRun {
            assets: Vec::new(),
            index: 0,
            symbol: String::new(),
            counts: Counts { restored: 0, emergency: 0, failed: 0 },
            stage: ReconcileStage::AwaitAccount,
        };
        (run, ReconcileStep::Ask(Request::Account))
    }

    fn advance(self, from: usize, counts: Counts, config: &Config<S>) -> (r: (
        ReconcileRun<S>,
        ReconcileStep<S>,
    ))
        requires
            from <= self.assets@.len(),
        ensures
            looks_from(*config, self.assets@, from as int, counts, r.0, r.1),
            r.0.well_formed(),
            r.1 matches ReconcileStep::Ask(request) ==> forall|answer: Reply<S>| #[trigger]
                request.is_answered_by(answer) ==> r.0.awaits(answer),
    {
        let ReconcileRun { assets, index: _, symbol, counts: _, stage: _ } = self;
        let mut index: usize = from;
        while index < assets.len()
            invariant
                from <= index <= assets@.len(),
                assets@ == self.assets@,
                next_holding(
                    config.trading_pairs@,
                    config.quote_asset@,
                    assets@,
                    from as int,
                ) == next_holding(
                    config.trading_pairs@,
                    config.quote_asset@,
                    assets@,
                    index as int,
                ),
            decreases assets@.len() - index,
        {
            match config.pair_of(assets[index].asset.as_str()) {
                Some(pair) => {
                    let step = ReconcileStep::Ask(Request::OpenOrders { symbol: pair.clone() });
                    let run = ReconcileRun {
                        assets,
                        index,
                        symbol: pair.clone(),
                        counts,
                        stage: ReconcileStage::AwaitOrders,
                    };
                    return (run, step);
                },
                None => {
                    index = index + 1;
                },
            }
        }
        let run = ReconcileRun { assets, index, symbol, counts, stage: ReconcileStage::AwaitNotice };
        let notice = Notice::Reconcile {
            restored: counts.restored,
            emergency: counts.emergency,
            failed: counts.failed,
        };
        (run, ReconcileStep::Ask(Request::Notify(notice)))
    }

    fn at(self, stage: ReconcileStage<S>) -> (r: ReconcileRun<S>)
        ensures
            self.goes_on(stage, r),
            r.assets == self.assets,
    {
        ReconcileRun {
            assets: self.assets,
            index: self.index,
            symbol: self.symbol,
            counts: self.counts,
            stage,
        }
    }

    /// Takes the reply to the last request.
    pub fn step(self, reply: Reply<S>, config: &Config<S>, risk: &mut RiskManager<S>) -> (r: (
        ReconcileRun<S>,
        ReconcileStep<S>,
    ))
        requires
            self.awaits(reply),
            self.well_formed(),
        ensures
            self.leads_to(reply, *config, old(risk)@, r.0, r.1, final(risk)@),
            r.0.well_formed(),
            r.1 matches ReconcileStep::Ask(request) ==> forall|answer: Reply<S>| #[trigger]
                request.is_answered_by(answer) ==> r.0.awaits(answer),
    {
        let counts = self.counts;
        let index: usize = self.index;
        let stage = self.stage;
        let failed = Counts {
            restored: counts.restored,
            emergency: counts.emergency,
            failed: count_one(counts.failed),
        };
        match (stage, reply) {
            (ReconcileStage::AwaitAccount, Reply::Account(Ok(account))) => {
                let AccountSnapshot { free_quote: _, assets } = account;
                let run = ReconcileRun { assets, index: 0, symbol: self.symbol, counts, stage };
                run.advance(0, counts, config)
            },
            (ReconcileStage::AwaitOrders, Reply::Orders(Ok(orders))) => {
                let step = ReconcileStep::Ask(Request::Price { symbol: self.symbol.clone() });
                let (stop_loss, take_profit) = protective_levels(orders.as_slice());
                if S::ratio(0, 1).below(stop_loss) {
                    (self.at(ReconcileStage::AwaitMark { stop_loss, take_profit }), step)
                } else {
                    (self.at(ReconcileStage::AwaitPrice), step)
                }
            },
            (ReconcileStage::AwaitMark { stop_loss, take_profit }, Reply::Price(answer)) => {
                let price = match answer {
                    Ok(mark) => mark,
                    Err(_) => S::ratio(0, 1),
                };
                risk.open_position(
                    Position {
                        symbol: self.symbol.clone(),
                        entry_price: price,
                        quantity: self.assets[index].quantity,
                        stop_loss,
                        take_profit,
                        entry_time: 0,
                        protected: S::ratio(0, 1).below(stop_loss),
                        highest_high: price,
                        atr_at_entry: S::ratio(0, 1),
                    },
                );
                let counts = Counts {
                    restored: count_one(counts.restored),
                    emergency: counts.emergency,
                    failed: counts.failed,
                };
                self.advance(index + 1, counts, config)
            },
            (ReconcileStage::AwaitPrice, Reply::Price(Ok(price))) => {
                if self.assets[index].quantity.times(price).below(S::ratio(5, 1)) {
                    return self.advance(index + 1, counts, config);
                }
                let step = ReconcileStep::Ask(Request::Filters { symbol: self.symbol.clone() });
                (self.at(ReconcileStage::AwaitFilters { price }), step)
            },
            (ReconcileStage::AwaitFilters { price }, Reply::Filters(Ok(filters))) => {
                let rescue = rescue(self.assets[index].quantity, price, &filters);
                let step = ReconcileStep::Ask(
                    Request::OcoSell {
                        symbol: self.symbol.clone(),
                        quantity: rescue.quantity,
                        take_profit: rescue.take_profit,
                        stop: rescue.stop,
                        stop_limit: rescue.stop_limit,
                    },
                );
                (self.at(ReconcileStage::AwaitBracket { rescue }), step)
            },
            (ReconcileStage::AwaitBracket { rescue }, Reply::Oco(placed)) => {
                let protected = placed.is_ok();
                risk.open_position(
                    Position {
                        symbol: self.symbol.clone(),
                        entry_price: rescue.price,
                        quantity: rescue.quantity,
                        stop_loss: rescue.stop,
                        take_profit: rescue.take_profit,
                        entry_time: 0,
                        protected,
                        highest_high: rescue.price,
                        atr_at_entry: S::ratio(0, 1),
                    },
                );
                if protected {
                    let counts = Counts {
                        restored: counts.restored,
                        emergency: count_one(counts.emergency),
                        failed: counts.failed,
                    };
                    self.advance(index + 1, counts, config)
                } else {
                    self.advance(index + 1, failed, config)
                }
            },
            (ReconcileStage::AwaitAccount, _) => (
                self.at(ReconcileStage::Over),
                ReconcileStep::Done,
            ),
            (ReconcileStage::AwaitNotice, _) => (
                self.at(ReconcileStage::Over),
                ReconcileStep::Done,
            ),
            _ => self.advance(index + 1, failed, config),
        }
    }
}

// ---------------------------------------------------------------------------
// Laws
// ---------------------------------------------------------------------------

/// A holding is restored exactly where a stop was found among its orders, and is
/// then protected. Any other goes on towards the emergency bracket, and counts as
/// protected exactly where the venue confirmed it. A registered position is always
/// counted as restored, rescued or failed, and one that is not protected as failed.
pub proof fn law_reconciled_positions<S: Number>(
    run: ReconcileRun<S>,
    reply: Reply<S>,
    config: Config<S>,
    before: RiskState<S>,
    next: ReconcileRun<S>,
    step: ReconcileStep<S>,
    after: RiskState<S>,
)
    requires
        run.awaits(reply),
        run.well_formed(),
        run.leads_to(reply, config, before, next, step, after),
    ensures
        run.stage is AwaitOrders ==> (reply matches Reply::Orders(Ok(orders)) ==> {
            &&& after == before
            &&& next.stage is AwaitMark <==> zero::<S>().lt(last_stop(orders@))
            &&& next.stage is AwaitPrice <==> !zero::<S>().lt(last_stop(orders@))
        }),
        (run.stage is AwaitFilters && (reply matches Reply::Filters(Ok(_)))) ==> step matches
            ReconcileStep::Ask(Request::OcoSell { .. }),
        after == before || {
            let position = after.positions.last();
            &&& after == before.with_opened(position)
            &&& position.symbol == run.symbol
            &&& position.entry_time == 0
            &&& position.protected <==> run.stage is AwaitMark || (reply matches Reply::Oco(
                Ok(_),
            ))
            &&& match run.stage {
                ReconcileStage::AwaitMark { .. } => next.counts.restored == one_more(
                    run.counts.restored,
                ),
                _ => if reply matches Reply::Oco(Ok(_)) {
                    next.counts.emergency == one_more(run.counts.emergency)
                } else {
                    next.counts.failed == one_more(run.counts.failed)
                },
            }
        },
        (after != before && !after.positions.last().protected) ==> next.counts.failed == one_more(
            run.counts.failed,
        ),
{
    if run.stage is AwaitMark || run.stage is AwaitBracket {
        assert(after.positions.last() == after.positions[before.positions.len() as int]);
    }
}

/// A holding is never passed over in silence: leaving it without a position means
/// that it is dust, or that it is counted as failed.
pub proof fn law_no_holding_is_passed_over<S: Number>(
    run: ReconcileRun<S>,
    reply: Reply<S>,
    config: Config<S>,
    before: RiskState<S>,
    next: ReconcileRun<S>,
    step: ReconcileStep<S>,
    after: RiskState<S>,
)
    requires
        run.awaits(reply),
        run.leads_to(reply, config, before, next, step, after),
        after == before,
        !(run.stage is AwaitAccount),
        next.stage is AwaitOrders || next.stage is AwaitNotice,
    ensures
        ({
            ||| next.counts.failed == one_more(run.counts.failed)
            ||| run.stage is AwaitPrice && (reply matches Reply::Price(Ok(price))
                && run.assets@[run.index as int].quantity.product(price).lt(dust_notional::<S>()))
        }),
{
    if run.stage is AwaitMark || run.stage is AwaitBracket {
        assert(after.positions.len() == before.positions.len() + 1);
    }
}

/// How many of the positions have no confirmed protection.
pub open spec fn unprotected<S>(positions: Seq<Position<S>>) -> nat
    decreases positions.len(),
{
    if positions.len() == 0 {
        0
    } else {
        unprotected(positions.drop_last()) + if positions.last().protected {
            0nat
        } else {
            1nat
        }
    }
}

/// Where a reconciliation stands.
pub struct ReconcilePoint<S> {
    pub run: ReconcileRun<S>,
    pub step: ReconcileStep<S>,
    pub state: RiskState<S>,
}

/// Whether an awaited reply leads from one point of a reconciliation to the next.
pub open spec fn reconciles_on<S: Number>(
    config: Config<S>,
    point: ReconcilePoint<S>,
    reply: Reply<S>,
    next: ReconcilePoint<S>,
) -> bool {
    &&& point.run.awaits(reply)
    &&& point.run.well_formed()
    &&& point.run.leads_to(reply, config, point.state, next.run, next.step, next.state)
}

/// Whether `points` is how a reconciliation goes with these replies, from its
/// beginning on.
pub open spec fn reconciliation_goes<S: Number>(
    config: Config<S>,
    before: RiskState<S>,
    replies: Seq<Reply<S>>,
    points: Seq<ReconcilePoint<S>>,
) -> bool {
    &&& points.len() == replies.len() + 1
    &&& points[0].run.stage is AwaitAccount
    &&& points[0].run.counts == (Counts { restored: 0, emergency: 0, failed: 0 })
    &&& points[0].state == before
    &&& forall|k: int| 0 <= k < replies.len() ==> #[trigger] reconciles_on(
        config,
        points[k],
        replies[k],
        points[k + 1],
    )
}

/// No holding is left unprotected in silence: at every point of a reconciliation,
/// what was on record before still is, and of the positions registered since no
/// more lack protection than are counted as failed. The count is told to the
/// operator at the end; it stops at what it can hold.
pub proof fn law_unprotected_positions_are_counted<S: Number>(
    config: Config<S>,
    before: RiskState<S>,
    replies: Seq<Reply<S>>,
    points: Seq<ReconcilePoint<S>>,
    k: int,
)
    requires
        reconciliation_goes(config, before, replies, points),
        0 <= k < points.len(),
    ensures
        ({
            let state = points[k].state;
            let registered = state.positions.skip(before.positions.len() as int);
            let failed = points[k].run.counts.failed;
            &&& state.positions == before.positions + registered
            &&& state == RiskState { positions: state.positions, ..before }
            &&& unprotected(registered) <= failed || failed == u32::MAX
        }),
    decreases k,
{
    let n = before.positions.len() as int;
    if k == 0 {
        assert(before.positions.skip(n) =~= Seq::empty());
        assert(before.positions =~= before.positions + before.positions.skip(n));
    } else {
        law_unprotected_positions_are_counted(config, before, replies, points, k - 1);
        let was = points[k - 1];
        let is = points[k];
        assert(reconciles_on(config, was, replies[k - 1], points[k - 1 + 1]));
        law_reconciled_positions(
            was.run,
            replies[k - 1],
            config,
            was.state,
            is.run,
            is.step,
            is.state,
        );
        assert(was.run.counts.failed <= is.run.counts.failed);
        if is.state != was.state {
            let position = is.state.positions.last();
            let earlier = was.state.positions.skip(n);
            let registered = is.state.positions.skip(n);
            assert(registered =~= earlier.push(position));
            assert(registered.drop_last() =~= earlier);
            assert(is.state.positions =~= before.positions + registered);
        }
    }
}

/// Whether `after` is `before` with one more position, in the pair and of the time
/// unknown, and nothing else changed.
pub open spec fn registers<S: Number>(
    run: ReconcileRun<S>,
    before: RiskState<S>,
    after: RiskState<S>,
    position: Position<S>,
) -> bool {
    &&& after.positions == before.positions.push(position)
    &&& after == RiskState { positions: after.positions, ..before }
    &&& position.symbol == run.symbol
    &&& position.entry_time == 0
    &&& position.atr_at_entry == S::of_ratio(0, 1)
}

/// A holding that a stop was found for is put on record as it stands on the account: with
/// the balance as its quantity, at the price that was just reported as its entry and its
/// high-water mark, zero where none was, and with the levels that were found.
pub proof fn law_a_restored_position_is_the_holding<S: Number>(
    run: ReconcileRun<S>,
    reply: Reply<S>,
    config: Config<S>,
    before: RiskState<S>,
    next: ReconcileRun<S>,
    step: ReconcileStep<S>,
    after: RiskState<S>,
)
    requires
        run.stage is AwaitMark,
        run.awaits(reply),
        run.well_formed(),
        run.leads_to(reply, config, before, next, step, after),
    ensures
        ({
            let position = after.positions.last();
            &&& registers(run, before, after, position)
            &&& position.quantity == run.assets@[run.index as int].quantity
            &&& reply matches Reply::Price(Ok(price)) ==> position.entry_price == price
                && position.highest_high == price
            &&& reply matches Reply::Price(Err(_)) ==> position.entry_price == S::of_ratio(0, 1)
                && position.highest_high == S::of_ratio(0, 1)
            &&& run.stage matches ReconcileStage::AwaitMark { stop_loss, take_profit } ==> {
                &&& position.stop_loss == stop_loss
                &&& position.take_profit == take_profit
            }
            &&& position.protected
            &&& next.counts.restored == one_more(run.counts.restored)
            &&& next.counts.emergency == run.counts.emergency
            &&& next.counts.failed == run.counts.failed
        }),
{
    assert(after.positions.last() == after.positions[before.positions.len() as int]);
}

/// A holding that no stop was found for is rescued with a bracket of its own. The price
/// is asked for, and a holding that is worth less than five is left alone. Around any
/// other the bracket goes three percent below the price and six above, its limit at 0.998
/// times the stop, all on the tick, for the whole balance in whole steps.
pub proof fn law_an_unprotected_holding_is_rescued<S: Number>(
    run: ReconcileRun<S>,
    reply: Reply<S>,
    config: Config<S>,
    before: RiskState<S>,
    next: ReconcileRun<S>,
    step: ReconcileStep<S>,
    after: RiskState<S>,
)
    requires
        run.awaits(reply),
        run.well_formed(),
        run.leads_to(reply, config, before, next, step, after),
    ensures
        ({
            let held = run.assets@[run.index as int].quantity;
            let same = next.assets@ == run.assets@ && next.index == run.index && next.symbol
                == run.symbol && next.counts == run.counts && after == before;
            &&& run.stage is AwaitPrice && (reply matches Reply::Price(Ok(price))
                && !held.product(price).lt(S::of_ratio(5, 1))) ==> same && step == ReconcileStep::<
                S,
            >::Ask(Request::Filters { symbol: run.symbol }) && (next.stage matches
                ReconcileStage::AwaitFilters { price } && reply == Reply::<S>::Price(Ok(price)))
            &&& run.stage is AwaitPrice && (reply matches Reply::Price(Ok(price)) && held.product(
                price,
            ).lt(S::of_ratio(5, 1))) ==> after == before && next.counts == run.counts && (
            next.stage is AwaitOrders || next.stage is AwaitNotice)
            &&& run.stage matches ReconcileStage::AwaitFilters { price } ==> (reply matches
                Reply::Filters(Ok(filters)) ==> {
                let level = price.product(S::of_ratio(97, 100));
                let tick = filters.tick_size;
                &&& same
                &&& next.stage matches ReconcileStage::AwaitBracket { rescue } && {
                    &&& rescue.price == price
                    &&& rescue.quantity == rounded_down(held, filters.step_size)
                    &&& rescue.stop == rounded_down(level, tick)
                    &&& rescue.stop_limit == rounded_down(
                        level.product(S::of_ratio(998, 1000)),
                        tick,
                    )
                    &&& rescue.take_profit == rounded_down(
                        price.product(S::of_ratio(106, 100)),
                        tick,
                    )
                    &&& step == ReconcileStep::<S>::Ask(
                        Request::OcoSell {
                            symbol: run.symbol,
                            quantity: rescue.quantity,
                            take_profit: rescue.take_profit,
                            stop: rescue.stop,
                            stop_limit: rescue.stop_limit,
                        },
                    )
                }
            })
            &&& run.stage matches ReconcileStage::AwaitBracket { rescue } ==> {
                let position = after.positions.last();
                &&& registers(run, before, after, position)
                &&& position.quantity == rescue.quantity
                &&& position.entry_price == rescue.price
                &&& position.highest_high == rescue.price
                &&& position.stop_loss == rescue.stop
                &&& position.take_profit == rescue.take_profit
                &&& position.protected <==> (reply matches Reply::Oco(Ok(_)))
            }
        }),
{
    if run.stage is AwaitBracket {
        assert(after.positions.last() == after.positions[before.positions.len() as int]);
    }
}

/// What rests on the venue decides. A stop among the orders of a holding leads on to its
/// price with that stop and the target that was found, and no stop to the rescue; either
/// way the holding at hand stays, nothing is put on record yet, and its price is asked
/// for.
pub proof fn law_resting_orders_decide<S: Number>(
    run: ReconcileRun<S>,
    orders: Vec<OpenOrder<S>>,
    config: Config<S>,
    before: RiskState<S>,
    next: ReconcileRun<S>,
    step: ReconcileStep<S>,
    after: RiskState<S>,
)
    requires
        run.stage is AwaitOrders,
        run.leads_to(Reply::Orders(Ok(orders)), config, before, next, step, after),
    ensures
        after == before,
        next.assets@ == run.assets@,
        next.index == run.index,
        next.symbol == run.symbol,
        next.counts == run.counts,
        step == ReconcileStep::<S>::Ask(Request::Price { symbol: run.symbol }),
        S::of_ratio(0, 1).lt(last_stop(orders@)) ==> next.stage == (ReconcileStage::AwaitMark {
            stop_loss: last_stop(orders@),
            take_profit: last_target(orders@),
        }),
        !S::of_ratio(0, 1).lt(last_stop(orders@)) ==> next.stage is AwaitPrice,
{
}

/// The holdings are gone through in order: the next one is the first after the one at
/// hand that trades as a configured pair, and after the last the counts are told.
pub proof fn law_holdings_are_gone_through_in_order<S: Number>(
    config: Config<S>,
    assets: Seq<Balance<S>>,
    from: int,
    counts: Counts,
    run: ReconcileRun<S>,
    step: ReconcileStep<S>,
)
    requires
        0 <= from <= assets.len(),
        looks_from(config, assets, from, counts, run, step),
    ensures
        run.counts == counts,
        run.stage is AwaitOrders || run.stage is AwaitNotice,
        run.stage is AwaitOrders ==> {
            let i = run.index as int;
            &&& run.assets@ == assets
            &&& from <= i < assets.len()
            &&& pair_of(config.trading_pairs@, config.quote_asset@, assets[i].asset@) == Some(
                run.symbol,
            )
            &&& forall|j: int|
                from <= j < i ==> pair_of(
                    config.trading_pairs@,
                    config.quote_asset@,
                    (#[trigger] assets[j]).asset@,
                ) is None
            &&& step == ReconcileStep::<S>::Ask(Request::OpenOrders { symbol: run.symbol })
        },
        run.stage is AwaitNotice ==> {
            &&& forall|j: int|
                from <= j < assets.len() ==> pair_of(
                    config.trading_pairs@,
                    config.quote_asset@,
                    (#[trigger] assets[j]).asset@,
                ) is None
            &&& step == ReconcileStep::<S>::Ask(
                Request::Notify(
                    Notice::Reconcile {
                        restored: counts.restored,
                        emergency: counts.emergency,
                        failed: counts.failed,
                    },
                ),
            )
        },
{
    law_every_configured_holding_is_priced(
        config.trading_pairs@,
        config.quote_asset@,
        assets,
        from,
    );
}

/// A step that leaves a holding behind goes on with the one after it, and the first step
/// with the first one of the account.
pub proof fn law_no_holding_is_skipped<S: Number>(
    run: ReconcileRun<S>,
    reply: Reply<S>,
    config: Config<S>,
    before: RiskState<S>,
    next: ReconcileRun<S>,
    step: ReconcileStep<S>,
    after: RiskState<S>,
)
    requires
        run.awaits(reply),
        run.well_formed(),
        run.leads_to(reply, config, before, next, step, after),
        next.stage is AwaitOrders || next.stage is AwaitNotice,
    ensures
        !(run.stage is AwaitAccount) ==> looks_from(
            config,
            run.assets@,
            run.index + 1,
            next.counts,
            next,
            step,
        ),
        run.stage is AwaitAccount ==> (reply matches Reply::Account(Ok(account)) && next.counts
            == run.counts && looks_from(config, account.assets@, 0, run.counts, next, step)),
{
}

/// Each holding counts for one, up to what a count can hold.
pub proof fn law_counts_go_up_by_one(n: u32)
    ensures
        n < u32::MAX ==> one_more(n) == n + 1,
        n == u32::MAX ==> one_more(n) == n,
{
}

/// What is counted and when it ends. A bracket that the venue took counts as an emergency
/// and one that it did not as a failure; so does a holding that could not be looked at,
/// which is left off the record. Without a view of the account, and once the counts are
/// told, it is over.
pub proof fn law_what_is_counted_and_when_it_ends<S: Number>(
    run: ReconcileRun<S>,
    reply: Reply<S>,
    config: Config<S>,
    before: RiskState<S>,
    next: ReconcileRun<S>,
    step: ReconcileStep<S>,
    after: RiskState<S>,
)
    requires
        run.awaits(reply),
        run.well_formed(),
        run.leads_to(reply, config, before, next, step, after),
    ensures
        run.stage is AwaitBracket && (reply matches Reply::Oco(Ok(_))) ==> next.counts == (Counts {
            emergency: one_more(run.counts.emergency),
            ..run.counts
        }),
        run.stage is AwaitBracket && (reply matches Reply::Oco(Err(_))) ==> next.counts == (
        Counts { failed: one_more(run.counts.failed), ..run.counts }),
        (run.stage is AwaitOrders && (reply matches Reply::Orders(Err(_)))) || (run.stage
            is AwaitPrice && (reply matches Reply::Price(Err(_)))) || (run.stage is AwaitFilters
            && (reply matches Reply::Filters(Err(_)))) ==> {
            &&& after == before
            &&& next.counts == (Counts { failed: one_more(run.counts.failed), ..run.counts })
            &&& next.stage is AwaitOrders || next.stage is AwaitNotice
        },
        run.stage is AwaitNotice || (run.stage is AwaitAccount && (reply matches Reply::Account(
            Err(_),
        ))) ==> {
            &&& after == before
            &&& next.stage is Over
            &&& next.counts == run.counts
            &&& step is Done
        },
        run.stage is AwaitAccount ==> after == before && next.counts == run.counts,
{
}

} // verus!
