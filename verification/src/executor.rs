//! Order execution: turns a signal into venue orders and keeps the risk manager's
//! view of open positions in step with what actually filled.
//!
//! Buying, selling and keeping a position protected are runs: each names its next
//! request and takes the reply, so the same rules drive a live venue, a paper
//! trading simulator or a test double.

use vstd::prelude::*;
use crate::amount::{Amount, SCALE};
use crate::exchange::{commission_total, rounded_down, OrderOutcome, Side, SymbolFilters};
use crate::number::{
    larger, larger_of, law_larger_and_smaller, lemma_ordered, zero, Lawful, Number,
};
use crate::risk::{
    index_of, law_closing, law_held_symbols, lemma_index_from, Position, RiskManager, RiskState,
};
use crate::rounding::law_rounds_down_to_a_multiple;
use crate::strategy::{StrategyParams, TradeSignal};
use crate::text::{decimal, text_of_count};
use crate::venue::{ExecError, Notice, ProtectionFailure, Reply, Request, Step, Trouble};

verus! {

/// The stop-limit price is placed just under the trigger, so the resting limit
/// still crosses the book when the stop fires.
pub open spec fn stop_limit_slip<S: Number>() -> S {
    S::of_ratio(998, 1000)
}

/// The trailing stop is only moved once it has advanced this many ATR: each move
/// opens a window in which nothing protects the position.
pub open spec fn ratchet_min_atr<S: Number>() -> S {
    S::of_ratio(25, 100)
}

// ---------------------------------------------------------------------------
// Buying
// ---------------------------------------------------------------------------

/// What a filled entry is bracketed with.
#[derive(Debug, Clone, Copy, PartialEq)]
pub struct Bracket<S> {
    /// The realised fill, or the pre-trade quote where the venue reports none.
    pub fill_price: S,
    pub executed_qty: S,
    /// What the fee left to sell, in whole steps.
    pub sellable: S,
    pub stop_loss: S,
    pub stop_limit: S,
    /// Zero under a trailing stop, which has no target.
    pub take_profit: S,
    pub trailing: bool,
}

#[derive(Debug, PartialEq)]
pub enum BuyStage<S> {
    AwaitFilters,
    AwaitFill { filters: SymbolFilters<S> },
    AwaitProtection { bracket: Bracket<S> },
    /// The operator is being told that the position is unprotected.
    AwaitAlarm { bracket: Bracket<S> },
    AwaitNotice,
    Over,
}

/// A market buy that is then bracketed with a protective order.
///
/// The position is registered either way: where the protective order is rejected
/// the bot's own exit check is the only stop it has. It counts as protected only
/// once the venue has confirmed.
#[derive(Debug, PartialEq)]
pub struct BuyRun<S> {
    pub asset: String,
    pub entry_price: S,
    pub stop_loss: S,
    pub atr: S,
    pub confidence: String,
    pub reasoning: String,
    pub quantity: S,
    pub trailing_stop_atr: S,
    pub stage: BuyStage<S>,
}

/// Where a buy goes next, and the position that is registered on the way.
pub struct BuyMove<S> {
    pub run: BuyRun<S>,
    pub step: Step<S>,
    pub opened: Option<Position<S>>,
}

pub open spec fn opened_state<S: Number>(
    state: RiskState<S>,
    opened: Option<Position<S>>,
) -> RiskState<S> {
    match opened {
        Some(position) => state.with_opened(position),
        None => state,
    }
}

impl<S: Number> BuyRun<S> {
    pub open spec fn awaits(self, reply: Reply<S>) -> bool {
        match self.stage {
            BuyStage::AwaitFilters => reply is Filters,
            BuyStage::AwaitFill { .. } => reply is Order,
            BuyStage::AwaitProtection { bracket } => if bracket.trailing {
                reply is Stop
            } else {
                reply is Oco
            },
            BuyStage::AwaitAlarm { .. } => reply is Notified,
            BuyStage::AwaitNotice => reply is Notified,
            BuyStage::Over => false,
        }
    }

    pub open spec fn trails(self) -> bool {
        zero::<S>().lt(self.trailing_stop_atr) && zero::<S>().lt(self.atr)
    }

    /// The order that the filters admit, or why none is sent.
    pub open spec fn ordered(self, filters: SymbolFilters<S>) -> Result<S, ExecError<S>> {
        let quantity = rounded_down(self.quantity, filters.step_size);
        match filters.verdict(quantity, self.entry_price) {
            Ok(_) => Ok(quantity),
            Err(rejection) => {
                let floor = filters.smallest_tradable(self.entry_price);
                Err(
                    ExecError::Refused {
                        symbol: self.asset,
                        rejection,
                        floor,
                        base_asset: filters.base_asset,
                        notional: floor.product(self.entry_price),
                        quote_asset: filters.quote_asset,
                    },
                )
            },
        }
    }

    /// The bracket around a fill. The stop stays where the strategy put it; the
    /// target is derived anew from the realised fill, at twice the risk.
    pub open spec fn bracketed(self, filters: SymbolFilters<S>, outcome: OrderOutcome<S>) -> Bracket<
        S,
    > {
        let fill_price = if zero::<S>().lt(outcome.average_price) {
            outcome.average_price
        } else {
            self.entry_price
        };
        let target = fill_price.sum(
            S::of_ratio(2, 1).product(fill_price.difference(self.stop_loss)),
        );
        let commission = commission_total(outcome.fills@, filters.base_asset@);
        let stop_loss = rounded_down(self.stop_loss, filters.tick_size);
        Bracket {
            fill_price,
            executed_qty: outcome.filled_quantity,
            sellable: rounded_down(
                outcome.filled_quantity.difference(commission),
                filters.step_size,
            ),
            stop_loss,
            stop_limit: rounded_down(
                stop_loss.product(stop_limit_slip::<S>()),
                filters.tick_size,
            ),
            take_profit: if self.trails() {
                zero::<S>()
            } else {
                rounded_down(target, filters.tick_size)
            },
            trailing: self.trails(),
        }
    }

    /// The protective order to place, or why it would be rejected. An OCO is two
    /// orders, and both must clear every filter.
    pub open spec fn protection(self, filters: SymbolFilters<S>, bracket: Bracket<S>) -> Result<
        Request<S>,
        ProtectionFailure<S>,
    > {
        if bracket.trailing {
            Ok(
                Request::StopLoss {
                    symbol: self.asset,
                    quantity: bracket.sellable,
                    stop: bracket.stop_loss,
                    stop_limit: bracket.stop_limit,
                },
            )
        } else {
            match filters.verdict(bracket.sellable, bracket.stop_loss) {
                Err(rejection) => Err(ProtectionFailure::StopLeg(rejection)),
                Ok(_) => match filters.verdict(bracket.sellable, bracket.take_profit) {
                    Err(rejection) => Err(ProtectionFailure::TargetLeg(rejection)),
                    Ok(_) => Ok(
                        Request::OcoSell {
                            symbol: self.asset,
                            quantity: bracket.sellable,
                            take_profit: bracket.take_profit,
                            stop: bracket.stop_loss,
                            stop_limit: bracket.stop_limit,
                        },
                    ),
                },
            }
        }
    }

    /// The position that a bracketed fill is registered as.
    pub open spec fn position(self, bracket: Bracket<S>, now: u64, protected: bool) -> Position<S> {
        Position {
            symbol: self.asset,
            entry_price: bracket.fill_price,
            quantity: bracket.executed_qty,
            stop_loss: bracket.stop_loss,
            take_profit: bracket.take_profit,
            entry_time: now,
            protected,
            highest_high: bracket.fill_price,
            atr_at_entry: if bracket.trailing {
                self.atr
            } else {
                zero::<S>()
            },
        }
    }

    pub open spec fn notice(self, bracket: Bracket<S>) -> Notice<S> {
        Notice::Buy {
            symbol: self.asset,
            price: bracket.fill_price,
            quantity: bracket.executed_qty,
            stop_loss: bracket.stop_loss,
            take_profit: bracket.take_profit,
            confidence: self.confidence,
            reasoning: self.reasoning,
        }
    }

    pub open spec fn at(self, stage: BuyStage<S>) -> BuyRun<S> {
        BuyRun { stage, ..self }
    }

    pub open spec fn over(self, result: Result<(), ExecError<S>>) -> BuyMove<S> {
        BuyMove { run: self.at(BuyStage::Over), step: Step::Done(result), opened: None }
    }

    pub open spec fn alarmed(self, bracket: Bracket<S>, failure: ProtectionFailure<S>) -> BuyMove<
        S,
    > {
        BuyMove {
            run: self.at(BuyStage::AwaitAlarm { bracket }),
            step: Step::Ask(
                Request::Notify(
                    Notice::Error(Trouble::Unprotected { symbol: self.asset, failure }),
                ),
            ),
            opened: None,
        }
    }

    pub open spec fn registered(self, bracket: Bracket<S>, now: u64, protected: bool) -> BuyMove<S> {
        BuyMove {
            run: self.at(BuyStage::AwaitNotice),
            step: Step::Ask(Request::Notify(self.notice(bracket))),
            opened: Some(self.position(bracket, now, protected)),
        }
    }

    /// Where the run goes with a reply it awaits.
    pub open spec fn next(self, reply: Reply<S>, now: u64) -> BuyMove<S> {
        match (self.stage, reply) {
            (BuyStage::AwaitFilters, Reply::Filters(Ok(filters))) => match self.ordered(filters) {
                Ok(quantity) => BuyMove {
                    run: self.at(BuyStage::AwaitFill { filters }),
                    step: Step::Ask(
                        Request::MarketOrder { symbol: self.asset, side: Side::Buy, quantity },
                    ),
                    opened: None,
                },
                Err(error) => self.over(Err(error)),
            },
            (BuyStage::AwaitFilters, Reply::Filters(Err(cause))) => self.over(
                Err(ExecError::Venue(cause)),
            ),
            (BuyStage::AwaitFill { filters }, Reply::Order(Ok(outcome))) => {
                let bracket = self.bracketed(filters, outcome);
                match self.protection(filters, bracket) {
                    Ok(request) => BuyMove {
                        run: self.at(BuyStage::AwaitProtection { bracket }),
                        step: Step::Ask(request),
                        opened: None,
                    },
                    Err(failure) => self.alarmed(bracket, failure),
                }
            },
            (BuyStage::AwaitFill { .. }, Reply::Order(Err(cause))) => self.over(
                Err(ExecError::Venue(cause)),
            ),
            (BuyStage::AwaitProtection { bracket }, Reply::Oco(Ok(_))) => self.registered(
                bracket,
                now,
                true,
            ),
            (BuyStage::AwaitProtection { bracket }, Reply::Stop(Ok(_))) => self.registered(
                bracket,
                now,
                true,
            ),
            (BuyStage::AwaitProtection { bracket }, Reply::Oco(Err(cause))) => self.alarmed(
                bracket,
                ProtectionFailure::Venue(cause),
            ),
            (BuyStage::AwaitProtection { bracket }, Reply::Stop(Err(cause))) => self.alarmed(
                bracket,
                ProtectionFailure::Venue(cause),
            ),
            (BuyStage::AwaitAlarm { bracket }, _) => self.registered(bracket, now, false),
            _ => self.over(Ok(())),
        }
    }

    fn is_trailing(&self) -> (r: bool)
        ensures
            r == self.trails(),
    {
        S::ratio(0, 1).below(self.trailing_stop_atr) && S::ratio(0, 1).below(self.atr)
    }

    fn order(&self, filters: &SymbolFilters<S>) -> (r: Result<S, ExecError<S>>)
        ensures
            r == self.ordered(*filters),
    {
        let quantity = filters.round_quantity(self.quantity);
        match filters.check_order(quantity, self.entry_price) {
            Ok(_) => Ok(quantity),
            Err(rejection) => {
                let floor = filters.min_tradable_quantity(self.entry_price);
                Err(
                    ExecError::Refused {
                        symbol: self.asset.clone(),
                        rejection,
                        floor,
                        base_asset: filters.base_asset.clone(),
                        notional: floor.times(self.entry_price),
                        quote_asset: filters.quote_asset.clone(),
                    },
                )
            },
        }
    }

    fn bracket(&self, filters: &SymbolFilters<S>, outcome: &OrderOutcome<S>) -> (r: Bracket<S>)
        ensures
            r == self.bracketed(*filters, *outcome),
    {
        let fill_price = if S::ratio(0, 1).below(outcome.average_price) {
            outcome.average_price
        } else {
            self.entry_price
        };
        let target = fill_price.plus(S::ratio(2, 1).times(fill_price.minus(self.stop_loss)));
        let commission = outcome.commission_paid_in(filters.base_asset.as_str());
        let sellable = filters.round_quantity(outcome.filled_quantity.minus(commission));
        let stop_loss = filters.round_price(self.stop_loss);
        let stop_limit = filters.round_price(stop_loss.times(S::ratio(998, 1000)));
        let trailing = self.is_trailing();
        let take_profit = if trailing {
            S::ratio(0, 1)
        } else {
            filters.round_price(target)
        };
        Bracket {
            fill_price,
            executed_qty: outcome.filled_quantity,
            sellable,
            stop_loss,
            stop_limit,
            take_profit,
            trailing,
        }
    }

    fn protect(&self, filters: &SymbolFilters<S>, bracket: &Bracket<S>) -> (r: Result<
        Request<S>,
        ProtectionFailure<S>,
    >)
        ensures
            r == self.protection(*filters, *bracket),
    {
        if bracket.trailing {
            return Ok(
                Request::StopLoss {
                    symbol: self.asset.clone(),
                    quantity: bracket.sellable,
                    stop: bracket.stop_loss,
                    stop_limit: bracket.stop_limit,
                },
            );
        }
        match filters.check_order(bracket.sellable, bracket.stop_loss) {
            Err(rejection) => Err(ProtectionFailure::StopLeg(rejection)),
            Ok(_) => match filters.check_order(bracket.sellable, bracket.take_profit) {
                Err(rejection) => Err(ProtectionFailure::TargetLeg(rejection)),
                Ok(_) => Ok(
                    Request::OcoSell {
                        symbol: self.asset.clone(),
                        quantity: bracket.sellable,
                        take_profit: bracket.take_profit,
                        stop: bracket.stop_loss,
                        stop_limit: bracket.stop_limit,
                    },
                ),
            },
        }
    }

    fn alarm(self, bracket: Bracket<S>, failure: ProtectionFailure<S>) -> (r: (BuyRun<S>, Step<S>))
        ensures
            r.0 == self.alarmed(bracket, failure).run,
            r.1 == self.alarmed(bracket, failure).step,
    {
        let step = Step::Ask(
            Request::Notify(
                Notice::Error(Trouble::Unprotected { symbol: self.asset.clone(), failure }),
            ),
        );
        (self.moved(BuyStage::AwaitAlarm { bracket }), step)
    }

    fn register(self, bracket: Bracket<S>, now: u64, protected: bool, risk: &mut RiskManager<S>) -> (r:
        (BuyRun<S>, Step<S>))
        ensures
            r.0 == self.registered(bracket, now, protected).run,
            r.1 == self.registered(bracket, now, protected).step,
            final(risk)@ == opened_state(
                old(risk)@,
                self.registered(bracket, now, protected).opened,
            ),
    {
        risk.open_position(
            Position {
                symbol: self.asset.clone(),
                entry_price: bracket.fill_price,
                quantity: bracket.executed_qty,
                stop_loss: bracket.stop_loss,
                take_profit: bracket.take_profit,
                entry_time: now,
                protected,
                highest_high: bracket.fill_price,
                atr_at_entry: if bracket.trailing {
                    self.atr
                } else {
                    S::ratio(0, 1)
                },
            },
        );
        let step = Step::Ask(
            Request::Notify(
                Notice::Buy {
                    symbol: self.asset.clone(),
                    price: bracket.fill_price,
                    quantity: bracket.executed_qty,
                    stop_loss: bracket.stop_loss,
                    take_profit: bracket.take_profit,
                    confidence: self.confidence.clone(),
                    reasoning: self.reasoning.clone(),
                },
            ),
        );
        (self.moved(BuyStage::AwaitNotice), step)
    }

    fn moved(self, stage: BuyStage<S>) -> (r: BuyRun<S>)
        ensures
            r == self.at(stage),
    {
        BuyRun {
            asset: self.asset,
            entry_price: self.entry_price,
            stop_loss: self.stop_loss,
            atr: self.atr,
            confidence: self.confidence,
            reasoning: self.reasoning,
            quantity: self.quantity,
            trailing_stop_atr: self.trailing_stop_atr,
            stage,
        }
    }

    /// Takes the reply to the last request. `now` is the time in epoch
    /// milliseconds.
    pub fn step(self, reply: Reply<S>, now: u64, risk: &mut RiskManager<S>) -> (r: (
        BuyRun<S>,
        Step<S>,
    ))
        requires
            self.awaits(reply),
        ensures
            r.0 == self.next(reply, now).run,
            r.1 == self.next(reply, now).step,
            final(risk)@ == opened_state(old(risk)@, self.next(reply, now).opened),
            r.1 matches Step::Ask(request) ==> forall|answer: Reply<S>| #[trigger]
                request.is_answered_by(answer) ==> r.0.awaits(answer),
    {
        let mut run = self;
        let mut stage = BuyStage::Over;
        std::mem::swap(&mut run.stage, &mut stage);
        assert(run.at(stage) == self);
        match (stage, reply) {
            (BuyStage::AwaitFilters, Reply::Filters(Ok(filters))) => match run.order(&filters) {
                Ok(quantity) => {
                    let step = Step::Ask(
                        Request::MarketOrder {
                            symbol: run.asset.clone(),
                            side: Side::Buy,
                            quantity,
                        },
                    );
                    (run.moved(BuyStage::AwaitFill { filters }), step)
                },
                Err(error) => (run, Step::Done(Err(error))),
            },
            (BuyStage::AwaitFilters, Reply::Filters(Err(cause))) => (
                run,
                Step::Done(Err(ExecError::Venue(cause))),
            ),
            (BuyStage::AwaitFill { filters }, Reply::Order(Ok(outcome))) => {
                let bracket = run.bracket(&filters, &outcome);
                match run.protect(&filters, &bracket) {
                    Ok(request) => (
                        run.moved(BuyStage::AwaitProtection { bracket }),
                        Step::Ask(request),
                    ),
                    Err(failure) => run.alarm(bracket, failure),
                }
            },
            (BuyStage::AwaitFill { .. }, Reply::Order(Err(cause))) => (
                run,
                Step::Done(Err(ExecError::Venue(cause))),
            ),
            (BuyStage::AwaitProtection { bracket }, Reply::Oco(Ok(_))) => run.register(
                bracket,
                now,
                true,
                risk,
            ),
            (BuyStage::AwaitProtection { bracket }, Reply::Stop(Ok(_))) => run.register(
                bracket,
                now,
                true,
                risk,
            ),
            (BuyStage::AwaitProtection { bracket }, Reply::Oco(Err(cause))) => run.alarm(
                bracket,
                ProtectionFailure::Venue(cause),
            ),
            (BuyStage::AwaitProtection { bracket }, Reply::Stop(Err(cause))) => run.alarm(
                bracket,
                ProtectionFailure::Venue(cause),
            ),
            (BuyStage::AwaitAlarm { bracket }, _) => run.register(bracket, now, false, risk),
            _ => (run, Step::Done(Ok(()))),
        }
    }
}

// ---------------------------------------------------------------------------
// Selling
// ---------------------------------------------------------------------------

#[derive(Debug, Clone, Copy, PartialEq, Eq, Structural)]
pub enum SellStage {
    AwaitCancel,
    AwaitFilters,
    AwaitFill,
    AwaitNotice,
    Over,
}

/// Closes an open position: cancels what rests on the venue, then market-sells.
///
/// The resting order reserves the base asset, so it must go before the sell can
/// spend it. While the run is on, the position is out of the risk manager; where
/// the run ends in an error, whichever request failed, it is put back as it was, so
/// the next cycle retries.
#[derive(Debug, PartialEq)]
pub struct SellRun<S> {
    pub symbol: String,
    pub position: Position<S>,
    pub stage: SellStage,
}

/// Where a sell goes next, and the position that is put back on the way.
pub struct SellMove<S> {
    pub run: SellRun<S>,
    pub step: Step<S>,
    pub restored: Option<Position<S>>,
}

impl<S: Number> SellRun<S> {
    pub open spec fn awaits(self, reply: Reply<S>) -> bool {
        match self.stage {
            SellStage::AwaitCancel => reply is Cancelled,
            SellStage::AwaitFilters => reply is Filters,
            SellStage::AwaitFill => reply is Order,
            SellStage::AwaitNotice => reply is Notified,
            SellStage::Over => false,
        }
    }

    pub open spec fn at(self, stage: SellStage) -> SellRun<S> {
        SellRun { stage, ..self }
    }

    /// What the sale brought, reported against the entry price.
    pub open spec fn notice(self, sell_price: S) -> Notice<S> {
        let gain = sell_price.difference(self.position.entry_price);
        Notice::Sell {
            symbol: self.symbol,
            price: sell_price,
            pnl: gain.product(self.position.quantity),
            pnl_pct: gain.quotient(self.position.entry_price).product(S::of_ratio(100, 1)),
        }
    }

    /// Where the run goes with a reply it awaits. A failed cancel does not stop
    /// the sale.
    pub open spec fn next(self, reply: Reply<S>) -> SellMove<S> {
        match (self.stage, reply) {
            (SellStage::AwaitCancel, _) => SellMove {
                run: self.at(SellStage::AwaitFilters),
                step: Step::Ask(Request::Filters { symbol: self.symbol }),
                restored: None,
            },
            (SellStage::AwaitFilters, Reply::Filters(Ok(filters))) => SellMove {
                run: self.at(SellStage::AwaitFill),
                step: Step::Ask(
                    Request::MarketOrder {
                        symbol: self.symbol,
                        side: Side::Sell,
                        quantity: rounded_down(self.position.quantity, filters.step_size),
                    },
                ),
                restored: None,
            },
            (SellStage::AwaitFilters, Reply::Filters(Err(cause))) => SellMove {
                run: self.at(SellStage::Over),
                step: Step::Done(Err(ExecError::Venue(cause))),
                restored: Some(self.position),
            },
            (SellStage::AwaitFill, Reply::Order(Ok(outcome))) => SellMove {
                run: self.at(SellStage::AwaitNotice),
                step: Step::Ask(Request::Notify(self.notice(outcome.average_price))),
                restored: None,
            },
            (SellStage::AwaitFill, Reply::Order(Err(cause))) => SellMove {
                run: self.at(SellStage::Over),
                step: Step::Done(Err(ExecError::SellFailed { symbol: self.symbol, cause })),
                restored: Some(self.position),
            },
            _ => SellMove {
                run: self.at(SellStage::Over),
                step: Step::Done(Ok(())),
                restored: None,
            },
        }
    }

    /// Takes the reply to the last request.
    pub fn step(self, reply: Reply<S>, risk: &mut RiskManager<S>) -> (r: (SellRun<S>, Step<S>))
        requires
            self.awaits(reply),
        ensures
            r.0 == self.next(reply).run,
            r.1 == self.next(reply).step,
            final(risk)@ == opened_state(old(risk)@, self.next(reply).restored),
            r.1 matches Step::Ask(request) ==> forall|answer: Reply<S>| #[trigger]
                request.is_answered_by(answer) ==> r.0.awaits(answer),
    {
        let SellRun { symbol, position, stage } = self;
        match (stage, reply) {
            (SellStage::AwaitCancel, _) => {
                let step = Step::Ask(Request::Filters { symbol: symbol.clone() });
                (SellRun { symbol, position, stage: SellStage::AwaitFilters }, step)
            },
            (SellStage::AwaitFilters, Reply::Filters(Ok(filters))) => {
                let quantity = filters.round_quantity(position.quantity);
                let step = Step::Ask(
                    Request::MarketOrder { symbol: symbol.clone(), side: Side::Sell, quantity },
                );
                (SellRun { symbol, position, stage: SellStage::AwaitFill }, step)
            },
            (SellStage::AwaitFilters, Reply::Filters(Err(cause))) => {
                risk.open_position(position.clone());
                let step = Step::Done(Err(ExecError::Venue(cause)));
                (SellRun { symbol, position, stage: SellStage::Over }, step)
            },
            (SellStage::AwaitFill, Reply::Order(Ok(outcome))) => {
                let gain = outcome.average_price.minus(position.entry_price);
                let notice = Notice::Sell {
                    symbol: symbol.clone(),
                    price: outcome.average_price,
                    pnl: gain.times(position.quantity),
                    pnl_pct: gain.over(position.entry_price).times(S::ratio(100, 1)),
                };
                (
                    SellRun { symbol, position, stage: SellStage::AwaitNotice },
                    Step::Ask(Request::Notify(notice)),
                )
            },
            (SellStage::AwaitFill, Reply::Order(Err(cause))) => {
                risk.open_position(position.clone());
                let step = Step::Done(Err(ExecError::SellFailed { symbol: symbol.clone(), cause }));
                (SellRun { symbol, position, stage: SellStage::Over }, step)
            },
            _ => (SellRun { symbol, position, stage: SellStage::Over }, Step::Done(Ok(()))),
        }
    }
}

// ---------------------------------------------------------------------------
// Keeping a position protected
// ---------------------------------------------------------------------------

#[derive(Debug, PartialEq)]
pub enum MaintainStage<S> {
    AwaitFilters,
    AwaitCancel { quantity: S, stop: S, stop_limit: S },
    AwaitStop,
    /// The operator is being told that the position is unprotected.
    AwaitAlarm { cause: String },
    Over,
}

/// Keeps the venue-side protection of one open position correct.
///
/// In order of priority: a position that has no protection gets some, which is
/// how a failed replacement of an earlier cycle is repaired; a trailing stop is
/// moved up once it has advanced far enough to be worth it; otherwise the resting
/// order is left alone.
#[derive(Debug, PartialEq)]
pub struct MaintainRun<S> {
    pub symbol: String,
    /// Where the stop belongs.
    pub desired: S,
    pub quantity: S,
    pub was_protected: bool,
    pub stage: MaintainStage<S>,
}

/// What the venue's answer to a stop does to the position.
pub enum StopNews<S> {
    Nothing,
    Placed(S),
    Lost,
}

/// Where a maintenance goes next.
pub struct MaintainMove<S> {
    pub run: MaintainRun<S>,
    pub step: Step<S>,
    pub news: StopNews<S>,
}

/// The position with a new high-water mark. It only ever rises.
pub open spec fn marked<S: Number>(position: Position<S>, price: S) -> Position<S> {
    Position { highest_high: larger_of(position.highest_high, price), ..position }
}

pub open spec fn position_trails<S: Number>(
    position: Position<S>,
    params: StrategyParams<S>,
) -> bool {
    zero::<S>().lt(params.trailing_stop_atr) && zero::<S>().lt(position.atr_at_entry)
}

/// Where the stop of a position belongs: a trailing distance below the highest
/// high, but never below the stop that the entry was sized against.
pub open spec fn desired_stop<S: Number>(position: Position<S>, params: StrategyParams<S>) -> S {
    if position_trails(position, params) {
        larger_of(
            position.stop_loss,
            position.highest_high.difference(
                params.trailing_stop_atr.product(position.atr_at_entry),
            ),
        )
    } else {
        position.stop_loss
    }
}

/// Whether the stop has advanced far enough to be moved.
pub open spec fn ratchets<S: Number>(position: Position<S>, params: StrategyParams<S>) -> bool {
    position_trails(position, params) && position.stop_loss.sum(
        ratchet_min_atr::<S>().product(position.atr_at_entry),
    ).lt(desired_stop(position, params))
}

/// The positions with the first one in `symbol` changed by what the venue said of
/// its stop.
pub open spec fn with_news<S: Number>(
    state: RiskState<S>,
    symbol: Seq<char>,
    news: StopNews<S>,
) -> RiskState<S> {
    match index_of(state.positions, symbol) {
        Some(i) => {
            let position = state.positions[i];
            match news {
                StopNews::Nothing => state,
                StopNews::Placed(stop_price) => state.with_updated(
                    symbol,
                    Position { stop_loss: stop_price, protected: true, ..position },
                ),
                StopNews::Lost => state.with_updated(
                    symbol,
                    Position { protected: false, ..position },
                ),
            }
        },
        None => state,
    }
}

impl<S: Number> MaintainRun<S> {
    pub open spec fn awaits(self, reply: Reply<S>) -> bool {
        match self.stage {
            MaintainStage::AwaitFilters => reply is Filters,
            MaintainStage::AwaitCancel { .. } => reply is Cancelled,
            MaintainStage::AwaitStop => reply is Stop,
            MaintainStage::AwaitAlarm { .. } => reply is Notified,
            MaintainStage::Over => false,
        }
    }

    pub open spec fn at(self, stage: MaintainStage<S>) -> MaintainRun<S> {
        MaintainRun { stage, ..self }
    }

    pub open spec fn over(self, result: Result<(), ExecError<S>>) -> MaintainMove<S> {
        MaintainMove {
            run: self.at(MaintainStage::Over),
            step: Step::Done(result),
            news: StopNews::Nothing,
        }
    }

    pub open spec fn placing(self, quantity: S, stop: S, stop_limit: S) -> MaintainMove<S> {
        MaintainMove {
            run: self.at(MaintainStage::AwaitStop),
            step: Step::Ask(
                Request::StopLoss { symbol: self.symbol, quantity, stop, stop_limit },
            ),
            news: StopNews::Nothing,
        }
    }

    /// Where the run goes with a reply it awaits.
    ///
    /// The venue reserves the base asset against a resting order, so the old stop
    /// is cancelled before a new one is placed. Where the new one is refused, the
    /// position stands unprotected and is recorded so: the next cycle repairs it.
    pub open spec fn next(self, reply: Reply<S>) -> MaintainMove<S> {
        match (self.stage, reply) {
            (MaintainStage::AwaitFilters, Reply::Filters(Ok(filters))) => {
                let stop = rounded_down(self.desired, filters.tick_size);
                let stop_limit = rounded_down(
                    self.desired.product(stop_limit_slip::<S>()),
                    filters.tick_size,
                );
                let quantity = rounded_down(self.quantity, filters.step_size);
                if filters.verdict(quantity, stop) is Err {
                    self.over(Ok(()))
                } else if self.was_protected {
                    MaintainMove {
                        run: self.at(MaintainStage::AwaitCancel { quantity, stop, stop_limit }),
                        step: Step::Ask(Request::CancelOrders { symbol: self.symbol }),
                        news: StopNews::Nothing,
                    }
                } else {
                    self.placing(quantity, stop, stop_limit)
                }
            },
            (MaintainStage::AwaitFilters, Reply::Filters(Err(cause))) => self.over(
                Err(ExecError::Venue(cause)),
            ),
            (
                MaintainStage::AwaitCancel { quantity, stop, stop_limit },
                Reply::Cancelled(Ok(_)),
            ) => self.placing(quantity, stop, stop_limit),
            (MaintainStage::AwaitCancel { .. }, Reply::Cancelled(Err(cause))) => self.over(
                Err(ExecError::CancelFailed { symbol: self.symbol, cause }),
            ),
            (MaintainStage::AwaitStop, Reply::Stop(Ok(placement))) => MaintainMove {
                run: self.at(MaintainStage::Over),
                step: Step::Done(Ok(())),
                news: StopNews::Placed(placement.stop_price),
            },
            (MaintainStage::AwaitStop, Reply::Stop(Err(cause))) => MaintainMove {
                run: self.at(MaintainStage::AwaitAlarm { cause }),
                step: Step::Ask(
                    Request::Notify(
                        Notice::Error(Trouble::StopLost { symbol: self.symbol, cause }),
                    ),
                ),
                news: StopNews::Lost,
            },
            (MaintainStage::AwaitAlarm { cause }, _) => self.over(Err(ExecError::Venue(cause))),
            _ => self.over(Ok(())),
        }
    }

    fn moved(self, stage: MaintainStage<S>) -> (r: MaintainRun<S>)
        ensures
            r == self.at(stage),
    {
        MaintainRun {
            symbol: self.symbol,
            desired: self.desired,
            quantity: self.quantity,
            was_protected: self.was_protected,
            stage,
        }
    }

    fn place(self, quantity: S, stop: S, stop_limit: S) -> (r: (MaintainRun<S>, Step<S>))
        ensures
            r.0 == self.placing(quantity, stop, stop_limit).run,
            r.1 == self.placing(quantity, stop, stop_limit).step,
    {
        let step = Step::Ask(
            Request::StopLoss { symbol: self.symbol.clone(), quantity, stop, stop_limit },
        );
        (self.moved(MaintainStage::AwaitStop), step)
    }

    /// Takes the reply to the last request.
    pub fn step(self, reply: Reply<S>, risk: &mut RiskManager<S>) -> (r: (
        MaintainRun<S>,
        Step<S>,
    ))
        requires
            self.awaits(reply),
        ensures
            r.0 == self.next(reply).run,
            r.1 == self.next(reply).step,
            final(risk)@ == with_news(old(risk)@, self.symbol@, self.next(reply).news),
            r.1 matches Step::Ask(request) ==> forall|answer: Reply<S>| #[trigger]
                request.is_answered_by(answer) ==> r.0.awaits(answer),
    {
        let mut run = self;
        let mut stage = MaintainStage::Over;
        std::mem::swap(&mut run.stage, &mut stage);
        assert(run.at(stage) == self);
        match (stage, reply) {
            (MaintainStage::AwaitFilters, Reply::Filters(Ok(filters))) => {
                let stop = filters.round_price(run.desired);
                let stop_limit = filters.round_price(run.desired.times(S::ratio(998, 1000)));
                let quantity = filters.round_quantity(run.quantity);
                match filters.check_order(quantity, stop) {
                    Err(_) => (run, Step::Done(Ok(()))),
                    Ok(_) => if run.was_protected {
                        let step = Step::Ask(Request::CancelOrders { symbol: run.symbol.clone() });
                        (
                            run.moved(MaintainStage::AwaitCancel { quantity, stop, stop_limit }),
                            step,
                        )
                    } else {
                        run.place(quantity, stop, stop_limit)
                    },
                }
            },
            (MaintainStage::AwaitFilters, Reply::Filters(Err(cause))) => (
                run,
                Step::Done(Err(ExecError::Venue(cause))),
            ),
            (
                MaintainStage::AwaitCancel { quantity, stop, stop_limit },
                Reply::Cancelled(Ok(_)),
            ) => run.place(quantity, stop, stop_limit),
            (MaintainStage::AwaitCancel { .. }, Reply::Cancelled(Err(cause))) => {
                let step = Step::Done(
                    Err(ExecError::CancelFailed { symbol: run.symbol.clone(), cause }),
                );
                (run, step)
            },
            (MaintainStage::AwaitStop, Reply::Stop(Ok(placement))) => {
                if let Some(i) = risk.position_of(run.symbol.as_str()) {
                    let mut position = risk.positions[i].clone();
                    position.stop_loss = placement.stop_price;
                    position.protected = true;
                    risk.positions.set(i, position);
                }
                assert(risk@ =~= with_news(
                    old(risk)@,
                    self.symbol@,
                    StopNews::Placed(placement.stop_price),
                ));
                (run, Step::Done(Ok(())))
            },
            (MaintainStage::AwaitStop, Reply::Stop(Err(cause))) => {
                if let Some(i) = risk.position_of(run.symbol.as_str()) {
                    let mut position = risk.positions[i].clone();
                    position.protected = false;
                    risk.positions.set(i, position);
                }
                assert(risk@ =~= with_news(old(risk)@, self.symbol@, StopNews::Lost));
                let step = Step::Ask(
                    Request::Notify(
                        Notice::Error(
                            Trouble::StopLost { symbol: run.symbol.clone(), cause: cause.clone() },
                        ),
                    ),
                );
                (run.moved(MaintainStage::AwaitAlarm { cause }), step)
            },
            (MaintainStage::AwaitAlarm { cause }, _) => (
                run,
                Step::Done(Err(ExecError::Venue(cause))),
            ),
            _ => (run, Step::Done(Ok(()))),
        }
    }
}

// ---------------------------------------------------------------------------
// Closing everything
// ---------------------------------------------------------------------------

/// Force-closes every open position, one sale after another. A sale that fails
/// does not stop the others.
#[derive(Debug)]
pub struct CloseAllRun<S> {
    pub symbols: Vec<String>,
    /// The next symbol to sell.
    pub next: usize,
    pub sale: Option<SellRun<S>>,
}

/// The next sale there is to make, from symbol `next` on.
pub struct CloseMove<S> {
    pub next: int,
    pub sale: Option<SellRun<S>>,
    pub state: RiskState<S>,
}

pub open spec fn next_sale<S: Number>(
    symbols: Seq<String>,
    next: int,
    state: RiskState<S>,
) -> CloseMove<S>
    decreases symbols.len() - next,
{
    if next < 0 || next >= symbols.len() {
        CloseMove { next, sale: None, state }
    } else {
        match index_of(state.positions, symbols[next]@) {
            None => next_sale(symbols, next + 1, state),
            Some(i) => CloseMove {
                next: next + 1,
                sale: Some(
                    SellRun {
                        symbol: symbols[next],
                        position: state.positions[i],
                        stage: SellStage::AwaitCancel,
                    },
                ),
                state: state.with_closed(symbols[next]@),
            },
        }
    }
}

/// What a sale about to start asks first.
pub open spec fn sale_step<S: Number>(sale: Option<SellRun<S>>) -> Step<S> {
    match sale {
        Some(run) => Step::Ask(Request::CancelOrders { symbol: run.symbol }),
        None => Step::Done(Ok(())),
    }
}

impl<S: Number> CloseAllRun<S> {
    pub open spec fn awaits(self, reply: Reply<S>) -> bool {
        match self.sale {
            Some(run) => run.awaits(reply),
            None => false,
        }
    }

    /// Whether a reply it awaits leads to `run` and `step`: on with the sale, or
    /// after its end to the next one there is to make.
    pub open spec fn leads_to(
        self,
        reply: Reply<S>,
        before: RiskState<S>,
        run: CloseAllRun<S>,
        step: Step<S>,
        after: RiskState<S>,
    ) -> bool {
        &&& run.symbols@ == self.symbols@
        &&& self.sale matches Some(sale) && {
            let moved = sale.next(reply);
            let state = opened_state(before, moved.restored);
            if moved.step is Done {
                let m = next_sale(self.symbols@, self.next as int, state);
                &&& run.next == m.next
                &&& run.sale == m.sale
                &&& step == sale_step(m.sale)
                &&& after == m.state
            } else {
                &&& run.next == self.next
                &&& run.sale == Some(moved.run)
                &&& step == moved.step
                &&& after == state
            }
        }
    }

    fn advance(symbols: Vec<String>, from: usize, risk: &mut RiskManager<S>) -> (r: (
        CloseAllRun<S>,
        Step<S>,
    ))
        requires
            from <= symbols@.len(),
        ensures
            r.0.symbols@ == symbols@,
            ({
                let m = next_sale(symbols@, from as int, old(risk)@);
                &&& r.0.next == m.next
                &&& r.0.sale == m.sale
                &&& r.1 == sale_step(m.sale)
                &&& final(risk)@ == m.state
            }),
            r.0.next <= symbols@.len(),
            r.1 matches Step::Ask(request) ==> forall|answer: Reply<S>| #[trigger]
                request.is_answered_by(answer) ==> r.0.awaits(answer),
    {
        let mut next: usize = from;
        while next < symbols.len()
            invariant
                from <= next <= symbols@.len(),
                risk@ == old(risk)@,
                next_sale(symbols@, from as int, old(risk)@) == next_sale(
                    symbols@,
                    next as int,
                    risk@,
                ),
            decreases symbols@.len() - next,
        {
            match Executor::execute_sell(&symbols[next], risk) {
                Ok((sale, step)) => {
                    return (CloseAllRun { symbols, next: next + 1, sale: Some(sale) }, step);
                },
                Err(_) => {
                    next = next + 1;
                },
            }
        }
        (CloseAllRun { symbols, next, sale: None }, Step::Done(Ok(())))
    }

    /// Takes the reply to the last request.
    pub fn step(self, reply: Reply<S>, risk: &mut RiskManager<S>) -> (r: (
        CloseAllRun<S>,
        Step<S>,
    ))
        requires
            self.awaits(reply),
            self.next <= self.symbols@.len(),
        ensures
            r.0.next <= r.0.symbols@.len(),
            self.leads_to(reply, old(risk)@, r.0, r.1, final(risk)@),
            r.1 matches Step::Ask(request) ==> forall|answer: Reply<S>| #[trigger]
                request.is_answered_by(answer) ==> r.0.awaits(answer),
    {
        let CloseAllRun { symbols, next, sale } = self;
        match sale {
            Some(run) => {
                let (run, step) = run.step(reply, risk);
                match step {
                    Step::Done(_) => Self::advance(symbols, next, risk),
                    Step::Ask(request) => (
                        CloseAllRun { symbols, next, sale: Some(run) },
                        Step::Ask(request),
                    ),
                }
            },
            None => (CloseAllRun { symbols, next, sale: None }, Step::Done(Ok(()))),
        }
    }
}

// ---------------------------------------------------------------------------
// Starting
// ---------------------------------------------------------------------------

/// Starts the runs.
#[derive(Debug, Clone, Copy, PartialEq, Eq)]
pub struct Executor;

impl Executor {
    /// Starts a buy of `quantity` on a signal. The venue's rules come first: an
    /// order that violates one is corrected or refused before it is sent.
    pub fn execute_buy<S: Number>(signal: &TradeSignal<S>, quantity: S, params: &StrategyParams<S>) -> (r: (
        BuyRun<S>,
        Step<S>,
    ))
        ensures
            r.0 == (BuyRun {
                asset: signal.asset,
                entry_price: signal.entry_price,
                stop_loss: signal.stop_loss,
                atr: signal.atr,
                confidence: signal.confidence,
                reasoning: signal.reasoning,
                quantity,
                trailing_stop_atr: params.trailing_stop_atr,
                stage: BuyStage::AwaitFilters,
            }),
            r.1 == Step::<S>::Ask(Request::Filters { symbol: signal.asset }),
            forall|reply: Reply<S>| #[trigger]
                (Request::<S>::Filters { symbol: signal.asset }).is_answered_by(reply)
                    ==> r.0.awaits(reply),
    {
        let run = BuyRun {
            asset: signal.asset.clone(),
            entry_price: signal.entry_price,
            stop_loss: signal.stop_loss,
            atr: signal.atr,
            confidence: signal.confidence.clone(),
            reasoning: signal.reasoning.clone(),
            quantity,
            trailing_stop_atr: params.trailing_stop_atr,
            stage: BuyStage::AwaitFilters,
        };
        let step = Step::Ask(Request::Filters { symbol: signal.asset.clone() });
        (run, step)
    }

    /// Starts closing the position in `symbol`. Where none is held, there is
    /// nothing to run: that is an error, and nothing is asked of the venue.
    pub fn execute_sell<S: Number>(symbol: &String, risk: &mut RiskManager<S>) -> (r: Result<
        (SellRun<S>, Step<S>),
        ExecError<S>,
    >)
        ensures
            final(risk)@ == old(risk)@.with_closed(symbol@),
            match r {
                Ok((run, step)) => {
                    &&& index_of(old(risk)@.positions, symbol@) matches Some(i) && run == (SellRun {
                        symbol: *symbol,
                        position: old(risk)@.positions[i],
                        stage: SellStage::AwaitCancel,
                    })
                    &&& step == Step::<S>::Ask(Request::CancelOrders { symbol: *symbol })
                    &&& forall|reply: Reply<S>| #[trigger]
                        (Request::<S>::CancelOrders { symbol: *symbol }).is_answered_by(reply)
                            ==> run.awaits(reply)
                },
                Err(error) => !old(risk)@.holds(symbol@) && error == ExecError::<
                    S,
                >::NoPosition { symbol: *symbol },
            },
    {
        match risk.close_position(symbol.as_str()) {
            Some(position) => {
                let run = SellRun {
                    symbol: symbol.clone(),
                    position,
                    stage: SellStage::AwaitCancel,
                };
                Ok((run, Step::Ask(Request::CancelOrders { symbol: symbol.clone() })))
            },
            None => Err(ExecError::NoPosition { symbol: symbol.clone() }),
        }
    }

    /// Looks at the position in `symbol` and raises its high-water mark. Starts a
    /// run where its protection needs work, and does nothing more where none is
    /// held or all is well.
    pub fn maintain_protection<S: Number>(
        symbol: &String,
        current_price: S,
        params: &StrategyParams<S>,
        risk: &mut RiskManager<S>,
    ) -> (r: Option<(MaintainRun<S>, Step<S>)>)
        ensures
            match index_of(old(risk)@.positions, symbol@) {
                None => r is None && final(risk)@ == old(risk)@,
                Some(i) => {
                    let position = marked(old(risk)@.positions[i], current_price);
                    &&& final(risk)@ == old(risk)@.with_updated(symbol@, position)
                    &&& r is None <==> position.protected && !ratchets(position, *params)
                    &&& r matches Some((run, step)) ==> {
                        &&& run == (MaintainRun {
                            symbol: *symbol,
                            desired: desired_stop(position, *params),
                            quantity: position.quantity,
                            was_protected: position.protected,
                            stage: MaintainStage::AwaitFilters,
                        })
                        &&& step == Step::<S>::Ask(Request::Filters { symbol: *symbol })
                        &&& forall|reply: Reply<S>| #[trigger]
                            (Request::<S>::Filters { symbol: *symbol }).is_answered_by(reply)
                                ==> run.awaits(reply)
                    }
                },
            },
    {
        let i: usize = match risk.position_of(symbol.as_str()) {
            Some(i) => i,
            None => return None,
        };
        let mut position = risk.positions[i].clone();
        position.highest_high = larger(position.highest_high, current_price);
        let trailing = S::ratio(0, 1).below(params.trailing_stop_atr) && S::ratio(0, 1).below(
            position.atr_at_entry,
        );
        let desired = if trailing {
            let trail = position.highest_high.minus(
                params.trailing_stop_atr.times(position.atr_at_entry),
            );
            larger(position.stop_loss, trail)
        } else {
            position.stop_loss
        };
        let ratchet = trailing && position.stop_loss.plus(
            S::ratio(25, 100).times(position.atr_at_entry),
        ).below(desired);
        let protected = position.protected;
        let quantity = position.quantity;
        let ghost marked_position = position;
        risk.positions.set(i, position);
        assert(risk@ =~= old(risk)@.with_updated(symbol@, marked_position));
        if protected && !ratchet {
            return None;
        }
        let run = MaintainRun {
            symbol: symbol.clone(),
            desired,
            quantity,
            was_protected: protected,
            stage: MaintainStage::AwaitFilters,
        };
        Some((run, Step::Ask(Request::Filters { symbol: symbol.clone() })))
    }

    /// Starts selling everything that is held.
    pub fn close_all_positions<S: Number>(risk: &mut RiskManager<S>) -> (r: (CloseAllRun<S>, Step<S>))
        ensures
            r.0.symbols@ == old(risk)@.positions.map_values(|p: Position<S>| p.symbol),
            ({
                let m = next_sale(r.0.symbols@, 0, old(risk)@);
                &&& r.0.next == m.next
                &&& r.0.sale == m.sale
                &&& r.1 == sale_step(m.sale)
                &&& final(risk)@ == m.state
            }),
            r.1 matches Step::Ask(request) ==> forall|answer: Reply<S>| #[trigger]
                request.is_answered_by(answer) ==> r.0.awaits(answer),
    {
        let mut symbols: Vec<String> = Vec::new();
        let mut i: usize = 0;
        let ghost names = risk@.positions.map_values(|p: Position<S>| p.symbol);
        while i < risk.positions.len()
            invariant
                i <= risk.positions@.len(),
                names == risk@.positions.map_values(|p: Position<S>| p.symbol),
                risk@ == old(risk)@,
                symbols@ == names.take(i as int),
            decreases risk.positions@.len() - i,
        {
            symbols.push(risk.positions[i].symbol.clone());
            i = i + 1;
            assert(symbols@ =~= names.take(i as int));
        }
        assert(symbols@ =~= names);
        CloseAllRun::advance(symbols, 0, risk)
    }
}

// ---------------------------------------------------------------------------
// Holding periods
// ---------------------------------------------------------------------------

/// How long a position was held, for the log.
pub open spec fn holding_period(entry_time: u64, now: u64) -> Seq<char> {
    let minutes = ((now - entry_time) / 60_000) as nat;
    if entry_time == 0 || now < entry_time {
        "unknown"@
    } else if minutes < 60 {
        decimal(minutes) + "m"@
    } else if minutes < 2880 {
        decimal(minutes / 60) + "h"@ + decimal(minutes % 60) + "m"@
    } else {
        decimal(minutes / 1440) + "d"@ + decimal((minutes % 1440) / 60) + "h"@
    }
}

/// How long a position was held. Both arguments are epoch milliseconds.
///
/// Positions recovered by reconciliation carry `entry_time: 0`, since their true
/// entry is not persisted anywhere, and report as unknown rather than as a hold
/// of decades. So does a clock that ran backwards.
pub fn format_holding_period(entry_time: u64, now: u64) -> (r: String)
    ensures
        r@ == holding_period(entry_time, now),
{
    if entry_time == 0 || now < entry_time {
        return "unknown".to_owned();
    }
    let minutes: u64 = (now - entry_time) / 60_000;
    if minutes < 60 {
        let mut text = text_of_count(minutes);
        text.append("m");
        text
    } else if minutes < 2880 {
        let mut text = text_of_count(minutes / 60);
        text.append("h");
        text.append(text_of_count(minutes % 60).as_str());
        text.append("m");
        text
    } else {
        let mut text = text_of_count(minutes / 1440);
        text.append("d");
        text.append(text_of_count((minutes % 1440) / 60).as_str());
        text.append("h");
        text
    }
}

// ---------------------------------------------------------------------------
// Laws
// ---------------------------------------------------------------------------

/// A position registered by a buy counts as protected exactly where the venue has
/// just confirmed its protective order.
pub proof fn law_protected_means_confirmed<S: Number>(run: BuyRun<S>, reply: Reply<S>, now: u64)
    requires
        run.awaits(reply),
    ensures
        run.next(reply, now).opened matches Some(position) ==> (position.protected <==> (
        run.stage is AwaitProtection && (reply matches Reply::Oco(Ok(_)) || reply matches Reply::Stop(
            Ok(_),
        )))),
{
}

/// A buy that fails registers nothing. What registers a position goes on to report
/// it and then succeeds, and no position is registered twice.
pub proof fn law_failed_buy_registers_nothing<S: Number>(
    run: BuyRun<S>,
    reply: Reply<S>,
    now: u64,
    later: Reply<S>,
    moment: u64,
)
    requires
        run.awaits(reply),
    ensures
        run.next(reply, now).step matches Step::Done(Err(_)) ==> run.next(reply, now).opened
            is None,
        run.next(reply, now).opened is Some ==> {
            let after = run.next(reply, now).run;
            &&& after.stage is AwaitNotice
            &&& after.awaits(later) ==> after.next(later, moment).step == Step::<S>::Done(Ok(()))
                && after.next(later, moment).opened is None
        },
{
}

/// A bought position is tracked whether or not it could be protected: once the
/// market order has filled, every way on leads to its registration.
pub proof fn law_a_filled_buy_is_tracked<S: Number>(run: BuyRun<S>, reply: Reply<S>, now: u64)
    requires
        run.awaits(reply),
    ensures
        (run.stage is AwaitFill && (reply matches Reply::Order(Ok(_)))) ==> {
            let after = run.next(reply, now).run.stage;
            after is AwaitProtection || after is AwaitAlarm
        },
        run.stage is AwaitProtection ==> {
            ||| run.next(reply, now).opened is Some
            ||| run.next(reply, now).run.stage is AwaitAlarm
        },
        run.stage is AwaitAlarm ==> run.next(reply, now).opened is Some,
{
}

/// A buy sends no market order that violates a filter: its quantity is rounded down to
/// whole steps and accepted. Nor does it place an OCO unless both of its legs are
/// accepted.
pub proof fn law_only_legal_orders_are_sent<S: Number>(run: BuyRun<S>, reply: Reply<S>, now: u64)
    requires
        run.awaits(reply),
    ensures
        run.next(reply, now).step matches Step::Ask(Request::MarketOrder { side, quantity, .. })
            ==> {
            &&& side == Side::Buy
            &&& reply matches Reply::Filters(Ok(filters)) && quantity == rounded_down(
                run.quantity,
                filters.step_size,
            ) && filters.verdict(quantity, run.entry_price) is Ok
        },
        run.next(reply, now).step matches Step::Ask(
            Request::OcoSell { quantity, take_profit, stop, .. },
        ) ==> {
            &&& run.stage matches BuyStage::AwaitFill { filters } && filters.verdict(
                quantity,
                stop,
            ) is Ok && filters.verdict(quantity, take_profit) is Ok
        },
{
}

/// The market sell is only ever sent after the cancel was answered, and the position
/// is put back as it was exactly where the run ends in an error.
pub proof fn law_selling<S: Number>(run: SellRun<S>, reply: Reply<S>)
    requires
        run.awaits(reply),
    ensures
        run.next(reply).step matches Step::Ask(Request::MarketOrder { .. }) ==> run.stage
            is AwaitFilters,
        run.next(reply).run.stage is AwaitFilters ==> run.stage is AwaitCancel,
        run.next(reply).step matches Step::Done(Err(_)) ==> run.next(reply).restored == Some(
            run.position,
        ),
        run.next(reply).restored is Some ==> run.next(reply).step matches Step::Done(Err(_)),
        run.next(reply).run.position == run.position,
{
}

/// Where a sale stands after a number of replies: the run, its last step, and the
/// positions on record.
pub struct SaleProgress<S> {
    pub run: SellRun<S>,
    pub step: Step<S>,
    pub state: RiskState<S>,
}

/// A sale of the position in `symbol`, from its start through `replies`.
pub open spec fn sale_after<S: Number>(
    symbol: String,
    state: RiskState<S>,
    replies: Seq<Reply<S>>,
) -> SaleProgress<S>
    decreases replies.len(),
{
    if replies.len() == 0 {
        SaleProgress {
            run: SellRun {
                symbol,
                position: state.positions[index_of(state.positions, symbol@)->0],
                stage: SellStage::AwaitCancel,
            },
            step: Step::Ask(Request::CancelOrders { symbol }),
            state: state.with_closed(symbol@),
        }
    } else {
        let before = sale_after(symbol, state, replies.drop_last());
        let moved = before.run.next(replies.last());
        SaleProgress {
            run: moved.run,
            step: moved.step,
            state: opened_state(before.state, moved.restored),
        }
    }
}

/// Whether each of the replies is one that the sale awaits by then.
pub open spec fn sale_awaits<S: Number>(
    symbol: String,
    state: RiskState<S>,
    replies: Seq<Reply<S>>,
) -> bool
    decreases replies.len(),
{
    replies.len() == 0 || {
        &&& sale_awaits(symbol, state, replies.drop_last())
        &&& sale_after(symbol, state, replies.drop_last()).run.awaits(replies.last())
    }
}

proof fn lemma_sale<S: Number>(symbol: String, state: RiskState<S>, replies: Seq<Reply<S>>)
    requires
        sale_awaits(symbol, state, replies),
    ensures
        ({
            let position = state.positions[index_of(state.positions, symbol@)->0];
            let now = sale_after(symbol, state, replies);
            &&& now.run.position == position
            &&& now.run.symbol == symbol
            &&& now.step matches Step::Done(_) ==> now.run.stage is Over
            &&& now.state == if now.step matches Step::Done(Err(_)) {
                state.with_closed(symbol@).with_opened(position)
            } else {
                state.with_closed(symbol@)
            }
        }),
    decreases replies.len(),
{
    if replies.len() > 0 {
        lemma_sale(symbol, state, replies.drop_last());
    }
}

/// A sale that ends in an error, whichever request failed, leaves the symbol held,
/// with the very position that was held before and all the others. Until then, and
/// where it succeeds, the position is off the record.
pub proof fn law_failed_sell_keeps_the_position<S: Number>(
    symbol: String,
    state: RiskState<S>,
    replies: Seq<Reply<S>>,
)
    requires
        state.holds(symbol@),
        sale_awaits(symbol, state, replies),
    ensures
        ({
            let after = sale_after(symbol, state, replies);
            &&& after.step matches Step::Done(Err(_)) ==> {
                &&& after.state.holds(symbol@)
                &&& after.state.positions.last() == state.positions[index_of(
                    state.positions,
                    symbol@,
                )->0]
                &&& after.state.positions.to_multiset() == state.positions.to_multiset()
                &&& after.state == RiskState { positions: after.state.positions, ..state }
            }
            &&& !(after.step matches Step::Done(Err(_))) ==> after.state == state.with_closed(
                symbol@,
            )
        }),
{
    lemma_sale(symbol, state, replies);
    law_held_symbols(state, symbol@);
    lemma_index_from(state.positions, symbol@, 0);
    let i = index_of(state.positions, symbol@)->0;
    let position = state.positions[i];
    let closed = state.with_closed(symbol@);
    let back = closed.with_opened(position);
    assert(back.positions.last().symbol@ == symbol@);
    assert(back.positions[closed.positions.len() as int] == position);
    law_held_symbols(back, symbol@);
    broadcast use vstd::seq_lib::group_to_multiset_ensures;

    assert(back.positions.to_multiset() =~= state.positions.to_multiset());
}

/// The high-water mark only ever rises, and the stop that is asked for is never
/// below the one on record.
pub proof fn law_the_stop_never_moves_down<S: Lawful>(
    position: Position<S>,
    price: S,
    params: StrategyParams<S>,
)
    requires
        !position.highest_high.is_undefined(),
        !position.stop_loss.is_undefined(),
    ensures
        position.highest_high.le(marked(position, price).highest_high),
        position.stop_loss.le(desired_stop(marked(position, price), params)),
{
    S::law_total(position.highest_high, position.highest_high);
    S::law_total(position.stop_loss, position.stop_loss);
    let now = marked(position, price);
    if position.highest_high.lt(price) {
        lemma_ordered(position.highest_high, price);
    }
    let trail = now.highest_high.difference(params.trailing_stop_atr.product(now.atr_at_entry));
    if now.stop_loss.lt(trail) {
        lemma_ordered(now.stop_loss, trail);
    }
}

/// The old stop goes before the new one, and only where there is an old one:
/// repairing a position that has none cancels nothing.
pub proof fn law_the_old_stop_goes_first<S: Number>(run: MaintainRun<S>, reply: Reply<S>)
    requires
        run.awaits(reply),
    ensures
        (run.was_protected && (run.next(reply).step matches Step::Ask(Request::StopLoss { .. })))
            ==> (reply matches Reply::Cancelled(Ok(_))),
        !run.was_protected ==> !(run.next(reply).step matches Step::Ask(
            Request::CancelOrders { .. },
        )),
        run.next(reply).run.was_protected == run.was_protected,
{
}

/// A stop that could not be placed leaves the position tracked and recorded as
/// unprotected; one that was placed leaves it protected at the confirmed level. A
/// failed cancel changes nothing.
pub proof fn law_the_record_follows_the_venue<S: Number>(
    run: MaintainRun<S>,
    reply: Reply<S>,
    state: RiskState<S>,
)
    requires
        run.awaits(reply),
        state.holds(run.symbol@),
    ensures
        ({
            let after = with_news(state, run.symbol@, run.next(reply).news);
            let i = index_of(state.positions, run.symbol@)->0;
            &&& after.holds(run.symbol@)
            &&& after.positions.len() == state.positions.len()
            &&& reply matches Reply::Stop(Err(_)) ==> !after.positions[i].protected
            &&& reply matches Reply::Stop(Ok(placement)) ==> after.positions[i].protected
                && after.positions[i].stop_loss == placement.stop_price
            &&& !(reply is Stop) ==> after == state
        }),
{
    lemma_index_from(state.positions, run.symbol@, 0);
    let after = with_news(state, run.symbol@, run.next(reply).news);
    let i = index_of(state.positions, run.symbol@)->0;
    assert(after.positions[i].symbol@ == run.symbol@);
    law_held_symbols(after, run.symbol@);
}

/// Every open position is in one of the symbols still to be sold.
pub open spec fn all_to_be_sold<S: Number>(
    symbols: Seq<String>,
    next: int,
    state: RiskState<S>,
) -> bool {
    forall|i: int|
        0 <= i < state.positions.len() ==> exists|j: int|
            next <= j < symbols.len() && #[trigger] symbols[j]@ == (
            #[trigger] state.positions[i]).symbol@
}

/// As long as no sale fails, closing everything ends with an empty book.
pub proof fn law_closing_all_empties_the_book<S: Number>(
    symbols: Seq<String>,
    next: int,
    state: RiskState<S>,
)
    requires
        0 <= next <= symbols.len(),
        state.one_per_symbol(),
        all_to_be_sold(symbols, next, state),
    ensures
        ({
            let m = next_sale(symbols, next, state);
            &&& m.state.one_per_symbol()
            &&& all_to_be_sold(symbols, m.next, m.state)
            &&& m.sale is None ==> m.state.positions.len() == 0
        }),
    decreases symbols.len() - next,
{
    if next < symbols.len() {
        lemma_index_from(state.positions, symbols[next]@, 0);
        match index_of(state.positions, symbols[next]@) {
            None => {
                assert(all_to_be_sold(symbols, next + 1, state)) by {
                    assert forall|i: int| 0 <= i < state.positions.len() implies exists|j: int|
                        next + 1 <= j < symbols.len() && #[trigger] symbols[j]@ == (
                        #[trigger] state.positions[i]).symbol@ by {
                        let j = choose|j: int|
                            next <= j < symbols.len() && #[trigger] symbols[j]@
                                == state.positions[i].symbol@;
                        assert(j != next);
                    }
                }
                law_closing_all_empties_the_book(symbols, next + 1, state);
            },
            Some(k) => {
                let name = symbols[next]@;
                let after = state.with_closed(name);
                law_closing(state, name, name);
                lemma_index_from(after.positions, name, 0);
                assert forall|i: int| 0 <= i < after.positions.len() implies exists|j: int|
                    next + 1 <= j < symbols.len() && #[trigger] symbols[j]@ == (
                    #[trigger] after.positions[i]).symbol@ by {
                    let old_i = if i < k {
                        i
                    } else {
                        i + 1
                    };
                    assert(after.positions[i] == state.positions[old_i]);
                    let j = choose|j: int|
                        next <= j < symbols.len() && #[trigger] symbols[j]@
                            == state.positions[old_i].symbol@;
                    assert(j != next);
                }
            },
        }
    } else {
        if state.positions.len() > 0 {
            assert(exists|j: int|
                next <= j < symbols.len() && #[trigger] symbols[j]@ == state.positions[0].symbol@);
        }
    }
}

/// Whether `position` is what a fill of this buy is on record as: bought at the price
/// that was realised, or at the one the buy was decided on where the venue names none,
/// of the quantity that was filled, with the stop where the strategy put it, on the
/// tick. The target is as far again above the fill as twice the way down to the stop;
/// a trailing stop has none, and keeps the ATR it trails by.
pub open spec fn records_the_fill<S: Number>(
    buy: BuyRun<S>,
    filters: SymbolFilters<S>,
    outcome: OrderOutcome<S>,
    now: u64,
    position: Position<S>,
) -> bool {
    let nothing = S::of_ratio(0, 1);
    let realised = nothing.lt(outcome.average_price);
    let fill = position.entry_price;
    let trailing = nothing.lt(buy.trailing_stop_atr) && nothing.lt(buy.atr);
    &&& realised ==> fill == outcome.average_price
    &&& !realised ==> fill == buy.entry_price
    &&& position.symbol == buy.asset
    &&& position.quantity == outcome.filled_quantity
    &&& position.stop_loss == rounded_down(buy.stop_loss, filters.tick_size)
    &&& trailing ==> position.take_profit == nothing && position.atr_at_entry == buy.atr
    &&& !trailing ==> position.take_profit == rounded_down(
        fill.sum(S::of_ratio(2, 1).product(fill.difference(buy.stop_loss))),
        filters.tick_size,
    ) && position.atr_at_entry == nothing
    &&& position.highest_high == fill
    &&& position.entry_time == now
}

/// Whether `order` protects a fill of this buy: it sells what the fee in the base asset
/// left of the fill, in whole steps, at the stop and the target of the position, and the
/// limit of its stop is 0.998 times the stop, on the tick.
pub open spec fn protects_the_fill<S: Number>(
    buy: BuyRun<S>,
    filters: SymbolFilters<S>,
    outcome: OrderOutcome<S>,
    order: Request<S>,
) -> bool {
    let left = outcome.filled_quantity.difference(
        commission_total(outcome.fills@, filters.base_asset@),
    );
    let trigger = rounded_down(buy.stop_loss, filters.tick_size);
    let limit = rounded_down(trigger.product(S::of_ratio(998, 1000)), filters.tick_size);
    let sold = rounded_down(left, filters.step_size);
    let nothing = S::of_ratio(0, 1);
    let trailing = nothing.lt(buy.trailing_stop_atr) && nothing.lt(buy.atr);
    match order {
        Request::OcoSell { symbol, quantity, take_profit, stop, stop_limit } => {
            &&& !trailing
            &&& symbol == buy.asset
            &&& quantity == sold
            &&& stop == trigger
            &&& stop_limit == limit
            &&& forall|now: u64, position: Position<S>| #[trigger]
                records_the_fill(buy, filters, outcome, now, position) ==> position.take_profit
                    == take_profit && position.stop_loss == stop
        },
        Request::StopLoss { symbol, quantity, stop, stop_limit } => {
            &&& trailing
            &&& symbol == buy.asset
            &&& quantity == sold
            &&& stop == trigger
            &&& stop_limit == limit
        },
        _ => false,
    }
}

/// A fill is bracketed at once. The order that goes out next sells what was bought, at
/// the stop, its limit and the target that follow from the signal and the fill. A
/// trailing entry always places its stop; any other places an OCO exactly where both of
/// its legs are accepted, and otherwise the operator is told why not.
pub proof fn law_a_fill_is_bracketed<S: Number>(
    buy: BuyRun<S>,
    filters: SymbolFilters<S>,
    outcome: OrderOutcome<S>,
    now: u64,
)
    requires
        buy.stage == (BuyStage::AwaitFill { filters }),
    ensures
        ({
            let next = buy.next(Reply::Order(Ok(outcome)), now);
            let nothing = S::of_ratio(0, 1);
            let trailing = nothing.lt(buy.trailing_stop_atr) && nothing.lt(buy.atr);
            let left = outcome.filled_quantity.difference(
                commission_total(outcome.fills@, filters.base_asset@),
            );
            let sold = rounded_down(left, filters.step_size);
            let trigger = rounded_down(buy.stop_loss, filters.tick_size);
            let fill = if nothing.lt(outcome.average_price) {
                outcome.average_price
            } else {
                buy.entry_price
            };
            let target = rounded_down(
                fill.sum(S::of_ratio(2, 1).product(fill.difference(buy.stop_loss))),
                filters.tick_size,
            );
            let legal = filters.verdict(sold, trigger) is Ok && filters.verdict(sold, target) is Ok;
            &&& next.opened is None
            &&& next.step matches Step::Ask(request) && if trailing || legal {
                protects_the_fill(buy, filters, outcome, request) && next.run.stage
                    is AwaitProtection
            } else {
                (request matches Request::Notify(Notice::Error(Trouble::Unprotected {
                    symbol,
                    failure,
                })) && symbol == buy.asset && match filters.verdict(sold, trigger) {
                    Err(rejection) => failure == ProtectionFailure::StopLeg(rejection),
                    Ok(_) => filters.verdict(sold, target) matches Err(rejection) && failure
                        == ProtectionFailure::TargetLeg(rejection),
                }) && next.run.stage is AwaitAlarm
            }
        }),
{
}

/// What a buy puts on record is its own fill, whichever way its protection went: with
/// the venue's answer, or after the alarm. The operator is told what is on record.
pub proof fn law_the_record_is_the_fill<S: Number>(
    buy: BuyRun<S>,
    filters: SymbolFilters<S>,
    outcome: OrderOutcome<S>,
    filled: u64,
    answer: Reply<S>,
    now: u64,
    told: Reply<S>,
    later: u64,
)
    requires
        buy.stage == (BuyStage::AwaitFill { filters }),
        buy.next(Reply::Order(Ok(outcome)), filled).run.awaits(answer),
    ensures
        ({
            let first = buy.next(Reply::Order(Ok(outcome)), filled).run;
            let second = first.next(answer, now);
            let third = second.run.next(told, later);
            &&& second.opened matches Some(position) ==> records_the_fill(
                buy,
                filters,
                outcome,
                now,
                position,
            ) && reports_the_record(buy, position, second.step)
            &&& second.opened is None ==> second.run.stage is AwaitAlarm && (third.opened
                matches Some(position) && records_the_fill(buy, filters, outcome, later, position)
                && reports_the_record(buy, position, third.step))
        }),
{
}

/// Whether the operator is told of `position` as it is on record.
pub open spec fn reports_the_record<S: Number>(
    buy: BuyRun<S>,
    position: Position<S>,
    step: Step<S>,
) -> bool {
    step matches Step::Ask(
        Request::Notify(
            Notice::Buy {
                symbol,
                price,
                quantity,
                stop_loss,
                take_profit,
                confidence,
                reasoning,
            },
        ),
    ) && symbol == position.symbol && price == position.entry_price && quantity
        == position.quantity && stop_loss == position.stop_loss && take_profit
        == position.take_profit && confidence == buy.confidence && reasoning == buy.reasoning
}

/// The limit of a stop does not depend on what was paid: two fills of the same buy at
/// different prices are protected at the same stop and the same limit.
pub proof fn law_the_stop_does_not_follow_the_fill<S: Number>(
    buy: BuyRun<S>,
    filters: SymbolFilters<S>,
    outcome: OrderOutcome<S>,
    other: OrderOutcome<S>,
    now: u64,
)
    requires
        buy.stage == (BuyStage::AwaitFill { filters }),
    ensures
        ({
            let a = buy.next(Reply::Order(Ok(outcome)), now).step;
            let b = buy.next(Reply::Order(Ok(other)), now).step;
            &&& a matches Step::Ask(Request::OcoSell { stop, stop_limit, .. }) ==> (b matches
                Step::Ask(Request::OcoSell { stop: level, stop_limit: limit, .. }) ==> stop
                == level && stop_limit == limit)
            &&& a matches Step::Ask(Request::StopLoss { stop, stop_limit, .. }) ==> (b matches
                Step::Ask(Request::StopLoss { stop: level, stop_limit: limit, .. }) ==> stop
                == level && stop_limit == limit)
        }),
{
}

/// On exact amounts the limit of a protective order lies just under its trigger: not
/// above it, and less than a tick and a unit below 0.998 times it.
pub proof fn law_the_limit_lies_under_the_trigger(
    buy: BuyRun<Amount>,
    filters: SymbolFilters<Amount>,
    outcome: OrderOutcome<Amount>,
    now: u64,
)
    requires
        buy.stage == (BuyStage::AwaitFill { filters }),
        Amount::of_ratio(0, 1).lt(filters.tick_size),
    ensures
        buy.next(Reply::Order(Ok(outcome)), now).step matches Step::Ask(
            Request::OcoSell { stop, stop_limit, .. },
        ) ==> lies_under(stop, stop_limit, filters.tick_size),
        buy.next(Reply::Order(Ok(outcome)), now).step matches Step::Ask(
            Request::StopLoss { stop, stop_limit, .. },
        ) ==> lies_under(stop, stop_limit, filters.tick_size),
{
    let stop = rounded_down(buy.stop_loss, filters.tick_size);
    let limit = rounded_down(stop.product(Amount::of_ratio(998, 1000)), filters.tick_size);
    lemma_lies_under(stop, stop, limit, filters.tick_size);
}

/// Whether a limit lies just under a trigger that is above zero: not above it, and less
/// than a tick and a unit below 0.998 times it. Prices that are no numbers aside.
pub open spec fn lies_under(stop: Amount, limit: Amount, tick: Amount) -> bool {
    stop is Units && stop->0 > 0 && limit is Units && tick is Units ==> {
        &&& limit->0 <= stop->0
        &&& 1000 * limit->0 <= 998 * stop->0
        &&& 998 * stop->0 - 1000 * limit->0 < 1000 * (tick->0 + 1)
    }
}

proof fn lemma_lies_under(value: Amount, stop: Amount, limit: Amount, tick: Amount)
    requires
        Amount::of_ratio(0, 1).lt(tick),
        limit == rounded_down(value.product(Amount::of_ratio(998, 1000)), tick),
        value == stop,
    ensures
        lies_under(stop, limit, tick),
{
    if value is Units && value->0 > 0 && limit is Units {
        let v = value->0 as int;
        let s = SCALE as int;
        let slip = Amount::of_ratio(998, 1000)->0 as int;
        assert((998 * s) / 1000 == 99_800_000);
        let scaled = (v * slip) / s;
        assert(1000 * scaled <= 998 * v && 998 * v < 1000 * (scaled + 1) && 0 <= scaled <= v)
            by (nonlinear_arith)
            requires
                scaled == (v * slip) / s,
                slip == 99_800_000,
                s == 100_000_000,
                v > 0,
        ;
        assert(value.product(Amount::of_ratio(998, 1000)) == Amount::Units(scaled as i64));
        law_rounds_down_to_a_multiple(scaled as i64, tick->0);
    }
}

/// A buy asks for what it was sized at, in whole steps, and is refused exactly where the
/// venue's filters would refuse it at the price of the signal. A refusal names the
/// smallest size that would do and what that costs.
pub proof fn law_a_buy_is_sent_or_refused<S: Number>(
    buy: BuyRun<S>,
    filters: SymbolFilters<S>,
    now: u64,
)
    requires
        buy.stage is AwaitFilters,
    ensures
        ({
            let next = buy.next(Reply::Filters(Ok(filters)), now);
            let whole = rounded_down(buy.quantity, filters.step_size);
            let least = filters.smallest_tradable(buy.entry_price);
            &&& next.opened is None
            &&& match filters.verdict(whole, buy.entry_price) {
                Ok(_) => next.run.stage == (BuyStage::AwaitFill { filters }) && next.step
                    == Step::<S>::Ask(
                    Request::MarketOrder { symbol: buy.asset, side: Side::Buy, quantity: whole },
                ),
                Err(reason) => next.step matches Step::Done(
                    Err(
                        ExecError::Refused {
                            symbol,
                            rejection,
                            floor,
                            base_asset,
                            notional,
                            quote_asset,
                        },
                    ),
                ) && symbol == buy.asset && rejection == reason && floor == least && base_asset
                    == filters.base_asset && notional == least.product(buy.entry_price)
                    && quote_asset == filters.quote_asset,
            }
        }),
{
}

/// A sale gives away what is held and nothing else: once the venue's filters are known,
/// the quantity of the position is sold at the market, in whole steps.
pub proof fn law_a_sale_sells_the_position<S: Number>(
    sale: SellRun<S>,
    filters: SymbolFilters<S>,
    cancelled: Reply<S>,
)
    requires
        sale.stage is AwaitCancel,
        sale.awaits(cancelled),
    ensures
        ({
            let asked = sale.next(cancelled);
            let sent = asked.run.next(Reply::Filters(Ok(filters)));
            &&& asked.step == Step::<S>::Ask(Request::Filters { symbol: sale.symbol })
            &&& asked.restored is None
            &&& sent.step == Step::<S>::Ask(
                Request::MarketOrder {
                    symbol: sale.symbol,
                    side: Side::Sell,
                    quantity: rounded_down(sale.position.quantity, filters.step_size),
                },
            )
            &&& sent.restored is None
            &&& sent.run.stage is AwaitFill
        }),
{
}

/// What a sale brought is told against the entry: the profit is the way from the entry to
/// the price realised, times the quantity, and its percentage that way over the entry. A
/// sale above the entry is no loss, and one below it no profit.
pub proof fn law_a_sale_reports_its_profit<S: Lawful>(sale: SellRun<S>, outcome: OrderOutcome<S>)
    requires
        sale.stage is AwaitFill,
    ensures
        ({
            let entry = sale.position.entry_price;
            let held = sale.position.quantity;
            let way = outcome.average_price.difference(entry);
            let next = sale.next(Reply::Order(Ok(outcome)));
            &&& next.restored is None
            &&& next.step matches Step::Ask(
                Request::Notify(Notice::Sell { symbol, price, pnl, pnl_pct }),
            ) && symbol == sale.symbol && price == outcome.average_price && pnl == way.product(held)
                && pnl_pct == way.quotient(entry).product(S::of_ratio(100, 1)) && (
            entry.le(outcome.average_price) && S::of_ratio(0, 1).le(held) && !pnl.is_undefined()
                ==> S::of_ratio(0, 1).le(pnl))
        }),
{
    let entry = sale.position.entry_price;
    let held = sale.position.quantity;
    let way = outcome.average_price.difference(entry);
    if entry.le(outcome.average_price) && S::of_ratio(0, 1).le(held) && !way.product(
        held,
    ).is_undefined() {
        if way.is_undefined() {
            S::law_absorbs(way, held);
        }
        S::law_difference(outcome.average_price, entry);
        S::law_product(way, held);
    }
}

/// Where the stop of a position belongs. Without a trailing stop it stays. With one it is
/// the higher of the stop on record and the trailing distance below the highest price
/// seen, and it is worth a move once it is a quarter of the ATR above the one on record.
pub proof fn law_where_the_stop_belongs<S: Lawful>(
    position: Position<S>,
    price: S,
    params: StrategyParams<S>,
)
    requires
        !position.highest_high.is_undefined(),
        !price.is_undefined(),
        !position.stop_loss.is_undefined(),
    ensures
        ({
            let nothing = S::of_ratio(0, 1);
            let now = marked(position, price);
            let trailing = nothing.lt(params.trailing_stop_atr) && nothing.lt(
                position.atr_at_entry,
            );
            let trail = now.highest_high.difference(
                params.trailing_stop_atr.product(position.atr_at_entry),
            );
            let wanted = desired_stop(now, params);
            let threshold = position.stop_loss.sum(
                S::of_ratio(25, 100).product(position.atr_at_entry),
            );
            &&& now == Position { highest_high: now.highest_high, ..position }
            &&& now.highest_high == price || now.highest_high == position.highest_high
            &&& price.le(now.highest_high) && position.highest_high.le(now.highest_high)
            &&& !trailing ==> wanted == position.stop_loss && !ratchets(now, params)
            &&& trailing ==> {
                &&& wanted == position.stop_loss || wanted == trail
                &&& position.stop_loss.le(wanted)
                &&& trail.is_undefined() || trail.le(wanted)
                &&& ratchets(now, params) <==> threshold.lt(wanted)
            }
        }),
{
    law_larger_and_smaller(position.highest_high, price);
    let now = marked(position, price);
    let trail = now.highest_high.difference(
        params.trailing_stop_atr.product(position.atr_at_entry),
    );
    law_larger_and_smaller(position.stop_loss, trail);
    S::law_total(position.stop_loss, position.stop_loss);
}

/// How a stop is moved or repaired: at the level where it belongs and its limit at 0.998
/// times that level, both on the tick, for the whole position in whole steps. An order
/// that the filters refuse is not sent, and the old one stays. An old one that rests is
/// cancelled first, and the new one that follows is the one that was decided on.
pub proof fn law_how_a_stop_is_moved<S: Number>(
    run: MaintainRun<S>,
    filters: SymbolFilters<S>,
    cancelled: Reply<S>,
)
    requires
        run.stage is AwaitFilters,
        cancelled matches Reply::Cancelled(Ok(_)),
    ensures
        ({
            let next = run.next(Reply::Filters(Ok(filters)));
            let level = rounded_down(run.desired, filters.tick_size);
            let limit = rounded_down(
                run.desired.product(S::of_ratio(998, 1000)),
                filters.tick_size,
            );
            let whole = rounded_down(run.quantity, filters.step_size);
            let placed = Step::<S>::Ask(
                Request::StopLoss {
                    symbol: run.symbol,
                    quantity: whole,
                    stop: level,
                    stop_limit: limit,
                },
            );
            &&& filters.verdict(whole, level) is Err ==> next.step == Step::<S>::Done(Ok(()))
            &&& filters.verdict(whole, level) is Ok && !run.was_protected ==> next.step == placed
            &&& filters.verdict(whole, level) is Ok && run.was_protected ==> {
                &&& next.step == Step::<S>::Ask(Request::CancelOrders { symbol: run.symbol })
                &&& next.run.next(cancelled).step == placed
            }
        }),
{
}

/// Closing everything sells the first symbol that is still held, with the very position
/// that is on record for it, and leaves every other position.
pub proof fn law_closing_all_sells_what_is_held<S: Number>(
    symbols: Seq<String>,
    next: int,
    state: RiskState<S>,
)
    requires
        0 <= next,
    ensures
        next_sale(symbols, next, state).sale matches Some(sale) ==> {
            let k = next_sale(symbols, next, state).next - 1;
            &&& next <= k < symbols.len()
            &&& sale.symbol == symbols[k]
            &&& sale.stage is AwaitCancel
            &&& sale.position.symbol@ == symbols[k]@
            &&& state.positions.contains(sale.position)
            &&& next_sale(symbols, next, state).state == state.with_closed(symbols[k]@)
            &&& forall|j: int| next <= j < k ==> !state.holds(#[trigger] symbols[j]@)
        },
        next_sale(symbols, next, state).sale is None ==> next_sale(symbols, next, state).state
            == state && forall|j: int|
            next <= j < symbols.len() ==> !state.holds(#[trigger] symbols[j]@),
    decreases symbols.len() - next,
{
    if next < symbols.len() {
        lemma_index_from(state.positions, symbols[next]@, 0);
        if index_of(state.positions, symbols[next]@) is None {
            law_closing_all_sells_what_is_held(symbols, next + 1, state);
        }
    }
}

/// A holding period is told in minutes under an hour, in hours and minutes under two
/// days, and in days and hours beyond. Whole minutes count, what is left over does not.
pub proof fn law_holding_periods_add_up(
    entry_time: u64,
    now: u64,
    days: nat,
    hours: nat,
    minutes: nat,
)
    requires
        0 < entry_time <= now,
        minutes < 60,
    ensures
        ({
            let elapsed = now - entry_time;
            let rest = elapsed - (((days * 24 + hours) * 60 + minutes) * 60_000);
            let text = holding_period(entry_time, now);
            0 <= rest < 60_000 ==> {
                &&& days == 0 && hours == 0 ==> text == decimal(minutes) + "m"@
                &&& days == 0 && 0 < hours < 48 ==> text == decimal(hours) + "h"@ + decimal(
                    minutes,
                ) + "m"@
                &&& 2 <= days && hours < 24 ==> text == decimal(days) + "d"@ + decimal(hours)
                    + "h"@
            }
        }),
{
    let elapsed = now - entry_time;
    let total = (days * 24 + hours) * 60 + minutes;
    let rest = elapsed - total * 60_000;
    if 0 <= rest < 60_000 {
        assert(elapsed / 60_000 == total);
        if days == 0 && 0 < hours < 48 {
            assert(total == hours * 60 + minutes);
            assert(total / 60 == hours && total % 60 == minutes);
        }
        if 2 <= days && hours < 24 {
            assert(total == days * 1440 + hours * 60 + minutes);
            assert(total / 1440 == days);
            assert(total % 1440 == hours * 60 + minutes);
        }
    }
}

/// How everything is closed: one sale is followed to its end, with what it asks for asked
/// for, and a sale that fails puts its position back on record. Then the next symbol that
/// is still held is sold, and it is over where there is none.
pub proof fn law_one_sale_after_another<S: Number>(
    closing: CloseAllRun<S>,
    reply: Reply<S>,
    before: RiskState<S>,
    run: CloseAllRun<S>,
    step: Step<S>,
    after: RiskState<S>,
)
    requires
        closing.awaits(reply),
        closing.leads_to(reply, before, run, step, after),
    ensures
        run.symbols@ == closing.symbols@,
        ({
            let moved = closing.sale->0.next(reply);
            let kept = match moved.restored {
                Some(position) => before.positions.push(position),
                None => before.positions,
            };
            &&& moved.step is Ask ==> {
                &&& run.sale == Some(moved.run)
                &&& run.next == closing.next
                &&& step == moved.step
                &&& after.positions == kept
            }
            &&& moved.step is Done && run.sale is None ==> step == Step::<S>::Done(Ok(()))
                && after.positions == kept
            &&& moved.step is Done ==> (run.sale matches Some(sale) ==> {
                &&& closing.next < run.next <= closing.symbols@.len()
                &&& sale.symbol == closing.symbols@[run.next - 1]
                &&& kept.contains(sale.position)
                &&& sale.position.symbol@ == sale.symbol@
                &&& step == Step::<S>::Ask(Request::CancelOrders { symbol: sale.symbol })
                &&& after.positions.len() == kept.len() - 1
            })
        }),
{
    let moved = closing.sale->0.next(reply);
    let state = opened_state(before, moved.restored);
    if moved.step is Done {
        law_closing_all_sells_what_is_held(closing.symbols@, closing.next as int, state);
        if let Some(sale) = run.sale {
            lemma_index_from(state.positions, sale.symbol@, 0);
        }
    }
}

} // verus!

