//! Total equity: free cash plus the mark-to-market value of every holding that
//! maps to a configured pair.

use vstd::prelude::*;
use crate::config::{pair_of, Config};
use crate::exchange::{AccountSnapshot, Balance};
use crate::number::Number;
use crate::venue::{CycleError, Reply, Request};

verus! {

/// Portfolio value, split into the cash that can fund new entries and the total
/// that risk limits are measured against.
#[derive(Debug, Clone, Copy, PartialEq)]
pub struct Equity<S> {
    pub free_quote: S,
    pub total: S,
}

#[derive(Debug, PartialEq)]
pub enum EquityStep<S> {
    Ask(Request<S>),
    Done(Result<Equity<S>, CycleError>),
}

#[derive(Debug)]
pub enum EquityStage<S> {
    AwaitAccount,
    /// `assets[index]`, which trades as `symbol`, is being priced.
    AwaitPrice { equity: Equity<S>, assets: Vec<Balance<S>>, index: usize, symbol: String },
    Over,
}

/// Values the account, holding by holding.
///
/// A holding that cannot be priced is an error rather than skipped: leaving a
/// position out understates equity and would trip the drawdown halt.
#[derive(Debug)]
pub struct EquityRun<S> {
    pub stage: EquityStage<S>,
}

/// The first holding from `from` on that trades as a configured pair, and the
/// pair.
pub open spec fn next_holding<S>(
    pairs: Seq<String>,
    quote_asset: Seq<char>,
    assets: Seq<Balance<S>>,
    from: int,
) -> Option<(int, String)>
    decreases assets.len() - from,
{
    if from < 0 || from >= assets.len() {
        None
    } else {
        match pair_of(pairs, quote_asset, assets[from].asset@) {
            Some(symbol) => Some((from, symbol)),
            None => next_holding(pairs, quote_asset, assets, from + 1),
        }
    }
}

/// Whether a run stands at pricing the next holding from `from` on, with `equity`
/// so far, or is over where there is none.
pub open spec fn values_from<S: Number>(
    config: Config<S>,
    assets: Seq<Balance<S>>,
    from: int,
    equity: Equity<S>,
    run: EquityRun<S>,
    step: EquityStep<S>,
) -> bool {
    match next_holding(config.trading_pairs@, config.quote_asset@, assets, from) {
        Some((i, pair)) => {
            &&& run.stage matches EquityStage::AwaitPrice {
                equity: so_far,
                assets: held,
                index,
                symbol,
            } && so_far == equity && held@ == assets && index == i && symbol == pair
            &&& step == EquityStep::<S>::Ask(Request::Price { symbol: pair })
        },
        None => run.stage is Over && step == EquityStep::<S>::Done(Ok(equity)),
    }
}

impl<S: Number> EquityRun<S> {
    pub open spec fn awaits(self, reply: Reply<S>) -> bool {
        match self.stage {
            EquityStage::AwaitAccount => reply is Account,
            EquityStage::AwaitPrice { .. } => reply is Price,
            EquityStage::Over => false,
        }
    }

    pub open spec fn well_formed(self) -> bool {
        self.stage matches EquityStage::AwaitPrice { assets, index, .. } ==> index < assets.len()
    }

    /// Whether a reply it awaits leads to `run` and `step`.
    pub open spec fn leads_to(
        self,
        reply: Reply<S>,
        config: Config<S>,
        run: EquityRun<S>,
        step: EquityStep<S>,
    ) -> bool {
        match (self.stage, reply) {
            (EquityStage::AwaitAccount, Reply::Account(Ok(account))) => values_from(
                config,
                account.assets@,
                0,
                Equity { free_quote: account.free_quote, total: account.free_quote },
                run,
                step,
            ),
            (EquityStage::AwaitAccount, Reply::Account(Err(cause))) => run.stage is Over && step
                == EquityStep::<S>::Done(Err(CycleError::Venue(cause))),
            (
                EquityStage::AwaitPrice { equity, assets, index, symbol },
                Reply::Price(Ok(price)),
            ) => values_from(
                config,
                assets@,
                index + 1,
                Equity {
                    free_quote: equity.free_quote,
                    total: equity.total.sum(assets@[index as int].quantity.product(price)),
                },
                run,
                step,
            ),
            (
                EquityStage::AwaitPrice { symbol, .. },
                Reply::Price(Err(cause)),
            ) => run.stage is Over && step == EquityStep::<S>::Done(
                Err(CycleError::CannotPrice { symbol, cause }),
            ),
            _ => false,
        }
    }

    /// Starts valuing the account.
    pub fn begin() -> (r: (EquityRun<S>, EquityStep<S>))
        ensures
            r.0.stage is AwaitAccount,
            r.0.well_formed(),
            r.1 == EquityStep::<S>::Ask(Request::Account),
    {
        (EquityRun { stage: EquityStage::AwaitAccount }, EquityStep::Ask(Request::Account))
    }

    fn advance(assets: Vec<Balance<S>>, from: usize, equity: Equity<S>, config: &Config<S>) -> (r: (
        EquityRun<S>,
        EquityStep<S>,
    ))
        requires
            from <= assets@.len(),
        ensures
            values_from(*config, assets@, from as int, equity, r.0, r.1),
            r.0.well_formed(),
            r.1 matches EquityStep::Ask(request) ==> forall|answer: Reply<S>| #[trigger]
                request.is_answered_by(answer) ==> r.0.awaits(answer),
    {
        let mut index: usize = from;
        while index < assets.len()
            invariant
                from <= index <= assets@.len(),
                next_holding(
                    config.trading_pairs@,
                    config.quote_asset@,
                    assets@,
                    from as int,
                ) == next_holding(
                    config.trading_pairs@,
                    config.quote_asset@,
                    assets@,
                    index as int,
                ),
            decreases assets@.len() - index,
        {
            match config.pair_of(assets[index].asset.as_str()) {
                Some(pair) => {
                    let symbol = pair.clone();
                    let step = EquityStep::Ask(Request::Price { symbol: pair.clone() });
                    let stage = EquityStage::AwaitPrice { equity, assets, index, symbol };
                    return (EquityRun { stage }, step);
                },
                None => {
                    index = index + 1;
                },
            }
        }
        (EquityRun { stage: EquityStage::Over }, EquityStep::Done(Ok(equity)))
    }

    /// Takes the reply to the last request.
    pub fn step(self, reply: Reply<S>, config: &Config<S>) -> (r: (EquityRun<S>, EquityStep<S>))
        requires
            self.awaits(reply),
            self.well_formed(),
        ensures
            self.leads_to(reply, *config, r.0, r.1),
            r.0.well_formed(),
            r.1 matches EquityStep::Ask(request) ==> forall|answer: Reply<S>| #[trigger]
                request.is_answered_by(answer) ==> r.0.awaits(answer),
    {
        match (self.stage, reply) {
            (EquityStage::AwaitAccount, Reply::Account(Ok(account))) => {
                let AccountSnapshot { free_quote, assets } = account;
                Self::advance(assets, 0, Equity { free_quote, total: free_quote }, config)
            },
            (EquityStage::AwaitAccount, Reply::Account(Err(cause))) => (
                EquityRun { stage: EquityStage::Over },
                EquityStep::Done(Err(CycleError::Venue(cause))),
            ),
            (
                EquityStage::AwaitPrice { equity, assets, index, symbol: _ },
                Reply::Price(Ok(price)),
            ) => {
                let total = equity.total.plus(assets[index].quantity.times(price));
                let next = Equity { free_quote: equity.free_quote, total };
                Self::advance(assets, index + 1, next, config)
            },
            (
                EquityStage::AwaitPrice { equity: _, assets: _, index: _, symbol },
                Reply::Price(Err(cause)),
            ) => (
                EquityRun { stage: EquityStage::Over },
                EquityStep::Done(Err(CycleError::CannotPrice { symbol, cause })),
            ),
            // No other reply is awaited.
            _ => (
                EquityRun { stage: EquityStage::Over },
                EquityStep::Done(Err(CycleError::Venue(String::new()))),
            ),
        }
    }
}

/// A holding in no configured pair is never priced, and every one in a configured
/// pair is reached: between two that are priced in turn there is none.
pub proof fn law_every_configured_holding_is_priced<S>(
    pairs: Seq<String>,
    quote_asset: Seq<char>,
    assets: Seq<Balance<S>>,
    from: int,
)
    requires
        0 <= from <= assets.len(),
    ensures
        match next_holding(pairs, quote_asset, assets, from) {
            Some((i, pair)) => {
                &&& from <= i < assets.len()
                &&& pair_of(pairs, quote_asset, assets[i].asset@) == Some(pair)
                &&& forall|j: int|
                    from <= j < i ==> pair_of(pairs, quote_asset, (#[trigger] assets[j]).asset@)
                        is None
            },
            None => forall|j: int|
                from <= j < assets.len() ==> pair_of(
                    pairs,
                    quote_asset,
                    (#[trigger] assets[j]).asset@,
                ) is None,
        },
    decreases assets.len() - from,
{
    if from < assets.len() && pair_of(pairs, quote_asset, assets[from].asset@) is None {
        law_every_configured_holding_is_priced(pairs, quote_asset, assets, from + 1);
    }
}

/// Where a valuation stands: done with an equity, or at pricing a later holding with that
/// equity so far, by the pair that holding trades as.
pub open spec fn stands_at<S: Number>(
    config: Config<S>,
    assets: Seq<Balance<S>>,
    from: int,
    free: S,
    total: S,
    run: EquityRun<S>,
    step: EquityStep<S>,
) -> bool {
    match step {
        EquityStep::Done(outcome) => {
            &&& run.stage is Over
            &&& outcome matches Ok(equity) && equity.free_quote == free && equity.total == total
            &&& forall|k: int|
                from <= k < assets.len() ==> pair_of(
                    config.trading_pairs@,
                    config.quote_asset@,
                    (#[trigger] assets[k]).asset@,
                ) is None
        },
        EquityStep::Ask(request) => {
            &&& run.stage matches EquityStage::AwaitPrice { equity, assets: held, index, symbol }
            &&& equity.free_quote == free
            &&& equity.total == total
            &&& held@ == assets
            &&& from <= index < assets.len()
            &&& pair_of(
                config.trading_pairs@,
                config.quote_asset@,
                assets[index as int].asset@,
            ) == Some(symbol)
            &&& forall|k: int|
                from <= k < index ==> pair_of(
                    config.trading_pairs@,
                    config.quote_asset@,
                    (#[trigger] assets[k]).asset@,
                ) is None
            &&& request == Request::<S>::Price { symbol }
        },
    }
}

/// A valuation starts from the free cash, which it keeps apart. Each price adds the
/// quantity of the holding that was asked about at that price. Without an account, or
/// without a price, there is no equity, and the error says which.
pub proof fn law_equity_adds_up<S: Number>(
    run: EquityRun<S>,
    reply: Reply<S>,
    config: Config<S>,
    next: EquityRun<S>,
    step: EquityStep<S>,
)
    requires
        run.well_formed(),
        run.awaits(reply),
        run.leads_to(reply, config, next, step),
    ensures
        reply matches Reply::Account(Ok(account)) ==> stands_at(
            config,
            account.assets@,
            0,
            account.free_quote,
            account.free_quote,
            next,
            step,
        ),
        reply matches Reply::Account(Err(cause)) ==> step == EquityStep::<S>::Done(
            Err(CycleError::Venue(cause)),
        ),
        (run.stage matches EquityStage::AwaitPrice { equity, assets, index, symbol } ==> {
            &&& reply matches Reply::Price(Ok(price)) ==> stands_at(
                config,
                assets@,
                index + 1,
                equity.free_quote,
                equity.total.sum(assets@[index as int].quantity.product(price)),
                next,
                step,
            )
            &&& reply matches Reply::Price(Err(cause)) ==> step == EquityStep::<S>::Done(
                Err(CycleError::CannotPrice { symbol, cause }),
            )
        }),
{
    match (run.stage, reply) {
        (EquityStage::AwaitAccount, Reply::Account(Ok(account))) => {
            law_every_configured_holding_is_priced(
                config.trading_pairs@,
                config.quote_asset@,
                account.assets@,
                0,
            );
        },
        (EquityStage::AwaitPrice { assets, index, .. }, Reply::Price(Ok(price))) => {
            law_every_configured_holding_is_priced(
                config.trading_pairs@,
                config.quote_asset@,
                assets@,
                index + 1,
            );
        },
        _ => {},
    }
}

} // verus!
