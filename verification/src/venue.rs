//! What the engine asks of the outside world, what comes back, and what can go
//! wrong.
//!
//! The engine performs no I/O. A run is a value that names the next request, and
//! takes the reply to it: whoever drives the run performs the request.

use vstd::prelude::*;
use crate::exchange::{
    AccountSnapshot, Candle, OcoPlacement, OpenOrder, OrderOutcome, OrderRejection, Side,
    StopPlacement, SymbolFilters,
};
use crate::number::Number;

verus! {

/// Candle width.
#[derive(Debug, Clone, Copy, PartialEq, Eq, Structural)]
pub enum Interval {
    Daily,
    FourHour,
}

impl Interval {
    pub open spec fn wire_name(self) -> Seq<char> {
        match self {
            Interval::Daily => "1d"@,
            Interval::FourHour => "4h"@,
        }
    }

    /// Wire representation.
    pub fn as_str(self) -> (r: &'static str)
        ensures
            r@ == self.wire_name(),
    {
        match self {
            Interval::Daily => "1d",
            Interval::FourHour => "4h",
        }
    }
}

/// One thing the engine asks for.
#[derive(Debug, PartialEq)]
pub enum Request<S> {
    Filters { symbol: String },
    MarketOrder { symbol: String, side: Side, quantity: S },
    OcoSell { symbol: String, quantity: S, take_profit: S, stop: S, stop_limit: S },
    StopLoss { symbol: String, quantity: S, stop: S, stop_limit: S },
    CancelOrders { symbol: String },
    OpenOrders { symbol: String },
    Price { symbol: String },
    Klines { symbol: String, interval: Interval, limit: u32 },
    Account,
    /// Tell the operator.
    Notify(Notice<S>),
}

/// What came of a request.
#[derive(Debug, PartialEq)]
pub enum Reply<S> {
    Filters(Result<SymbolFilters<S>, String>),
    Order(Result<OrderOutcome<S>, String>),
    Oco(Result<OcoPlacement<S>, String>),
    Stop(Result<StopPlacement<S>, String>),
    Cancelled(Result<(), String>),
    Orders(Result<Vec<OpenOrder<S>>, String>),
    Price(Result<S, String>),
    Klines(Result<Vec<Candle<S>>, String>),
    Account(Result<AccountSnapshot<S>, String>),
    Notified,
}

impl<S> Request<S> {
    /// Whether `reply` is of the kind that this request is answered with.
    pub open spec fn is_answered_by(self, reply: Reply<S>) -> bool {
        match self {
            Request::Filters { .. } => reply is Filters,
            Request::MarketOrder { .. } => reply is Order,
            Request::OcoSell { .. } => reply is Oco,
            Request::StopLoss { .. } => reply is Stop,
            Request::CancelOrders { .. } => reply is Cancelled,
            Request::OpenOrders { .. } => reply is Orders,
            Request::Price { .. } => reply is Price,
            Request::Klines { .. } => reply is Klines,
            Request::Account => reply is Account,
            Request::Notify(_) => reply is Notified,
        }
    }
}

// ---------------------------------------------------------------------------
// What the operator is told
// ---------------------------------------------------------------------------

#[derive(Debug, PartialEq)]
pub enum Notice<S> {
    Buy {
        symbol: String,
        price: S,
        quantity: S,
        stop_loss: S,
        take_profit: S,
        confidence: String,
        reasoning: String,
    },
    Sell { symbol: String, price: S, pnl: S, pnl_pct: S },
    Halt { drawdown_pct: S, equity: S },
    Reconcile { restored: u32, emergency: u32, failed: u32 },
    Error(Trouble<S>),
}

/// Why a position could not be protected.
#[derive(Debug, PartialEq)]
pub enum ProtectionFailure<S> {
    /// The stop leg would be rejected.
    StopLeg(OrderRejection<S>),
    /// The target leg would be rejected.
    TargetLeg(OrderRejection<S>),
    /// The venue said no.
    Venue(String),
}

impl<S: Number> ProtectionFailure<S> {
    pub open spec fn message(self) -> Seq<char> {
        match self {
            ProtectionFailure::StopLeg(rejection) => "stop leg would be rejected: "@
                + rejection.message(),
            ProtectionFailure::TargetLeg(rejection) => "target leg would be rejected: "@
                + rejection.message(),
            ProtectionFailure::Venue(cause) => cause@,
        }
    }

    pub fn describe(&self) -> (r: String)
        ensures
            r@ == self.message(),
    {
        match self {
            ProtectionFailure::StopLeg(rejection) => "stop leg would be rejected: ".to_owned().concat(
                rejection.describe().as_str(),
            ),
            ProtectionFailure::TargetLeg(rejection) => {
                "target leg would be rejected: ".to_owned().concat(rejection.describe().as_str())
            },
            ProtectionFailure::Venue(cause) => cause.clone(),
        }
    }
}

/// Why an execution did not go through.
#[derive(Debug, PartialEq)]
pub enum ExecError<S> {
    /// The venue failed, in its own words.
    Venue(String),
    /// The order would violate a filter, so none was sent. `floor` is the
    /// smallest size that would do, and `notional` its value.
    Refused {
        symbol: String,
        rejection: OrderRejection<S>,
        floor: S,
        base_asset: String,
        notional: S,
        quote_asset: String,
    },
    NoPosition { symbol: String },
    SellFailed { symbol: String, cause: String },
    CancelFailed { symbol: String, cause: String },
}

impl<S: Number> ExecError<S> {
    pub open spec fn message(self) -> Seq<char> {
        match self {
            ExecError::Venue(cause) => cause@,
            ExecError::Refused { symbol, rejection, floor, base_asset, notional, quote_asset } => {
                symbol@ + ": "@ + rejection.message()
                    + "; the smallest tradable size here is "@ + floor.shortest() + " "@
                    + base_asset@ + "                  (~"@ + notional.fixed(2) + " "@ + quote_asset@ + ")"@
            },
            ExecError::NoPosition { symbol } => "No open position for "@ + symbol@,
            ExecError::SellFailed { symbol, cause } => "Market sell failed for "@ + symbol@ + ": "@
                + cause@,
            ExecError::CancelFailed { symbol, cause } => symbol@
                + ": could not cancel old stop, leaving it in place: "@ + cause@,
        }
    }

    /// The error in words.
    pub fn describe(&self) -> (r: String)
        ensures
            r@ == self.message(),
    {
        match self {
            ExecError::Venue(cause) => cause.clone(),
            ExecError::Refused { symbol, rejection, floor, base_asset, notional, quote_asset } => {
                let mut text = symbol.clone();
                text.append(": ");
                text.append(rejection.describe().as_str());
                text.append("; the smallest tradable size here is ");
                text.append(floor.to_shortest().as_str());
                text.append(" ");
                text.append(base_asset.as_str());
                text.append("                  (~");
                text.append(notional.to_fixed(2).as_str());
                text.append(" ");
                text.append(quote_asset.as_str());
                text.append(")");
                text
            },
            ExecError::NoPosition { symbol } => "No open position for ".to_owned().concat(
                symbol.as_str(),
            ),
            ExecError::SellFailed { symbol, cause } => {
                let mut text = "Market sell failed for ".to_owned();
                text.append(symbol.as_str());
                text.append(": ");
                text.append(cause.as_str());
                text
            },
            ExecError::CancelFailed { symbol, cause } => {
                let mut text = symbol.clone();
                text.append(": could not cancel old stop, leaving it in place: ");
                text.append(cause.as_str());
                text
            },
        }
    }
}

/// Why a cycle stopped early.
#[derive(Debug, PartialEq)]
pub enum CycleError {
    Venue(String),
    CannotPrice { symbol: String, cause: String },
}

impl CycleError {
    pub open spec fn message(self) -> Seq<char> {
        match self {
            CycleError::Venue(cause) => cause@,
            CycleError::CannotPrice { symbol, cause } => "cannot price "@ + symbol@
                + " for equity: "@ + cause@,
        }
    }

    pub fn describe(&self) -> (r: String)
        ensures
            r@ == self.message(),
    {
        match self {
            CycleError::Venue(cause) => cause.clone(),
            CycleError::CannotPrice { symbol, cause } => {
                let mut text = "cannot price ".to_owned();
                text.append(symbol.as_str());
                text.append(" for equity: ");
                text.append(cause.as_str());
                text
            },
        }
    }
}

/// Something the operator should look at.
#[derive(Debug, PartialEq)]
pub enum Trouble<S> {
    Cycle(CycleError),
    Buy { symbol: String, error: ExecError<S> },
    Sell { symbol: String, error: ExecError<S> },
    Exit { symbol: String, error: ExecError<S> },
    /// A new position has no protective order.
    Unprotected { symbol: String, failure: ProtectionFailure<S> },
    /// The stop of a held position could not be placed.
    StopLost { symbol: String, cause: String },
}

impl<S: Number> Trouble<S> {
    pub open spec fn context(self) -> Seq<char> {
        match self {
            Trouble::Cycle(_) => "Cycle"@,
            Trouble::Buy { symbol, .. } => "BUY "@ + symbol@,
            Trouble::Sell { symbol, .. } => "SELL "@ + symbol@,
            Trouble::Exit { symbol, .. } => "Exit "@ + symbol@,
            Trouble::Unprotected { symbol, .. } => "UNPROTECTED "@ + symbol@,
            Trouble::StopLost { symbol, .. } => "UNPROTECTED "@ + symbol@,
        }
    }

    pub open spec fn detail(self) -> Seq<char> {
        match self {
            Trouble::Cycle(error) => error.message(),
            Trouble::Buy { error, .. } => error.message(),
            Trouble::Sell { error, .. } => error.message(),
            Trouble::Exit { error, .. } => error.message(),
            Trouble::Unprotected { failure, .. } => "Protective order rejected: "@
                + failure.message(),
            Trouble::StopLost { cause, .. } => "Stop could not be placed: "@ + cause@
                + ". Retrying next cycle."@,
        }
    }

    pub fn context_text(&self) -> (r: String)
        ensures
            r@ == self.context(),
    {
        match self {
            Trouble::Cycle(_) => "Cycle".to_owned(),
            Trouble::Buy { symbol, .. } => "BUY ".to_owned().concat(symbol.as_str()),
            Trouble::Sell { symbol, .. } => "SELL ".to_owned().concat(symbol.as_str()),
            Trouble::Exit { symbol, .. } => "Exit ".to_owned().concat(symbol.as_str()),
            Trouble::Unprotected { symbol, .. } => "UNPROTECTED ".to_owned().concat(symbol.as_str()),
            Trouble::StopLost { symbol, .. } => "UNPROTECTED ".to_owned().concat(symbol.as_str()),
        }
    }

    pub fn detail_text(&self) -> (r: String)
        ensures
            r@ == self.detail(),
    {
        match self {
            Trouble::Cycle(error) => error.describe(),
            Trouble::Buy { error, .. } => error.describe(),
            Trouble::Sell { error, .. } => error.describe(),
            Trouble::Exit { error, .. } => error.describe(),
            Trouble::Unprotected { failure, .. } => "Protective order rejected: ".to_owned().concat(
                failure.describe().as_str(),
            ),
            Trouble::StopLost { cause, .. } => {
                let mut text = "Stop could not be placed: ".to_owned();
                text.append(cause.as_str());
                text.append(". Retrying next cycle.");
                text
            },
        }
    }
}

/// Where a run stands: it asks for something, or it is over.
#[derive(Debug, PartialEq)]
pub enum Step<S> {
    Ask(Request<S>),
    Done(Result<(), ExecError<S>>),
}

/// A day and four hours, as the venue writes them.
pub proof fn law_interval_names()
    ensures
        Interval::Daily.wire_name() == "1d"@,
        Interval::FourHour.wire_name() == "4h"@,
{
}

/// What the operator reads of something that went wrong: what was being done and to which
/// symbol, and then the error in its own words.
pub proof fn law_troubles_in_words<S: Number>(
    symbol: String,
    cause: String,
    error: ExecError<S>,
    stopped: CycleError,
    failure: ProtectionFailure<S>,
)
    ensures
        Trouble::<S>::Cycle(stopped).context() == "Cycle"@ && Trouble::<S>::Cycle(stopped).detail()
            == stopped.message(),
        (Trouble::Buy { symbol, error }).context() == "BUY "@ + symbol@ && (Trouble::Buy {
            symbol,
            error,
        }).detail() == error.message(),
        (Trouble::Sell { symbol, error }).context() == "SELL "@ + symbol@ && (Trouble::Sell {
            symbol,
            error,
        }).detail() == error.message(),
        (Trouble::Exit { symbol, error }).context() == "Exit "@ + symbol@ && (Trouble::Exit {
            symbol,
            error,
        }).detail() == error.message(),
        (Trouble::Unprotected { symbol, failure }).context() == "UNPROTECTED "@ + symbol@,
        (Trouble::Unprotected { symbol, failure }).detail() == "Protective order rejected: "@
            + failure.message(),
        (Trouble::<S>::StopLost { symbol, cause }).context() == "UNPROTECTED "@ + symbol@,
        (Trouble::<S>::StopLost { symbol, cause }).detail() == "Stop could not be placed: "@
            + cause@ + ". Retrying next cycle."@,
{
}

/// What each error says.
pub proof fn law_errors_in_words<S: Number>(
    symbol: String,
    cause: String,
    rejection: OrderRejection<S>,
)
    ensures
        CycleError::Venue(cause).message() == cause@,
        (CycleError::CannotPrice { symbol, cause }).message() == "cannot price "@ + symbol@
            + " for equity: "@ + cause@,
        ExecError::<S>::Venue(cause).message() == cause@,
        (ExecError::<S>::NoPosition { symbol }).message() == "No open position for "@ + symbol@,
        (ExecError::<S>::SellFailed { symbol, cause }).message() == "Market sell failed for "@
            + symbol@ + ": "@ + cause@,
        (ExecError::<S>::CancelFailed { symbol, cause }).message() == symbol@
            + ": could not cancel old stop, leaving it in place: "@ + cause@,
        ProtectionFailure::StopLeg(rejection).message() == "stop leg would be rejected: "@
            + rejection.message(),
        ProtectionFailure::TargetLeg(rejection).message() == "target leg would be rejected: "@
            + rejection.message(),
        ProtectionFailure::<S>::Venue(cause).message() == cause@,
{
}

} // verus!
