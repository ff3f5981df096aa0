//! Exchange-agnostic models and the venue's trading rules.
//!
//! Everything above this layer speaks only in these types. What a venue sends
//! over the wire is normalised into them before any trading rule sees it.

use vstd::prelude::*;
use crate::number::{larger, larger_of, total, zero, Number};
use crate::text::{chars_of, same_text};

verus! {

/// A single OHLCV bar. `open_time` and `close_time` are Unix epoch milliseconds.
#[derive(Debug, Clone, Copy, PartialEq)]
pub struct Candle<S> {
    pub open_time: u64,
    pub open: S,
    pub high: S,
    pub low: S,
    pub close: S,
    pub volume: S,
    pub close_time: u64,
}

#[derive(Debug, Clone, Copy, PartialEq, Eq, Structural)]
pub enum Side {
    Buy,
    Sell,
}

impl Side {
    pub open spec fn wire_name(self) -> Seq<char> {
        match self {
            Side::Buy => "BUY"@,
            Side::Sell => "SELL"@,
        }
    }

    /// Wire representation.
    pub fn as_str(self) -> (r: &'static str)
        ensures
            r@ == self.wire_name(),
    {
        match self {
            Side::Buy => "BUY",
            Side::Sell => "SELL",
        }
    }

    /// The side a wire text names, if it names one.
    pub fn from_wire(text: &str) -> (r: Option<Side>)
        ensures
            r == if text@ == "BUY"@ {
                Some(Side::Buy)
            } else if text@ == "SELL"@ {
                Some(Side::Sell)
            } else {
                None
            },
    {
        if same_text(text, "BUY") {
            Some(Side::Buy)
        } else if same_text(text, "SELL") {
            Some(Side::Sell)
        } else {
            None
        }
    }
}

/// One partial fill of an order, at a single price.
#[derive(Debug, Clone, PartialEq)]
pub struct Fill<S> {
    pub price: S,
    pub quantity: S,
    /// Fee charged for this fill, denominated in `commission_asset`.
    pub commission: S,
    pub commission_asset: String,
}

/// Normalised result of a market order that has already executed.
///
/// `average_price` is volume-weighted across `fills`. Callers use it as the real
/// entry or exit price rather than the pre-trade quote.
#[derive(Debug, Clone, PartialEq)]
pub struct OrderOutcome<S> {
    pub symbol: String,
    pub side: Side,
    pub filled_quantity: S,
    pub average_price: S,
    pub fills: Vec<Fill<S>>,
}

/// The fees in `asset` among `fills`, added up in order.
pub open spec fn commission_total<S: Number>(fills: Seq<Fill<S>>, asset: Seq<char>) -> S
    decreases fills.len(),
{
    if fills.len() == 0 {
        zero::<S>()
    } else {
        let before = commission_total(fills.drop_last(), asset);
        if fills.last().commission_asset@ == asset {
            before.sum(fills.last().commission)
        } else {
            before
        }
    }
}

impl<S: Number> OrderOutcome<S> {
    /// Total fee charged in `asset` across all fills.
    ///
    /// A spot BUY is charged in the base asset, so the amount that can be sold
    /// afterwards is `filled_quantity` minus this.
    pub fn commission_paid_in(&self, asset: &str) -> (r: S)
        ensures
            r == commission_total(self.fills@, asset@),
    {
        let mut paid = S::ratio(0, 1);
        let mut i: usize = 0;
        while i < self.fills.len()
            invariant
                i <= self.fills@.len(),
                paid == commission_total(self.fills@.take(i as int), asset@),
            decreases self.fills@.len() - i,
        {
            if same_text(self.fills[i].commission_asset.as_str(), asset) {
                paid = paid.plus(self.fills[i].commission);
            }
            proof {
                let next = self.fills@.take(i + 1);
                assert(next.drop_last() =~= self.fills@.take(i as int));
            }
            i = i + 1;
        }
        assert(self.fills@.take(i as int) =~= self.fills@);
        paid
    }
}

/// The order types the engine cares about. Anything else the venue reports is
/// preserved verbatim under `Other`: recovering protective levels must not
/// mistake an unknown type for "no stop".
#[derive(Debug, Clone, PartialEq, Eq)]
pub enum OrderKind {
    Market,
    Limit,
    LimitMaker,
    StopLoss,
    StopLossLimit,
    TakeProfit,
    TakeProfitLimit,
    Other(String),
}

impl OrderKind {
    /// The wire text of the kind.
    pub open spec fn wire_name(self) -> Seq<char> {
        match self {
            OrderKind::Market => "MARKET"@,
            OrderKind::Limit => "LIMIT"@,
            OrderKind::LimitMaker => "LIMIT_MAKER"@,
            OrderKind::StopLoss => "STOP_LOSS"@,
            OrderKind::StopLossLimit => "STOP_LOSS_LIMIT"@,
            OrderKind::TakeProfit => "TAKE_PROFIT"@,
            OrderKind::TakeProfitLimit => "TAKE_PROFIT_LIMIT"@,
            OrderKind::Other(text) => text@,
        }
    }

    /// Whether a wire text names one of the kinds that have a variant.
    pub open spec fn is_known_name(text: Seq<char>) -> bool {
        ||| text == "MARKET"@
        ||| text == "LIMIT"@
        ||| text == "LIMIT_MAKER"@
        ||| text == "STOP_LOSS"@
        ||| text == "STOP_LOSS_LIMIT"@
        ||| text == "TAKE_PROFIT"@
        ||| text == "TAKE_PROFIT_LIMIT"@
    }

    /// Whether the kind is the one that its wire text reads as: a known name is
    /// never kept under `Other`.
    pub open spec fn is_canonical(self) -> bool {
        self matches OrderKind::Other(text) ==> !Self::is_known_name(text@)
    }

    pub fn from_wire(s: &str) -> (r: Self)
        ensures
            r.wire_name() == s@,
            r.is_canonical(),
            r is Market <==> s@ == "MARKET"@,
            r is Limit <==> s@ == "LIMIT"@,
            r is LimitMaker <==> s@ == "LIMIT_MAKER"@,
            r is StopLoss <==> s@ == "STOP_LOSS"@,
            r is StopLossLimit <==> s@ == "STOP_LOSS_LIMIT"@,
            r is TakeProfit <==> s@ == "TAKE_PROFIT"@,
            r is TakeProfitLimit <==> s@ == "TAKE_PROFIT_LIMIT"@,
            r is Other <==> !Self::is_known_name(s@),
            r matches OrderKind::Other(text) ==> text@ == s@,
    {
        proof {
            lemma_wire_names_differ();
        }
        if same_text(s, "MARKET") {
            OrderKind::Market
        } else if same_text(s, "LIMIT") {
            OrderKind::Limit
        } else if same_text(s, "LIMIT_MAKER") {
            OrderKind::LimitMaker
        } else if same_text(s, "STOP_LOSS") {
            OrderKind::StopLoss
        } else if same_text(s, "STOP_LOSS_LIMIT") {
            OrderKind::StopLossLimit
        } else if same_text(s, "TAKE_PROFIT") {
            OrderKind::TakeProfit
        } else if same_text(s, "TAKE_PROFIT_LIMIT") {
            OrderKind::TakeProfitLimit
        } else {
            OrderKind::Other(s.to_owned())
        }
    }

    pub open spec fn carries_stop(self) -> bool {
        self is StopLoss || self is StopLossLimit
    }

    pub open spec fn rests_at_target(self) -> bool {
        self is LimitMaker || self is Limit || self is TakeProfit || self is TakeProfitLimit
    }

    /// Whether this kind carries a stop trigger (its `stop_price` is the level).
    pub fn is_stop(&self) -> (r: bool)
        ensures
            r == self.carries_stop(),
    {
        match self {
            OrderKind::StopLoss => true,
            OrderKind::StopLossLimit => true,
            _ => false,
        }
    }

    /// Whether this kind rests at a target price (its `price` is the level).
    pub fn is_target(&self) -> (r: bool)
        ensures
            r == self.rests_at_target(),
    {
        match self {
            OrderKind::LimitMaker => true,
            OrderKind::Limit => true,
            OrderKind::TakeProfit => true,
            OrderKind::TakeProfitLimit => true,
            _ => false,
        }
    }
}

/// The seven known wire names are pairwise different.
proof fn lemma_wire_names_differ()
    ensures
        "MARKET"@.len() == 6,
        "LIMIT"@.len() == 5,
        "LIMIT_MAKER"@.len() == 11,
        "STOP_LOSS"@.len() == 9,
        "STOP_LOSS_LIMIT"@.len() == 15,
        "TAKE_PROFIT"@.len() == 11,
        "TAKE_PROFIT_LIMIT"@.len() == 17,
        "LIMIT_MAKER"@[0] != "TAKE_PROFIT"@[0],
{
    reveal_strlit("MARKET");
    reveal_strlit("LIMIT");
    reveal_strlit("LIMIT_MAKER");
    reveal_strlit("STOP_LOSS");
    reveal_strlit("STOP_LOSS_LIMIT");
    reveal_strlit("TAKE_PROFIT");
    reveal_strlit("TAKE_PROFIT_LIMIT");
}

/// Two kinds read from the wire that print alike are the same kind, and no kind
/// is a stop and a target at once.
pub proof fn law_wire_names_identify_kinds(a: OrderKind, b: OrderKind)
    requires
        a.is_canonical(),
        b.is_canonical(),
        a.wire_name() == b.wire_name(),
    ensures
        a.carries_stop() == b.carries_stop(),
        a.rests_at_target() == b.rests_at_target(),
        a is Other == b is Other,
        !(a is Other) ==> a == b,
        !(a.carries_stop() && a.rests_at_target()),
{
    lemma_wire_names_differ();
}

/// An order resting on the exchange.
#[derive(Debug, Clone, PartialEq)]
pub struct OpenOrder<S> {
    pub order_id: u64,
    pub symbol: String,
    pub side: Side,
    pub kind: OrderKind,
    /// Resting limit price. Zero when the kind has none.
    pub price: S,
    /// Trigger price for stop kinds. Zero when the kind has none.
    pub stop_price: S,
    pub quantity: S,
}

/// Confirmation that an OCO bracket is live on the venue.
#[derive(Debug, Clone, PartialEq)]
pub struct OcoPlacement<S> {
    pub order_list_id: i64,
    pub stop_price: S,
    pub take_profit_price: S,
}

/// Confirmation that a standalone protective stop is live on the venue.
#[derive(Debug, Clone, PartialEq)]
pub struct StopPlacement<S> {
    pub order_id: u64,
    pub stop_price: S,
}

/// A non-quote asset holding, free and locked together, so an asset reserved by
/// a resting order still counts toward equity.
#[derive(Debug, Clone, PartialEq)]
pub struct Balance<S> {
    pub asset: String,
    pub quantity: S,
}

/// Spot account snapshot: spendable quote currency plus every other non-zero
/// holding.
#[derive(Debug, Clone, PartialEq)]
pub struct AccountSnapshot<S> {
    pub free_quote: S,
    pub assets: Vec<Balance<S>>,
}

/// The venue's trading rules for one symbol. An order that violates any of them
/// is rejected outright, so they are applied before an order is sent.
#[derive(Debug, Clone, PartialEq)]
pub struct SymbolFilters<S> {
    pub symbol: String,
    pub base_asset: String,
    pub quote_asset: String,
    /// Quantity must be a whole multiple of this.
    pub step_size: S,
    pub min_qty: S,
    pub max_qty: S,
    /// Price must be a whole multiple of this.
    pub tick_size: S,
    /// Order value (price times quantity) must reach this.
    pub min_notional: S,
}

/// Why an order cannot legally be sent.
#[derive(Debug, Clone, PartialEq)]
pub enum OrderRejection<S> {
    /// Quantity rounds to zero, or is under the venue minimum.
    BelowMinQuantity { quantity: S, min_qty: S },
    AboveMaxQuantity { quantity: S, max_qty: S },
    /// Order value is under the venue minimum.
    BelowMinNotional { notional: S, min_notional: S },
}

impl<S: Number> OrderRejection<S> {
    pub open spec fn message(self) -> Seq<char> {
        match self {
            OrderRejection::BelowMinQuantity { quantity, min_qty } => "quantity "@
                + quantity.shortest() + " is below the venue minimum "@ + min_qty.shortest(),
            OrderRejection::AboveMaxQuantity { quantity, max_qty } => "quantity "@
                + quantity.shortest() + " is above the venue maximum "@ + max_qty.shortest(),
            OrderRejection::BelowMinNotional { notional, min_notional } => "order value "@
                + notional.fixed(2) + " is below the venue minimum "@ + min_notional.fixed(2),
        }
    }

    /// The rejection in words.
    pub fn describe(&self) -> (r: String)
        ensures
            r@ == self.message(),
    {
        match self {
            OrderRejection::BelowMinQuantity { quantity, min_qty } => "quantity ".to_owned().concat(
                quantity.to_shortest().as_str(),
            ).concat(" is below the venue minimum ").concat(min_qty.to_shortest().as_str()),
            OrderRejection::AboveMaxQuantity { quantity, max_qty } => "quantity ".to_owned().concat(
                quantity.to_shortest().as_str(),
            ).concat(" is above the venue maximum ").concat(max_qty.to_shortest().as_str()),
            OrderRejection::BelowMinNotional { notional, min_notional } =>
                "order value ".to_owned().concat(notional.to_fixed(2).as_str()).concat(
                " is below the venue minimum ",
            ).concat(min_notional.to_fixed(2).as_str()),
        }
    }
}

impl<S: Number> SymbolFilters<S> {
    /// What the venue would say of an order of `quantity` at `price`.
    pub open spec fn verdict(self, quantity: S, price: S) -> Result<(), OrderRejection<S>> {
        let notional = quantity.product(price);
        if quantity.lt(self.min_qty) || quantity.le(zero::<S>()) {
            Err(OrderRejection::BelowMinQuantity { quantity, min_qty: self.min_qty })
        } else if zero::<S>().lt(self.max_qty) && self.max_qty.lt(quantity) {
            Err(OrderRejection::AboveMaxQuantity { quantity, max_qty: self.max_qty })
        } else if notional.lt(self.min_notional) {
            Err(OrderRejection::BelowMinNotional { notional, min_notional: self.min_notional })
        } else {
            Ok(())
        }
    }

    /// Largest legal quantity not exceeding `quantity`.
    ///
    /// Always rounds down: rounding up could exceed the free balance, or try to
    /// sell more of the base asset than the fill delivered.
    pub fn round_quantity(&self, quantity: S) -> (r: S)
        ensures
            r == rounded_down(quantity, self.step_size),
    {
        round_down_to_increment(quantity, self.step_size)
    }

    /// Nearest legal price at or below `price`.
    pub fn round_price(&self, price: S) -> (r: S)
        ensures
            r == rounded_down(price, self.tick_size),
    {
        round_down_to_increment(price, self.tick_size)
    }

    /// Whether an order of `quantity` at `price` satisfies every filter.
    /// `quantity` is expected to have been through [`Self::round_quantity`].
    pub fn check_order(&self, quantity: S, price: S) -> (r: Result<(), OrderRejection<S>>)
        ensures
            r == self.verdict(quantity, price),
    {
        if quantity.below(self.min_qty) || quantity.at_most(S::ratio(0, 1)) {
            return Err(OrderRejection::BelowMinQuantity { quantity, min_qty: self.min_qty });
        }
        if S::ratio(0, 1).below(self.max_qty) && self.max_qty.below(quantity) {
            return Err(OrderRejection::AboveMaxQuantity { quantity, max_qty: self.max_qty });
        }
        let notional = quantity.times(price);
        if notional.below(self.min_notional) {
            return Err(
                OrderRejection::BelowMinNotional { notional, min_notional: self.min_notional },
            );
        }
        Ok(())
    }

    /// The smallest quantity that clears both minimums at `price`.
    pub open spec fn smallest_tradable(self, price: S) -> S {
        let by_notional = if zero::<S>().lt(price) {
            rounded_up(self.min_notional.quotient(price), self.step_size)
        } else {
            zero::<S>()
        };
        larger_of(by_notional, self.min_qty)
    }

    /// Smallest quantity that clears both the lot and notional minimums at
    /// `price`. Useful for reporting how far short an intended order fell.
    pub fn min_tradable_quantity(&self, price: S) -> (r: S)
        ensures
            r == self.smallest_tradable(price),
    {
        let by_notional = if S::ratio(0, 1).below(price) {
            round_up_to_increment(self.min_notional.over(price), self.step_size)
        } else {
            S::ratio(0, 1)
        };
        larger(by_notional, self.min_qty)
    }
}

/// Whether a count of steps is a whole number but for rounding noise: in binary
/// floats `0.00007 / 0.00001` comes out as `6.999...`.
pub open spec fn nearly_whole<S: Number>(steps: S) -> bool {
    steps.whole_nearest().difference(steps).magnitude().lt(S::of_ratio(1, 1_000_000_000))
}

/// `value` rounded down to a whole multiple of `increment`.
pub open spec fn rounded_down<S: Number>(value: S, increment: S) -> S {
    if increment.le(zero::<S>()) || !value.is_bounded() {
        value
    } else {
        let steps = value.quotient(increment);
        let whole = if nearly_whole(steps) {
            steps.whole_nearest()
        } else {
            steps.whole_below()
        };
        snapped(whole.product(increment), increment)
    }
}

/// `value` rounded up to a whole multiple of `increment`.
pub open spec fn rounded_up<S: Number>(value: S, increment: S) -> S {
    if increment.le(zero::<S>()) || !value.is_bounded() {
        value
    } else {
        let steps = value.quotient(increment);
        let whole = if nearly_whole(steps) {
            steps.whole_nearest()
        } else {
            steps.whole_above()
        };
        snapped(whole.product(increment), increment)
    }
}

/// `value` at the number of decimals that `increment` has.
pub open spec fn snapped<S: Number>(value: S, increment: S) -> S {
    let factor = power_of_ten::<S>(decimals_of(increment));
    value.product(factor).whole_nearest().quotient(factor)
}

pub open spec fn power_of_ten<S: Number>(exponent: nat) -> S
    decreases exponent,
{
    if exponent == 0 {
        S::of_ratio(1, 1)
    } else {
        power_of_ten::<S>((exponent - 1) as nat).product(S::of_ratio(10, 1))
    }
}

/// A text without the `c`s at its end.
pub open spec fn trimmed_end(text: Seq<char>, c: char) -> Seq<char>
    decreases text.len(),
{
    if text.len() > 0 && text.last() == c {
        trimmed_end(text.drop_last(), c)
    } else {
        text
    }
}

/// How many characters follow the first point of a text, zero where it has none.
pub open spec fn length_after_point(text: Seq<char>) -> nat {
    if text.contains('.') {
        (text.len() - text.index_of_first('.')->0 - 1) as nat
    } else {
        0
    }
}

/// Decimal places implied by an increment.
pub open spec fn decimals_of<S: Number>(increment: S) -> nat {
    if increment.le(zero::<S>()) {
        8
    } else {
        length_after_point(trimmed_end(increment.fixed(8), '0'))
    }
}

fn round_down_to_increment<S: Number>(value: S, increment: S) -> (r: S)
    ensures
        r == rounded_down(value, increment),
{
    if increment.at_most(S::ratio(0, 1)) || !value.is_finite() {
        return value;
    }
    let steps = value.over(increment);
    let whole = if steps.round().minus(steps).abs().below(S::ratio(1, 1_000_000_000)) {
        steps.round()
    } else {
        steps.floor()
    };
    snap(whole.times(increment), increment)
}

fn round_up_to_increment<S: Number>(value: S, increment: S) -> (r: S)
    ensures
        r == rounded_up(value, increment),
{
    if increment.at_most(S::ratio(0, 1)) || !value.is_finite() {
        return value;
    }
    let steps = value.over(increment);
    let whole = if steps.round().minus(steps).abs().below(S::ratio(1, 1_000_000_000)) {
        steps.round()
    } else {
        steps.ceil()
    };
    snap(whole.times(increment), increment)
}

/// Clears rounding dust, so the value prints exactly at the increment's
/// precision.
fn snap<S: Number>(value: S, increment: S) -> (r: S)
    ensures
        r == snapped(value, increment),
{
    let decimals: usize = decimals_for(increment);
    let mut factor = S::ratio(1, 1);
    let mut i: usize = 0;
    while i < decimals
        invariant
            i <= decimals,
            factor == power_of_ten::<S>(i as nat),
        decreases decimals - i,
    {
        factor = factor.times(S::ratio(10, 1));
        i = i + 1;
    }
    value.times(factor).round().over(factor)
}

/// Decimal places implied by an increment: `0.00001` has 5, `1` has none.
pub fn decimals_for<S: Number>(increment: S) -> (r: usize)
    ensures
        r == decimals_of(increment),
{
    if increment.at_most(S::ratio(0, 1)) {
        return 8;
    }
    let text = increment.to_fixed(8);
    let mut chars: Vec<char> = chars_of(text.as_str());
    trim_end(&mut chars, '0');
    let mut dot: usize = 0;
    while dot < chars.len()
        invariant
            dot <= chars@.len(),
            !increment.le(zero::<S>()),
            chars@ == trimmed_end(increment.fixed(8), '0'),
            forall|j: int| 0 <= j < dot ==> chars@[j] != '.',
        decreases chars@.len() - dot,
    {
        if chars[dot] == '.' {
            proof {
                assert(chars@.contains('.'));
                chars@.index_of_first_ensures('.');
                let first = chars@.index_of_first('.')->0;
                assert(first == dot);
            }
            return chars.len() - dot - 1;
        }
        dot = dot + 1;
    }
    0
}

/// Removes the `c`s at the end.
pub fn trim_end(chars: &mut Vec<char>, c: char)
    ensures
        final(chars)@ == trimmed_end(old(chars)@, c),
{
    while chars.len() > 0 && chars[chars.len() - 1] == c
        invariant
            trimmed_end(chars@, c) == trimmed_end(old(chars)@, c),
        decreases chars@.len(),
    {
        chars.pop();
    }
}

// ---------------------------------------------------------------------------
// Protective levels and averages
// ---------------------------------------------------------------------------

/// A resting sell order whose trigger is a stop.
pub open spec fn is_live_stop<S: Number>(order: OpenOrder<S>) -> bool {
    order.side == Side::Sell && order.kind.carries_stop() && zero::<S>().lt(order.stop_price)
}

/// A resting sell order that holds a target.
pub open spec fn is_live_target<S: Number>(order: OpenOrder<S>) -> bool {
    order.side == Side::Sell && order.kind.rests_at_target() && zero::<S>().lt(order.price)
}

/// The trigger of the last live stop, zero where there is none.
pub open spec fn last_stop<S: Number>(orders: Seq<OpenOrder<S>>) -> S
    decreases orders.len(),
{
    if orders.len() == 0 {
        zero::<S>()
    } else if is_live_stop(orders.last()) {
        orders.last().stop_price
    } else {
        last_stop(orders.drop_last())
    }
}

/// The price of the last live target, zero where there is none.
pub open spec fn last_target<S: Number>(orders: Seq<OpenOrder<S>>) -> S
    decreases orders.len(),
{
    if orders.len() == 0 {
        zero::<S>()
    } else if is_live_target(orders.last()) {
        orders.last().price
    } else {
        last_target(orders.drop_last())
    }
}

/// Extracts `(stop_loss, take_profit)` from a symbol's resting sell orders.
///
/// An OCO sell is two orders: one holding the target and one whose trigger is
/// the stop. A level that cannot be found is returned as zero, which
/// [`RiskManager::check_exits`](crate::risk::RiskManager::check_exits) treats as
/// unset.
pub fn protective_levels<S: Number>(orders: &[OpenOrder<S>]) -> (r: (S, S))
    ensures
        r == (last_stop(orders@), last_target(orders@)),
{
    let mut stop_loss = S::ratio(0, 1);
    let mut take_profit = S::ratio(0, 1);
    let mut i: usize = 0;
    while i < orders.len()
        invariant
            i <= orders@.len(),
            stop_loss == last_stop(orders@.take(i as int)),
            take_profit == last_target(orders@.take(i as int)),
        decreases orders@.len() - i,
    {
        let order = &orders[i];
        if order.side == Side::Sell {
            if order.kind.is_stop() && S::ratio(0, 1).below(order.stop_price) {
                stop_loss = order.stop_price;
            } else if order.kind.is_target() && S::ratio(0, 1).below(order.price) {
                take_profit = order.price;
            }
        }
        proof {
            assert(orders@.take(i + 1).drop_last() =~= orders@.take(i as int));
        }
        i = i + 1;
    }
    assert(orders@.take(i as int) =~= orders@);
    (stop_loss, take_profit)
}

/// What the fills cost, added up in order.
pub open spec fn total_cost<S: Number>(fills: Seq<Fill<S>>) -> S
    decreases fills.len(),
{
    if fills.len() == 0 {
        zero::<S>()
    } else {
        total_cost(fills.drop_last()).sum(fills.last().price.product(fills.last().quantity))
    }
}

/// What was filled, added up in order.
pub open spec fn total_quantity<S: Number>(fills: Seq<Fill<S>>) -> S
    decreases fills.len(),
{
    if fills.len() == 0 {
        zero::<S>()
    } else {
        total_quantity(fills.drop_last()).sum(fills.last().quantity)
    }
}

/// Volume-weighted average price, where anything was filled.
pub open spec fn average_of<S: Number>(fills: Seq<Fill<S>>) -> Option<S> {
    if zero::<S>().lt(total_quantity(fills)) {
        Some(total_cost(fills).quotient(total_quantity(fills)))
    } else {
        None
    }
}

/// Volume-weighted average price across `fills`.
pub fn weighted_average_price<S: Number>(fills: &[Fill<S>]) -> (r: Option<S>)
    ensures
        r == average_of(fills@),
{
    let mut cost = S::ratio(0, 1);
    let mut qty = S::ratio(0, 1);
    let mut i: usize = 0;
    while i < fills.len()
        invariant
            i <= fills@.len(),
            cost == total_cost(fills@.take(i as int)),
            qty == total_quantity(fills@.take(i as int)),
        decreases fills@.len() - i,
    {
        cost = cost.plus(fills[i].price.times(fills[i].quantity));
        qty = qty.plus(fills[i].quantity);
        proof {
            assert(fills@.take(i + 1).drop_last() =~= fills@.take(i as int));
        }
        i = i + 1;
    }
    assert(fills@.take(i as int) =~= fills@);
    if S::ratio(0, 1).below(qty) {
        Some(cost.over(qty))
    } else {
        None
    }
}

// ---------------------------------------------------------------------------
// Laws
// ---------------------------------------------------------------------------

/// An order is accepted exactly where it meets both minimums and the maximum.
pub proof fn law_accepted_orders_meet_every_filter<S: Number>(
    filters: SymbolFilters<S>,
    quantity: S,
    price: S,
)
    ensures
        filters.verdict(quantity, price) is Ok <==> {
            &&& !quantity.lt(filters.min_qty)
            &&& !quantity.le(zero::<S>())
            &&& !(zero::<S>().lt(filters.max_qty) && filters.max_qty.lt(quantity))
            &&& !quantity.product(price).lt(filters.min_notional)
        },
{
}

/// Buys and orders of an unknown kind say nothing of the protective levels:
/// without one, the levels found are the same.
pub proof fn law_other_orders_do_not_protect<S: Number>(orders: Seq<OpenOrder<S>>, i: int)
    requires
        0 <= i < orders.len(),
        orders[i].side == Side::Buy || orders[i].kind is Other || orders[i].kind is Market,
    ensures
        last_stop(orders.remove(i)) == last_stop(orders),
        last_target(orders.remove(i)) == last_target(orders),
    decreases orders.len(),
{
    let rest = orders.remove(i);
    if i == orders.len() - 1 {
        assert(rest =~= orders.drop_last());
    } else {
        assert(rest.last() == orders.last());
        assert(rest.drop_last() =~= orders.drop_last().remove(i));
        law_other_orders_do_not_protect(orders.drop_last(), i);
    }
}

/// A level that is found is that of some resting sell order of the right kind.
pub proof fn law_levels_come_from_live_orders<S: Number>(orders: Seq<OpenOrder<S>>)
    ensures
        last_stop(orders) == zero::<S>() || exists|i: int|
            0 <= i < orders.len() && is_live_stop(#[trigger] orders[i]) && orders[i].stop_price
                == last_stop(orders),
        last_target(orders) == zero::<S>() || exists|i: int|
            0 <= i < orders.len() && is_live_target(#[trigger] orders[i]) && orders[i].price
                == last_target(orders),
    decreases orders.len(),
{
    if orders.len() > 0 {
        let front = orders.drop_last();
        law_levels_come_from_live_orders(front);
        assert(orders.last() == orders[orders.len() - 1]);
        if !is_live_stop(orders.last()) && last_stop(orders) != zero::<S>() {
            let i = choose|i: int|
                0 <= i < front.len() && is_live_stop(#[trigger] front[i]) && front[i].stop_price
                    == last_stop(front);
            assert(orders[i] == front[i]);
        }
        if !is_live_target(orders.last()) && last_target(orders) != zero::<S>() {
            let i = choose|i: int|
                0 <= i < front.len() && is_live_target(#[trigger] front[i]) && front[i].price
                    == last_target(front);
            assert(orders[i] == front[i]);
        }
    }
}

/// What a rejected order is told: too little, too much or worth too little, with the
/// figure that was measured and the limit it was held against, the first that fails.
pub proof fn law_a_rejection_names_what_is_wrong<S: Number>(
    filters: SymbolFilters<S>,
    quantity: S,
    price: S,
)
    ensures
        ({
            let nothing = S::of_ratio(0, 1);
            let verdict = filters.verdict(quantity, price);
            let little = quantity.lt(filters.min_qty) || quantity.le(nothing);
            let much = nothing.lt(filters.max_qty) && filters.max_qty.lt(quantity);
            let cheap = quantity.product(price).lt(filters.min_notional);
            &&& verdict is Ok <==> !little && !much && !cheap
            &&& little ==> (verdict matches Err(OrderRejection::BelowMinQuantity {
                quantity: told,
                min_qty,
            }) && told == quantity && min_qty == filters.min_qty)
            &&& !little && much ==> (verdict matches Err(OrderRejection::AboveMaxQuantity {
                quantity: told,
                max_qty,
            }) && told == quantity && max_qty == filters.max_qty)
            &&& !little && !much && cheap ==> (verdict matches Err(
                OrderRejection::BelowMinNotional { notional, min_notional },
            ) && notional == quantity.product(price) && min_notional == filters.min_notional)
        }),
{
}

/// Only fees in the asset count, and each of them once.
pub proof fn law_fees_add_up<S: Number>(fills: Seq<Fill<S>>, fill: Fill<S>, asset: Seq<char>)
    ensures
        commission_total(Seq::<Fill<S>>::empty(), asset) == S::of_ratio(0, 1),
        fill.commission_asset@ == asset ==> commission_total(fills.push(fill), asset)
            == commission_total(fills, asset).sum(fill.commission),
        fill.commission_asset@ != asset ==> commission_total(fills.push(fill), asset)
            == commission_total(fills, asset),
{
    assert(fills.push(fill).drop_last() =~= fills);
}

/// An average price is what the fills cost over what was filled, each fill at its own
/// price and quantity, and there is none where nothing was filled.
pub proof fn law_the_average_weighs_by_quantity<S: Number>(
    fills: Seq<Fill<S>>,
    costs: Seq<S>,
    quantities: Seq<S>,
)
    requires
        costs.len() == fills.len(),
        quantities.len() == fills.len(),
        forall|i: int|
            0 <= i < fills.len() ==> #[trigger] costs[i] == fills[i].price.product(
                fills[i].quantity,
            ),
        forall|i: int| 0 <= i < fills.len() ==> #[trigger] quantities[i] == fills[i].quantity,
    ensures
        S::of_ratio(0, 1).lt(total(quantities)) ==> average_of(fills) == Some(
            total(costs).quotient(total(quantities)),
        ),
        !S::of_ratio(0, 1).lt(total(quantities)) ==> average_of(fills) is None,
{
    lemma_fill_totals(fills, costs, quantities);
}

proof fn lemma_fill_totals<S: Number>(fills: Seq<Fill<S>>, costs: Seq<S>, quantities: Seq<S>)
    requires
        costs.len() == fills.len(),
        quantities.len() == fills.len(),
        forall|i: int|
            0 <= i < fills.len() ==> #[trigger] costs[i] == fills[i].price.product(
                fills[i].quantity,
            ),
        forall|i: int| 0 <= i < fills.len() ==> #[trigger] quantities[i] == fills[i].quantity,
    ensures
        total_cost(fills) == total(costs),
        total_quantity(fills) == total(quantities),
    decreases fills.len(),
{
    if fills.len() > 0 {
        let n = fills.len() - 1;
        assert(costs[n] == fills[n].price.product(fills[n].quantity));
        assert(quantities[n] == fills[n].quantity);
        lemma_fill_totals(fills.drop_last(), costs.drop_last(), quantities.drop_last());
    }
}

/// The protective levels are those of the latest resting sells: the trigger of the last
/// order of a stop kind that has one, and the price of the last order of a target kind
/// that has one. Where there is no such order, the level is zero.
pub proof fn law_the_latest_order_protects<S: Number>(orders: Seq<OpenOrder<S>>, i: int)
    ensures
        0 <= i < orders.len() && stops_at(orders[i]) && (forall|k: int|
            i < k < orders.len() ==> !stops_at(#[trigger] orders[k])) ==> last_stop(orders)
            == orders[i].stop_price,
        0 <= i < orders.len() && aims_at(orders[i]) && (forall|k: int|
            i < k < orders.len() ==> !aims_at(#[trigger] orders[k])) ==> last_target(orders)
            == orders[i].price,
        (forall|k: int| 0 <= k < orders.len() ==> !stops_at(#[trigger] orders[k])) ==> last_stop(
            orders,
        ) == S::of_ratio(0, 1),
        (forall|k: int| 0 <= k < orders.len() ==> !aims_at(#[trigger] orders[k])) ==> last_target(
            orders,
        ) == S::of_ratio(0, 1),
    decreases orders.len(),
{
    if orders.len() > 0 {
        let front = orders.drop_last();
        let n = orders.len() - 1;
        law_the_latest_order_protects(front, i);
        assert(orders.last() == orders[n]);
        assert(is_live_stop(orders[n]) == stops_at(orders[n]));
        assert(is_live_target(orders[n]) == aims_at(orders[n]));
        assert(forall|k: int| 0 <= k < front.len() ==> front[k] == orders[k]);
        if !stops_at(orders[n]) {
            if 0 <= i < orders.len() && stops_at(orders[i]) && (forall|k: int|
                i < k < orders.len() ==> !stops_at(#[trigger] orders[k])) {
                assert forall|k: int| i < k < front.len() implies !stops_at(
                    #[trigger] front[k],
                ) by {
                    assert(front[k] == orders[k]);
                }
            }
            if forall|k: int| 0 <= k < orders.len() ==> !stops_at(#[trigger] orders[k]) {
                assert forall|k: int| 0 <= k < front.len() implies !stops_at(
                    #[trigger] front[k],
                ) by {
                    assert(front[k] == orders[k]);
                }
            }
        }
        if !aims_at(orders[n]) {
            if 0 <= i < orders.len() && aims_at(orders[i]) && (forall|k: int|
                i < k < orders.len() ==> !aims_at(#[trigger] orders[k])) {
                assert forall|k: int| i < k < front.len() implies !aims_at(
                    #[trigger] front[k],
                ) by {
                    assert(front[k] == orders[k]);
                }
            }
            if forall|k: int| 0 <= k < orders.len() ==> !aims_at(#[trigger] orders[k]) {
                assert forall|k: int| 0 <= k < front.len() implies !aims_at(
                    #[trigger] front[k],
                ) by {
                    assert(front[k] == orders[k]);
                }
            }
        }
    }
}

/// Whether an order sells at a trigger above zero.
pub open spec fn stops_at<S: Number>(order: OpenOrder<S>) -> bool {
    &&& order.side == Side::Sell
    &&& order.kind is StopLoss || order.kind is StopLossLimit
    &&& S::of_ratio(0, 1).lt(order.stop_price)
}

/// Whether an order rests to sell at a price above zero.
pub open spec fn aims_at<S: Number>(order: OpenOrder<S>) -> bool {
    &&& order.side == Side::Sell
    &&& order.kind is Limit || order.kind is LimitMaker || order.kind is TakeProfit
        || order.kind is TakeProfitLimit
    &&& S::of_ratio(0, 1).lt(order.price)
}

/// How a value comes onto its increments. A count of steps that is within a billionth of a
/// whole one is that one, down and up alike; any other goes to the whole one below or
/// above. The multiple is then cleared of what lies beyond the decimals of the increment.
/// Without an increment, or without a bound, a value stays as it is.
pub proof fn law_steps_are_counted_whole<S: Number>(value: S, increment: S)
    ensures
        ({
            let steps = value.quotient(increment);
            let nearest = steps.whole_nearest();
            let whole = nearest.difference(steps).magnitude().lt(
                S::of_ratio(1, 1_000_000_000),
            );
            let cleared = |multiple: S|
                {
                    let factor = power_of_ten::<S>(decimals_of(increment));
                    multiple.product(factor).whole_nearest().quotient(factor)
                };
            let stays = increment.le(S::of_ratio(0, 1)) || !value.is_bounded();
            &&& stays ==> rounded_down(value, increment) == value && rounded_up(value, increment)
                == value
            &&& !stays && whole ==> rounded_down(value, increment) == cleared(
                nearest.product(increment),
            ) && rounded_up(value, increment) == cleared(nearest.product(increment))
            &&& !stays && !whole ==> rounded_down(value, increment) == cleared(
                steps.whole_below().product(increment),
            ) && rounded_up(value, increment) == cleared(steps.whole_above().product(increment))
        }),
{
}

/// The decimals of an increment are those up to its last digit that is not a zero, of eight;
/// an increment that is not above zero has all eight. Ten is multiplied once for each.
pub proof fn law_decimals_of_an_increment<S: Number>(
    increment: S,
    whole: Seq<char>,
    kept: Seq<char>,
    zeros: nat,
    n: nat,
)
    requires
        !increment.le(S::of_ratio(0, 1)),
        increment.fixed(8) == whole + seq!['.'] + kept + Seq::new(zeros, |i: int| '0'),
        forall|i: int| 0 <= i < whole.len() ==> #[trigger] whole[i] != '.',
        kept.len() > 0 ==> kept.last() != '0',
    ensures
        decimals_of(increment) == kept.len(),
        power_of_ten::<S>(0) == S::of_ratio(1, 1),
        power_of_ten::<S>(n + 1) == power_of_ten::<S>(n).product(S::of_ratio(10, 1)),
{
    let front = whole + seq!['.'] + kept;
    lemma_zeros_come_off(front, zeros);
    assert(front.len() > 0);
    if kept.len() > 0 {
        assert(front.last() == kept.last());
    } else {
        assert(front.last() == '.');
    }
    assert(trimmed_end(increment.fixed(8), '0') == front);
    let p = whole.len() as int;
    assert(front[p] == '.');
    assert(front.contains('.'));
    front.index_of_first_ensures('.');
    let first = front.index_of_first('.')->0;
    if first < p {
        assert(whole[first] == front[first]);
    }
    assert(first == p);
}

proof fn lemma_zeros_come_off(front: Seq<char>, zeros: nat)
    ensures
        front.len() > 0 && front.last() != '0' ==> trimmed_end(
            front + Seq::new(zeros, |i: int| '0'),
            '0',
        ) == front,
    decreases zeros,
{
    let text = front + Seq::new(zeros, |i: int| '0');
    if zeros == 0 {
        assert(text =~= front);
    } else {
        lemma_zeros_come_off(front, (zeros - 1) as nat);
        assert(text.last() == '0');
        assert(text.drop_last() =~= front + Seq::new((zeros - 1) as nat, |i: int| '0'));
    }
}

/// What the venue calls the two sides, and which kinds of order hold a stop or a target.
pub proof fn law_wire_names(kind: OrderKind)
    ensures
        Side::Buy.wire_name() == "BUY"@,
        Side::Sell.wire_name() == "SELL"@,
        kind.carries_stop() <==> kind.wire_name() == "STOP_LOSS"@ && !(kind is Other)
            || kind.wire_name() == "STOP_LOSS_LIMIT"@ && !(kind is Other),
        kind.rests_at_target() <==> !(kind is Other) && (kind.wire_name() == "LIMIT"@
            || kind.wire_name() == "LIMIT_MAKER"@ || kind.wire_name() == "TAKE_PROFIT"@
            || kind.wire_name() == "TAKE_PROFIT_LIMIT"@),
{
    lemma_wire_names_differ();
}

/// What a rejection says.
pub proof fn law_rejections_in_words<S: Number>(a: S, b: S)
    ensures
        (OrderRejection::BelowMinQuantity { quantity: a, min_qty: b }).message() == "quantity "@
            + a.shortest() + " is below the venue minimum "@ + b.shortest(),
        (OrderRejection::AboveMaxQuantity { quantity: a, max_qty: b }).message() == "quantity "@
            + a.shortest() + " is above the venue maximum "@ + b.shortest(),
        (OrderRejection::BelowMinNotional { notional: a, min_notional: b }).message()
            == "order value "@ + a.fixed(2) + " is below the venue minimum "@ + b.fixed(2),
{
}

} // verus!
