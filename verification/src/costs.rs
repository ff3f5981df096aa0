//! Trading costs: exchange fees and market-order slippage.

use vstd::prelude::*;
use crate::amount::Amount;
use crate::config::Environment;
use crate::number::{zero, Lawful, Number};

verus! {

/// What a trade costs, each as a fraction.
#[derive(Debug, Clone, Copy, PartialEq)]
pub struct CostModel<S> {
    /// Fee on orders that take liquidity: market orders and triggered stops.
    pub taker_fee: S,
    /// Fee on orders that rest: the take-profit leg.
    pub maker_fee: S,
    /// Adverse price movement on a market order.
    pub slippage: S,
}

/// A number of basis points as a fraction.
pub open spec fn bps<S: Number>(points: S) -> S {
    points.product(S::of_ratio(1, 10_000))
}

/// The standard tier: 0.1% maker and taker, and five basis points of slippage.
pub open spec fn standard_costs<S: Number>() -> CostModel<S> {
    CostModel {
        taker_fee: bps(S::of_ratio(10, 1)),
        maker_fee: bps(S::of_ratio(10, 1)),
        slippage: bps(S::of_ratio(5, 1)),
    }
}

pub open spec fn no_costs<S: Number>() -> CostModel<S> {
    CostModel { taker_fee: zero::<S>(), maker_fee: zero::<S>(), slippage: zero::<S>() }
}

/// The basis points that `key` is set to, or `fallback`, as a fraction.
pub open spec fn bps_setting<S: Number>(env: Environment, key: Seq<char>, fallback: S) -> S {
    bps(
        match env.number::<S>(key) {
            Some(points) => points,
            None => fallback,
        },
    )
}

fn read_bps<S: Number>(env: &Environment, key: &str, fallback: S) -> (r: S)
    ensures
        r == bps_setting(*env, key@, fallback),
{
    let points = match env.get_number::<S>(key) {
        Some(points) => points,
        None => fallback,
    };
    points.times(S::ratio(1, 10_000))
}

impl<S: Number> Default for CostModel<S> {
    fn default() -> (r: Self)
        ensures
            r == standard_costs::<S>(),
    {
        CostModel {
            taker_fee: S::ratio(10, 1).times(S::ratio(1, 10_000)),
            maker_fee: S::ratio(10, 1).times(S::ratio(1, 10_000)),
            slippage: S::ratio(5, 1).times(S::ratio(1, 10_000)),
        }
    }
}

impl<S: Number> CostModel<S> {
    pub fn from_env(env: &Environment) -> (r: Self)
        ensures
            r == (CostModel {
                taker_fee: bps_setting(*env, "TAKER_FEE_BPS"@, S::of_ratio(10, 1)),
                maker_fee: bps_setting(*env, "MAKER_FEE_BPS"@, S::of_ratio(10, 1)),
                slippage: bps_setting(*env, "SLIPPAGE_BPS"@, S::of_ratio(5, 1)),
            }),
    {
        CostModel {
            taker_fee: read_bps(env, "TAKER_FEE_BPS", S::ratio(10, 1)),
            maker_fee: read_bps(env, "MAKER_FEE_BPS", S::ratio(10, 1)),
            slippage: read_bps(env, "SLIPPAGE_BPS", S::ratio(5, 1)),
        }
    }

    /// Zero costs, for telling what the strategy found from what execution took.
    pub fn frictionless() -> (r: Self)
        ensures
            r == no_costs::<S>(),
    {
        CostModel { taker_fee: S::ratio(0, 1), maker_fee: S::ratio(0, 1), slippage: S::ratio(0, 1) }
    }

    pub open spec fn bought_at(self, price: S) -> S {
        price.product(S::of_ratio(1, 1).sum(self.slippage))
    }

    pub open spec fn sold_at(self, price: S) -> S {
        price.product(S::of_ratio(1, 1).difference(self.slippage))
    }

    pub open spec fn taker_charge(self, notional: S) -> S {
        notional.magnitude().product(self.taker_fee)
    }

    pub open spec fn maker_charge(self, notional: S) -> S {
        notional.magnitude().product(self.maker_fee)
    }

    /// Price actually paid by a market BUY quoted at `price`.
    pub fn buy_fill(&self, price: S) -> (r: S)
        ensures
            r == self.bought_at(price),
    {
        price.times(S::ratio(1, 1).plus(self.slippage))
    }

    /// Price actually received by a market SELL quoted at `price`.
    ///
    /// Also the model for a triggered stop: it becomes a marketable order and
    /// crosses the book.
    pub fn sell_fill(&self, price: S) -> (r: S)
        ensures
            r == self.sold_at(price),
    {
        price.times(S::ratio(1, 1).minus(self.slippage))
    }

    /// A resting take-profit fills at its limit price: it is only touched when
    /// the market comes to it.
    pub fn limit_fill(&self, price: S) -> (r: S)
        ensures
            r == price,
    {
        price
    }

    pub fn taker_cost(&self, notional: S) -> (r: S)
        ensures
            r == self.taker_charge(notional),
    {
        notional.abs().times(self.taker_fee)
    }

    pub fn maker_cost(&self, notional: S) -> (r: S)
        ensures
            r == self.maker_charge(notional),
    {
        notional.abs().times(self.maker_fee)
    }
}

/// Slippage always moves against the trader: a buy never pays less than the
/// quote, a sell never receives more.
pub proof fn law_slippage_is_adverse<S: Lawful>(model: CostModel<S>, price: S)
    requires
        zero::<S>().le(model.slippage),
        zero::<S>().le(price),
    ensures
        model.bought_at(price).is_undefined() || price.le(model.bought_at(price)),
        model.sold_at(price).is_undefined() || model.sold_at(price).le(price),
{
    let one = S::of_ratio(1, 1);
    let up = one.sum(model.slippage);
    let down = one.difference(model.slippage);
    if !model.bought_at(price).is_undefined() {
        if up.is_undefined() {
            S::law_absorbs(price, up);
        }
        S::law_gain(one, model.slippage);
        S::law_scaling(price, up);
    }
    if !model.sold_at(price).is_undefined() {
        if down.is_undefined() {
            S::law_absorbs(price, down);
        }
        S::law_loss(one, model.slippage);
        S::law_scaling(price, down);
    }
}

/// A fee is never negative, whatever the sign of the notional.
pub proof fn law_fees_are_never_negative<S: Lawful>(model: CostModel<S>, notional: S)
    requires
        zero::<S>().le(model.taker_fee),
        zero::<S>().le(model.maker_fee),
    ensures
        model.taker_charge(notional).is_undefined() || zero::<S>().le(model.taker_charge(notional)),
        model.maker_charge(notional).is_undefined() || zero::<S>().le(model.maker_charge(notional)),
{
    let size = notional.magnitude();
    if size.is_undefined() {
        S::law_absorbs(size, model.taker_fee);
        S::law_absorbs(size, model.maker_fee);
    } else {
        S::law_magnitude(notional);
        if !model.taker_charge(notional).is_undefined() {
            S::law_product(size, model.taker_fee);
        }
        if !model.maker_charge(notional).is_undefined() {
            S::law_product(size, model.maker_fee);
        }
    }
}

/// Without friction, exact amounts trade at the quote and free of charge.
pub proof fn law_frictionless_is_free(price: i64)
    ensures
        no_costs::<Amount>().bought_at(Amount::Units(price)) == Amount::Units(price),
        no_costs::<Amount>().sold_at(Amount::Units(price)) == Amount::Units(price),
        price > i64::MIN ==> no_costs::<Amount>().taker_charge(Amount::Units(price))
            == Amount::Units(0),
        price > i64::MIN ==> no_costs::<Amount>().maker_charge(Amount::Units(price))
            == Amount::Units(0),
{
    let scale = crate::amount::SCALE as int;
    assert((price * scale) / scale == price) by (nonlinear_arith)
        requires
            scale == 100_000_000,
    ;
    let size = if price < 0 {
        -price
    } else {
        price as int
    };
    assert(size * 0 == 0) by (nonlinear_arith);
}

/// What a trade costs. A market buy pays the quote and the slippage on it, a market sell
/// receives the quote less the slippage; a fee is its own rate on the size of the trade,
/// whichever way it goes.
pub proof fn law_costs_are_shares_of_the_trade<S: Number>(model: CostModel<S>, price: S)
    ensures
        model.bought_at(price) == price.product(S::of_ratio(1, 1).sum(model.slippage)),
        model.sold_at(price) == price.product(S::of_ratio(1, 1).difference(model.slippage)),
        model.taker_charge(price) == price.magnitude().product(model.taker_fee),
        model.maker_charge(price) == price.magnitude().product(model.maker_fee),
{
}

/// On exact amounts a round trip at one quote loses the slippage twice: what is bought is
/// dearer than what is sold by two slippages of the quote, but for a unit.
pub proof fn law_a_round_trip_pays_slippage_twice(model: CostModel<Amount>, price: i64)
    requires
        0 <= price,
        model.slippage is Units,
        0 <= model.slippage->0 <= 100_000_000,
        model.bought_at(Amount::Units(price)) is Units,
    ensures
        ({
            let bought = model.bought_at(Amount::Units(price));
            let sold = model.sold_at(Amount::Units(price));
            let apart = bought->0 - sold->0;
            let slipped = 2 * price * model.slippage->0;
            &&& sold is Units
            &&& slipped - 100_000_000 < apart * 100_000_000 < slipped + 100_000_000
        }),
{
    let s = crate::amount::SCALE as int;
    let p = price as int;
    let x = model.slippage->0 as int;
    let up = (p * (s + x)) / s;
    let down = (p * (s - x)) / s;
    assert(0 <= down <= p) by (nonlinear_arith)
        requires
            down == (p * (s - x)) / s,
            0 <= x <= s,
            p >= 0,
            s == 100_000_000,
    ;
    assert(p * (s + x) - s < up * s <= p * (s + x)) by (nonlinear_arith)
        requires
            up == (p * (s + x)) / s,
            s == 100_000_000,
    ;
    assert(p * (s - x) - s < down * s <= p * (s - x)) by (nonlinear_arith)
        requires
            down == (p * (s - x)) / s,
            s == 100_000_000,
    ;
    assert(p * (s + x) - p * (s - x) == 2 * p * x) by (nonlinear_arith);
}

/// A standard account pays ten basis points either way and slips by five.
pub proof fn law_standard_costs<S: Number>()
    ensures
        standard_costs::<S>().taker_fee == S::of_ratio(10, 1).product(S::of_ratio(1, 10_000)),
        standard_costs::<S>().maker_fee == S::of_ratio(10, 1).product(S::of_ratio(1, 10_000)),
        standard_costs::<S>().slippage == S::of_ratio(5, 1).product(S::of_ratio(1, 10_000)),
        no_costs::<S>().taker_fee == S::of_ratio(0, 1),
        no_costs::<S>().maker_fee == S::of_ratio(0, 1),
        no_costs::<S>().slippage == S::of_ratio(0, 1),
{
}

/// A rate that the environment sets is read in basis points, and one that it does not set
/// is the fallback, in basis points too.
pub proof fn law_rates_are_read_in_basis_points<S: Number>(
    env: Environment,
    key: Seq<char>,
    fallback: S,
)
    ensures
        env.value(key) is None ==> bps_setting(env, key, fallback) == fallback.product(
            S::of_ratio(1, 10_000),
        ),
        (env.value(key) matches Some(text) && S::reading(text) is Some) ==> bps_setting(
            env,
            key,
            fallback,
        ) == S::reading(env.value(key)->0)->0.product(S::of_ratio(1, 10_000)),
        (env.value(key) matches Some(text) && S::reading(text) is None) ==> bps_setting(
            env,
            key,
            fallback,
        ) == fallback.product(S::of_ratio(1, 10_000)),
{
}

} // verus!
