//! Position sizing, exposure limits and the daily drawdown halt.

use vstd::prelude::*;
use crate::amount::{Amount, SCALE};
use crate::clock::utc_day_number;
use crate::number::{
    law_larger_and_smaller, lemma_zero, smaller, smaller_of, zero, Lawful, Number,
};
use crate::text::same_text;

verus! {

/// How many positions may be open at once, unless set otherwise.
pub const DEFAULT_MAX_OPEN_POSITIONS: usize = 4;

/// 1.5% of the portfolio is risked per trade, unless set otherwise.
pub open spec fn default_risk_per_trade<S: Number>() -> S {
    S::of_ratio(15, 1000)
}

/// A loss of 5% of the day's opening equity halts trading, unless set otherwise.
pub open spec fn default_daily_drawdown<S: Number>() -> S {
    S::of_ratio(5, 100)
}

/// The limits a risk manager enforces.
#[derive(Debug, Clone, Copy, PartialEq)]
pub struct RiskLimits<S> {
    /// Fraction of equity risked per trade.
    pub risk_per_trade: S,
    pub max_open_positions: usize,
    /// Fraction of the day's opening equity whose loss halts trading.
    pub daily_drawdown: S,
}

impl<S: Number> Default for RiskLimits<S> {
    fn default() -> (r: Self)
        ensures
            r == default_limits::<S>(),
    {
        RiskLimits {
            risk_per_trade: S::ratio(15, 1000),
            max_open_positions: DEFAULT_MAX_OPEN_POSITIONS,
            daily_drawdown: S::ratio(5, 100),
        }
    }
}

/// An open position.
#[derive(Debug, PartialEq)]
pub struct Position<S> {
    pub symbol: String,
    pub entry_price: S,
    pub quantity: S,
    /// Zero where unset.
    pub stop_loss: S,
    /// Zero where unset: a trailing stop has no target.
    pub take_profit: S,
    /// Epoch milliseconds. Zero where unknown.
    pub entry_time: u64,
    /// Whether the venue has confirmed a protective order.
    pub protected: bool,
    /// Highest price seen since entry.
    pub highest_high: S,
    /// ATR at entry, which sizes the trailing stop. Zero where there is none.
    pub atr_at_entry: S,
}

impl<S: Number> Clone for Position<S> {
    fn clone(&self) -> (r: Self)
        ensures
            r == *self,
    {
        Position {
            symbol: self.symbol.clone(),
            entry_price: self.entry_price,
            quantity: self.quantity,
            stop_loss: self.stop_loss,
            take_profit: self.take_profit,
            entry_time: self.entry_time,
            protected: self.protected,
            highest_high: self.highest_high,
            atr_at_entry: self.atr_at_entry,
        }
    }
}

impl<S: Number> Position<S> {
    /// Whether `price` has reached the stop or the target. A level of zero is
    /// unset and never reached.
    pub open spec fn breached(self, price: S) -> bool {
        ||| zero::<S>().lt(self.stop_loss) && price.le(self.stop_loss)
        ||| zero::<S>().lt(self.take_profit) && self.take_profit.le(price)
    }

    fn is_breached(&self, price: S) -> (r: bool)
        ensures
            r == self.breached(price),
    {
        (S::ratio(0, 1).below(self.stop_loss) && price.at_most(self.stop_loss)) || (S::ratio(
            0,
            1,
        ).below(self.take_profit) && self.take_profit.at_most(price))
    }
}

/// Tracks open positions and enforces the limits.
#[derive(Debug)]
pub struct RiskManager<S> {
    pub positions: Vec<Position<S>>,
    pub day_open_balance: S,
    /// Days since the epoch, in UTC.
    pub current_utc_day: u32,
    pub halted: bool,
    pub limits: RiskLimits<S>,
}

/// What a risk manager holds.
#[verifier::ext_equal]
pub struct RiskState<S> {
    pub positions: Seq<Position<S>>,
    pub day_open_balance: S,
    pub current_utc_day: u32,
    pub halted: bool,
    pub limits: RiskLimits<S>,
}

/// The index of the first position in `symbol` from `from` on.
pub open spec fn index_from<S>(positions: Seq<Position<S>>, symbol: Seq<char>, from: int) -> Option<
    int,
>
    decreases positions.len() - from,
{
    if from < 0 || from >= positions.len() {
        None
    } else if positions[from].symbol@ == symbol {
        Some(from)
    } else {
        index_from(positions, symbol, from + 1)
    }
}

/// The index of the first position in `symbol`.
pub open spec fn index_of<S>(positions: Seq<Position<S>>, symbol: Seq<char>) -> Option<int> {
    index_from(positions, symbol, 0)
}

/// The index of the first position in `symbol` whose level `price` has reached.
pub open spec fn exit_from<S: Number>(
    positions: Seq<Position<S>>,
    symbol: Seq<char>,
    price: S,
    from: int,
) -> Option<int>
    decreases positions.len() - from,
{
    if from < 0 || from >= positions.len() {
        None
    } else if positions[from].symbol@ == symbol && positions[from].breached(price) {
        Some(from)
    } else {
        exit_from(positions, symbol, price, from + 1)
    }
}

impl<S: Number> RiskState<S> {
    pub open spec fn holds(self, symbol: Seq<char>) -> bool {
        index_of(self.positions, symbol) is Some
    }

    pub open spec fn may_open(self) -> bool {
        !self.halted && self.positions.len() < self.limits.max_open_positions
    }

    pub open spec fn with_opened(self, position: Position<S>) -> RiskState<S> {
        RiskState { positions: self.positions.push(position), ..self }
    }

    /// Without the first position in `symbol`.
    pub open spec fn with_closed(self, symbol: Seq<char>) -> RiskState<S> {
        match index_of(self.positions, symbol) {
            Some(i) => RiskState { positions: self.positions.remove(i), ..self },
            None => self,
        }
    }

    /// With the first position in `symbol` replaced.
    pub open spec fn with_updated(self, symbol: Seq<char>, position: Position<S>) -> RiskState<S> {
        match index_of(self.positions, symbol) {
            Some(i) => RiskState { positions: self.positions.update(i, position), ..self },
            None => self,
        }
    }

    /// On day `today`: a new day starts from the current balance, without a halt.
    pub open spec fn on_day(self, today: u32, balance: S) -> RiskState<S> {
        if today != self.current_utc_day {
            RiskState {
                day_open_balance: balance,
                current_utc_day: today,
                halted: false,
                ..self
            }
        } else {
            self
        }
    }

    /// The fraction of the day's opening balance that is lost.
    pub open spec fn drawdown(self, balance: S) -> S {
        self.day_open_balance.difference(balance).quotient(self.day_open_balance)
    }

    /// Whether more than the limit is lost.
    pub open spec fn limit_broken(self, balance: S) -> bool {
        !self.day_open_balance.le(zero::<S>()) && self.limits.daily_drawdown.lt(
            self.drawdown(balance),
        )
    }

    pub open spec fn after_drawdown_check(self, balance: S) -> RiskState<S> {
        RiskState { halted: self.halted || self.limit_broken(balance), ..self }
    }

    /// No two positions are in the same symbol.
    pub open spec fn one_per_symbol(self) -> bool {
        forall|i: int, j: int|
            0 <= i < j < self.positions.len() ==> (#[trigger] self.positions[i]).symbol@ != (
            #[trigger] self.positions[j]).symbol@
    }
}

/// The quantity whose loss down to the stop is the risked fraction of equity, and
/// the stop distance; zeros where the stop is not below the entry.
pub open spec fn sized<S: Number>(equity: S, risk_per_trade: S, entry: S, stop: S) -> (S, S) {
    let distance = entry.difference(stop);
    if distance.le(zero::<S>()) {
        (zero::<S>(), zero::<S>())
    } else {
        (equity.product(risk_per_trade).quotient(distance), distance)
    }
}

/// The quantity that 95% of the free cash buys.
pub open spec fn affordable<S: Number>(free: S, entry: S) -> S {
    free.product(S::of_ratio(95, 100)).quotient(entry)
}

/// As `sized`, with the quantity capped at what 95% of the free cash buys.
pub open spec fn sized_within<S: Number>(
    equity: S,
    free: S,
    risk_per_trade: S,
    entry: S,
    stop: S,
) -> (S, S) {
    let (quantity, distance) = sized(equity, risk_per_trade, entry, stop);
    if entry.difference(stop).le(zero::<S>()) {
        (quantity, distance)
    } else {
        (smaller_of(quantity, affordable(free, entry)), distance)
    }
}

// ---------------------------------------------------------------------------
// The manager
// ---------------------------------------------------------------------------

impl<S: Number> View for RiskManager<S> {
    type V = RiskState<S>;

    open spec fn view(&self) -> RiskState<S> {
        RiskState {
            positions: self.positions@,
            day_open_balance: self.day_open_balance,
            current_utc_day: self.current_utc_day,
            halted: self.halted,
            limits: self.limits,
        }
    }
}

/// A manager without positions at the start of `today`.
pub open spec fn fresh_state<S: Number>(balance: S, limits: RiskLimits<S>, today: u32) -> RiskState<
    S,
> {
    RiskState {
        positions: Seq::empty(),
        day_open_balance: balance,
        current_utc_day: today,
        halted: false,
        limits,
    }
}

pub open spec fn default_limits<S: Number>() -> RiskLimits<S> {
    RiskLimits {
        risk_per_trade: default_risk_per_trade::<S>(),
        max_open_positions: DEFAULT_MAX_OPEN_POSITIONS,
        daily_drawdown: default_daily_drawdown::<S>(),
    }
}

impl<S: Number> RiskManager<S> {
    /// A manager with the default limits, starting today.
    pub fn new(starting_balance: S) -> (r: Self)
        ensures
            r@ == fresh_state(starting_balance, default_limits::<S>(), r.current_utc_day),
    {
        Self::with_limits(starting_balance, RiskLimits::default())
    }

    /// A manager that risks `risk_per_trade` of equity and has the default limits
    /// otherwise, starting today.
    pub fn with_risk_per_trade(starting_balance: S, risk_per_trade: S) -> (r: Self)
        ensures
            r@ == fresh_state(
                starting_balance,
                RiskLimits { risk_per_trade, ..default_limits::<S>() },
                r.current_utc_day,
            ),
    {
        let defaults = RiskLimits::<S>::default();
        let limits = RiskLimits {
            risk_per_trade,
            max_open_positions: defaults.max_open_positions,
            daily_drawdown: defaults.daily_drawdown,
        };
        Self::with_limits(starting_balance, limits)
    }

    /// A manager with the given limits, starting today.
    pub fn with_limits(starting_balance: S, limits: RiskLimits<S>) -> (r: Self)
        ensures
            r@ == fresh_state(starting_balance, limits, r.current_utc_day),
    {
        Self::starting_on(starting_balance, limits, utc_day_number())
    }

    /// A manager with the given limits, starting on day `today`.
    pub fn starting_on(starting_balance: S, limits: RiskLimits<S>, today: u32) -> (r: Self)
        ensures
            r@ == fresh_state(starting_balance, limits, today),
    {
        let r = RiskManager {
            positions: Vec::new(),
            day_open_balance: starting_balance,
            current_utc_day: today,
            halted: false,
            limits,
        };
        assert(r@ =~= fresh_state(starting_balance, limits, today));
        r
    }

    /// Resets the daily state where a new UTC day has begun, by the system's
    /// clock.
    pub fn check_day_reset(&mut self, current_balance: S)
        ensures
            exists|today: u32| final(self)@ == #[trigger] old(self)@.on_day(today, current_balance),
    {
        let today: u32 = utc_day_number();
        self.start_day(today, current_balance);
    }

    /// Resets the daily state where `today` is not the day on record.
    pub fn start_day(&mut self, today: u32, current_balance: S)
        ensures
            final(self)@ == old(self)@.on_day(today, current_balance),
    {
        if today != self.current_utc_day {
            self.day_open_balance = current_balance;
            self.current_utc_day = today;
            self.halted = false;
        }
        assert(self@ =~= old(self)@.on_day(today, current_balance));
    }

    /// Whether the daily drawdown limit has been broken. Sets `halted` where it
    /// has.
    pub fn check_drawdown(&mut self, current_balance: S) -> (r: bool)
        ensures
            r == old(self)@.limit_broken(current_balance),
            final(self)@ == old(self)@.after_drawdown_check(current_balance),
    {
        if self.day_open_balance.at_most(S::ratio(0, 1)) {
            assert(self@ =~= old(self)@.after_drawdown_check(current_balance));
            return false;
        }
        let drawdown = self.day_open_balance.minus(current_balance).over(self.day_open_balance);
        if self.limits.daily_drawdown.below(drawdown) {
            self.halted = true;
            assert(self@ =~= old(self)@.after_drawdown_check(current_balance));
            return true;
        }
        assert(self@ =~= old(self)@.after_drawdown_check(current_balance));
        false
    }

    /// The loss since the day opened, in percent. Zero without an opening
    /// balance.
    pub fn drawdown_pct(&self, current_balance: S) -> (r: S)
        ensures
            r == if self.day_open_balance.le(zero::<S>()) {
                zero::<S>()
            } else {
                self@.drawdown(current_balance).product(S::of_ratio(100, 1))
            },
    {
        if self.day_open_balance.at_most(S::ratio(0, 1)) {
            S::ratio(0, 1)
        } else {
            self.day_open_balance.minus(current_balance).over(self.day_open_balance).times(
                S::ratio(100, 1),
            )
        }
    }

    /// Whether a new position is allowed right now.
    pub fn can_open_position(&self) -> (r: bool)
        ensures
            r == self@.may_open(),
    {
        !self.halted && self.positions.len() < self.limits.max_open_positions
    }

    /// The index of the first position in `symbol`.
    pub fn position_of(&self, symbol: &str) -> (r: Option<usize>)
        ensures
            match r {
                Some(i) => index_of(self.positions@, symbol@) == Some(i as int) && i
                    < self.positions@.len() && self.positions@[i as int].symbol@ == symbol@,
                None => index_of(self.positions@, symbol@) is None,
            },
    {
        let mut i: usize = 0;
        while i < self.positions.len()
            invariant
                i <= self.positions@.len(),
                index_of(self.positions@, symbol@) == index_from(
                    self.positions@,
                    symbol@,
                    i as int,
                ),
            decreases self.positions@.len() - i,
        {
            if same_text(self.positions[i].symbol.as_str(), symbol) {
                return Some(i);
            }
            i = i + 1;
        }
        None
    }

    /// Whether a position in `symbol` is held.
    pub fn has_position(&self, symbol: &str) -> (r: bool)
        ensures
            r == self@.holds(symbol@),
    {
        self.position_of(symbol).is_some()
    }

    /// The position size in base-asset units, as `(quantity, stop_distance)`, for a
    /// `balance` that is all free cash: risked against it, and capped at what 95% of
    /// it buys.
    pub fn calculate_position_size(&self, balance: S, entry_price: S, stop_loss: S) -> (r: (S, S))
        ensures
            r == sized_within(
                balance,
                balance,
                self.limits.risk_per_trade,
                entry_price,
                stop_loss,
            ),
    {
        capped_size(balance, balance, self.limits.risk_per_trade, entry_price, stop_loss)
    }

    /// The position size, risked against `equity` and capped at what 95% of
    /// `free_quote` buys, as `(quantity, stop_distance)`.
    pub fn calculate_capped_size(
        &self,
        equity: S,
        free_quote: S,
        entry_price: S,
        stop_loss: S,
    ) -> (r: (S, S))
        ensures
            r == sized_within(
                equity,
                free_quote,
                self.limits.risk_per_trade,
                entry_price,
                stop_loss,
            ),
    {
        capped_size(equity, free_quote, self.limits.risk_per_trade, entry_price, stop_loss)
    }

    /// Records a newly opened position.
    pub fn open_position(&mut self, pos: Position<S>)
        ensures
            final(self)@ == old(self)@.with_opened(pos),
    {
        self.positions.push(pos);
        assert(self@ =~= old(self)@.with_opened(pos));
    }

    /// Removes and returns the position in `symbol`, if any.
    pub fn close_position(&mut self, symbol: &str) -> (r: Option<Position<S>>)
        ensures
            final(self)@ == old(self)@.with_closed(symbol@),
            match r {
                Some(pos) => index_of(old(self)@.positions, symbol@) matches Some(i) && pos == old(
                    self,
                )@.positions[i],
                None => !old(self)@.holds(symbol@),
            },
    {
        match self.position_of(symbol) {
            Some(i) => {
                let pos = self.positions.remove(i);
                assert(self@ =~= old(self)@.with_closed(symbol@));
                Some(pos)
            },
            None => None,
        }
    }

    /// The position in `symbol` that should be exited because the current price
    /// has reached its stop or its target.
    pub fn check_exits(&self, symbol: &str, current_price: S) -> (r: Option<&Position<S>>)
        ensures
            match r {
                Some(pos) => exit_from(self.positions@, symbol@, current_price, 0) matches Some(i)
                    && *pos == self.positions@[i],
                None => exit_from(self.positions@, symbol@, current_price, 0) is None,
            },
    {
        let mut i: usize = 0;
        while i < self.positions.len()
            invariant
                i <= self.positions@.len(),
                exit_from(self.positions@, symbol@, current_price, 0) == exit_from(
                    self.positions@,
                    symbol@,
                    current_price,
                    i as int,
                ),
            decreases self.positions@.len() - i,
        {
            if same_text(self.positions[i].symbol.as_str(), symbol)
                && self.positions[i].is_breached(current_price) {
                return Some(&self.positions[i]);
            }
            i = i + 1;
        }
        None
    }
}

/// The position size that risks `risk_per_trade` of `equity`, capped at what 95%
/// of `free_quote` buys.
pub fn capped_size<S: Number>(
    equity: S,
    free_quote: S,
    risk_per_trade: S,
    entry_price: S,
    stop_loss: S,
) -> (r: (S, S))
    ensures
        r == sized_within(equity, free_quote, risk_per_trade, entry_price, stop_loss),
{
    let stop_distance = entry_price.minus(stop_loss);
    if stop_distance.at_most(S::ratio(0, 1)) {
        return (S::ratio(0, 1), S::ratio(0, 1));
    }
    let wanted = equity.times(risk_per_trade).over(stop_distance);
    let most = free_quote.times(S::ratio(95, 100)).over(entry_price);
    (smaller(wanted, most), stop_distance)
}

// ---------------------------------------------------------------------------
// Laws
// ---------------------------------------------------------------------------

/// The first position in a symbol is one in it, with none before it.
pub proof fn lemma_index_from<S>(positions: Seq<Position<S>>, symbol: Seq<char>, from: int)
    requires
        0 <= from,
    ensures
        match index_from(positions, symbol, from) {
            Some(i) => from <= i < positions.len() && positions[i].symbol@ == symbol && forall|j: int|
                from <= j < i ==> (#[trigger] positions[j]).symbol@ != symbol,
            None => forall|j: int|
                from <= j < positions.len() ==> (#[trigger] positions[j]).symbol@ != symbol,
        },
    decreases positions.len() - from,
{
    if from < positions.len() && positions[from].symbol@ != symbol {
        lemma_index_from(positions, symbol, from + 1);
    }
}

/// A symbol is held exactly where some position is in it.
pub proof fn law_held_symbols<S: Number>(state: RiskState<S>, symbol: Seq<char>)
    ensures
        state.holds(symbol) <==> exists|i: int|
            0 <= i < state.positions.len() && (#[trigger] state.positions[i]).symbol@ == symbol,
{
    lemma_index_from(state.positions, symbol, 0);
}

/// Opening a position where there is room and none is held in its symbol keeps
/// both limits: no more positions than allowed, and one per symbol.
pub proof fn law_opening_keeps_the_limits<S: Number>(state: RiskState<S>, position: Position<S>)
    requires
        state.may_open(),
        !state.holds(position.symbol@),
        state.one_per_symbol(),
    ensures
        state.with_opened(position).positions.len() <= state.limits.max_open_positions,
        state.with_opened(position).one_per_symbol(),
        state.with_opened(position).holds(position.symbol@),
{
    lemma_index_from(state.positions, position.symbol@, 0);
    let after = state.with_opened(position);
    lemma_index_from(after.positions, position.symbol@, 0);
    assert(after.positions[state.positions.len() as int] == position);
}

/// A closed symbol is no longer held, every other symbol is held as before, and
/// no position is invented.
pub proof fn law_closing<S: Number>(state: RiskState<S>, symbol: Seq<char>, other: Seq<char>)
    requires
        state.one_per_symbol(),
    ensures
        !state.with_closed(symbol).holds(symbol),
        other != symbol ==> state.with_closed(symbol).holds(other) == state.holds(other),
        state.with_closed(symbol).one_per_symbol(),
        state.with_closed(symbol).positions.len() == state.positions.len() - (if state.holds(
            symbol,
        ) {
            1int
        } else {
            0
        }),
{
    let after = state.with_closed(symbol);
    lemma_index_from(state.positions, symbol, 0);
    lemma_index_from(state.positions, other, 0);
    lemma_index_from(after.positions, symbol, 0);
    lemma_index_from(after.positions, other, 0);
    if let Some(k) = index_of(state.positions, symbol) {
        assert forall|j: int| 0 <= j < after.positions.len() implies (
        #[trigger] after.positions[j]).symbol@ != symbol by {
            if j < k {
                assert(after.positions[j] == state.positions[j]);
            } else {
                assert(after.positions[j] == state.positions[j + 1]);
            }
        }
        if let Some(i) = index_of(state.positions, other) {
            if other != symbol {
                if i < k {
                    assert(after.positions[i] == state.positions[i]);
                } else {
                    assert(after.positions[i - 1] == state.positions[i]);
                }
            }
        }
        if let Some(i) = index_of(after.positions, other) {
            if i < k {
                assert(after.positions[i] == state.positions[i]);
            } else {
                assert(after.positions[i] == state.positions[i + 1]);
            }
        }
    }
}

/// What was just opened in a symbol not yet held is what closing it undoes.
pub proof fn law_closing_undoes_opening<S: Number>(state: RiskState<S>, position: Position<S>)
    requires
        !state.holds(position.symbol@),
    ensures
        state.with_opened(position).with_closed(position.symbol@) == state,
{
    lemma_index_from(state.positions, position.symbol@, 0);
    let opened = state.with_opened(position);
    lemma_index_from(opened.positions, position.symbol@, 0);
    assert(opened.positions[state.positions.len() as int] == position);
    assert(opened.positions.remove(state.positions.len() as int) =~= state.positions);
}

/// A halt lasts for the rest of the day: nothing may be opened while it stands,
/// further drawdown checks keep it, and only a new day lifts it.
pub proof fn law_a_halt_lasts_the_day<S: Number>(state: RiskState<S>, today: u32, balance: S)
    requires
        state.halted,
    ensures
        !state.may_open(),
        state.after_drawdown_check(balance).halted,
        state.on_day(today, balance).halted <==> today == state.current_utc_day,
{
}

/// A level of zero is unset: it never causes an exit.
pub proof fn law_unset_levels_never_exit<S: Lawful>(position: Position<S>, price: S)
    requires
        position.stop_loss == zero::<S>(),
        position.take_profit == zero::<S>(),
    ensures
        !position.breached(price),
{
    lemma_zero::<S>();
    S::law_total(zero::<S>(), zero::<S>());
}

/// On exact amounts, a position never loses more on its way down to the stop
/// than the risked fraction of equity, and never costs more than 95% of the free
/// cash.
pub proof fn law_sizing_is_bounded(
    equity: Amount,
    free: Amount,
    risk_per_trade: Amount,
    entry: Amount,
    stop: Amount,
)
    requires
        sized_within(equity, free, risk_per_trade, entry, stop).0 is Units,
        equity.product(risk_per_trade) is Units,
        equity.product(risk_per_trade)->0 >= 0,
        free.product(Amount::of_ratio(95, 100)) is Units,
        free.product(Amount::of_ratio(95, 100))->0 >= 0,
        entry is Units,
        stop is Units,
        entry->0 > 0,
        sized(equity, risk_per_trade, entry, stop).0 is Units,
        affordable(free, entry) is Units,
    ensures
        ({
            let (quantity, distance) = sized_within(equity, free, risk_per_trade, entry, stop);
            &&& quantity.product(distance) is Undefined || quantity.product(distance).le(
                equity.product(risk_per_trade),
            )
            &&& quantity.product(entry) is Undefined || quantity.product(entry).le(
                free.product(Amount::of_ratio(95, 100)),
            )
        }),
{
    let (quantity, distance) = sized_within(equity, free, risk_per_trade, entry, stop);
    let s = SCALE as int;
    if !entry.difference(stop).le(zero::<Amount>()) {
        let d = distance->0 as int;
        let r = equity.product(risk_per_trade)->0 as int;
        let e = entry->0 as int;
        let f = free.product(Amount::of_ratio(95, 100))->0 as int;
        let q = quantity->0 as int;
        if distance is Units {
            lemma_scaled_back(r, d, q, s);
        }
        lemma_scaled_back(f, e, q, s);
    } else {
        assert(0int * (entry->0 as int) == 0) by (nonlinear_arith);
    }
}

/// A quotient rounded down, scaled back, is no more than what was divided.
proof fn lemma_scaled_back(n: int, d: int, q: int, s: int)
    requires
        d > 0,
        s > 0,
        q <= (n * s) / d,
    ensures
        (q * d) / s <= n,
{
    assert(q * d <= n * s) by (nonlinear_arith)
        requires
            q <= (n * s) / d,
            d > 0,
    ;
    assert((q * d) / s <= n) by (nonlinear_arith)
        requires
            q * d <= n * s,
            s > 0,
    ;
}

/// How a position is sized. A stop that is not below the entry sizes nothing. Otherwise
/// the quantity is the smaller of two: the one whose loss down to the stop is the risked
/// fraction of equity, and the one that 95% of the free cash buys at the entry.
pub proof fn law_sizing_takes_the_smaller_bound<S: Lawful>(
    equity: S,
    free: S,
    risk_per_trade: S,
    entry: S,
    stop: S,
)
    ensures
        ({
            let nothing = S::of_ratio(0, 1);
            let distance = entry.difference(stop);
            let at_risk = equity.product(risk_per_trade).quotient(distance);
            let in_cash = free.product(S::of_ratio(95, 100)).quotient(entry);
            let (quantity, reported) = sized_within(equity, free, risk_per_trade, entry, stop);
            &&& distance.le(nothing) ==> quantity == nothing && reported == nothing
            &&& !distance.le(nothing) ==> {
                &&& reported == distance
                &&& quantity == at_risk || quantity == in_cash
                &&& !at_risk.is_undefined() && !in_cash.is_undefined() ==> quantity.le(at_risk)
                    && quantity.le(in_cash)
                &&& at_risk.is_undefined() ==> quantity == in_cash
                &&& in_cash.is_undefined() && !at_risk.is_undefined() ==> quantity == at_risk
            }
            &&& !distance.is_undefined() ==> (distance.le(nothing) <==> entry.le(stop))
        }),
{
    let distance = entry.difference(stop);
    law_larger_and_smaller(
        equity.product(risk_per_trade).quotient(distance),
        free.product(S::of_ratio(95, 100)).quotient(entry),
    );
    if !distance.is_undefined() {
        if entry.is_undefined() || stop.is_undefined() {
            S::law_absorbs(entry, stop);
        }
        S::law_difference(entry, stop);
        lemma_zero::<S>();
        S::law_total(zero::<S>(), distance);
        S::law_total(stop, entry);
    }
}

/// On exact amounts no unit is left out: one more would lose more down to the stop than is
/// risked, or cost more than 95% of the free cash.
pub proof fn law_sizing_leaves_nothing_out(
    equity: Amount,
    free: Amount,
    risk_per_trade: Amount,
    entry: Amount,
    stop: Amount,
)
    requires
        entry is Units,
        stop is Units,
        0 < entry->0,
        stop->0 < entry->0,
        entry->0 - stop->0 <= i64::MAX,
        equity.product(risk_per_trade) is Units,
        free.product(Amount::of_ratio(95, 100)) is Units,
        sized_within(equity, free, risk_per_trade, entry, stop).0 is Units,
    ensures
        ({
            let one_more = sized_within(equity, free, risk_per_trade, entry, stop).0->0 + 1;
            ||| one_more * (entry->0 - stop->0) > equity.product(risk_per_trade)->0 * SCALE
            ||| one_more * entry->0 > free.product(Amount::of_ratio(95, 100))->0 * SCALE
        }),
{
    let s = SCALE as int;
    let d = entry->0 - stop->0;
    let e = entry->0 as int;
    let r = equity.product(risk_per_trade)->0 as int;
    let f = free.product(Amount::of_ratio(95, 100))->0 as int;
    let q = sized_within(equity, free, risk_per_trade, entry, stop).0->0 as int;
    assert(((r * s) / d + 1) * d > r * s) by (nonlinear_arith)
        requires
            d > 0,
    ;
    assert(((f * s) / e + 1) * e > f * s) by (nonlinear_arith)
        requires
            e > 0,
    ;
    assert(q == (r * s) / d || q == (f * s) / e);
}

/// When a day's loss halts trading: where the day opened with something, and the share of
/// it that is lost is above the limit. The halt is recorded then, a halt that stands is
/// kept, and nothing else changes.
pub proof fn law_a_loss_beyond_the_limit_halts<S: Number>(state: RiskState<S>, balance: S)
    ensures
        ({
            let opened = state.day_open_balance;
            let lost = opened.difference(balance).quotient(opened);
            let broken = !opened.le(S::of_ratio(0, 1)) && state.limits.daily_drawdown.lt(lost);
            &&& state.limit_broken(balance) == broken
            &&& state.drawdown(balance) == lost
            &&& state.after_drawdown_check(balance).halted == (state.halted || broken)
            &&& state.after_drawdown_check(balance).positions == state.positions
            &&& state.after_drawdown_check(balance).day_open_balance == opened
            &&& state.after_drawdown_check(balance).current_utc_day == state.current_utc_day
            &&& state.after_drawdown_check(balance).limits == state.limits
        }),
{
}

/// A loss is measured one way: on exact amounts a smaller balance has lost no less, so a
/// limit that one balance breaks is broken by every smaller one.
pub proof fn law_a_smaller_balance_has_lost_more(
    state: RiskState<Amount>,
    balance: Amount,
    smaller: Amount,
)
    requires
        smaller.le(balance),
        state.limit_broken(balance),
        !state.drawdown(smaller).is_undefined(),
    ensures
        state.limit_broken(smaller),
{
    let o = state.day_open_balance->0 as int;
    let a = o - balance->0;
    let b = o - smaller->0;
    let s = SCALE as int;
    assert((a * s) / o <= (b * s) / o) by (nonlinear_arith)
        requires
            a <= b,
            o > 0,
            s == 100_000_000,
    ;
}

/// What a new day does: another day than the one on record starts from the balance at
/// hand and without a halt, and the same day changes nothing. Positions and limits stay.
pub proof fn law_a_new_day_starts_afresh<S: Number>(state: RiskState<S>, today: u32, balance: S)
    ensures
        ({
            let now = state.on_day(today, balance);
            &&& today == state.current_utc_day ==> now == state
            &&& today != state.current_utc_day ==> now.day_open_balance == balance
                && now.current_utc_day == today && !now.halted
            &&& now.positions == state.positions
            &&& now.limits == state.limits
        }),
{
}

/// Room for a position: none while a halt stands, and none once as many are open as are
/// allowed.
pub proof fn law_room_for_a_position<S: Number>(state: RiskState<S>)
    ensures
        state.may_open() <==> !state.halted && state.positions.len()
            < state.limits.max_open_positions,
{
}

proof fn lemma_exit_from<S: Number>(
    positions: Seq<Position<S>>,
    symbol: Seq<char>,
    price: S,
    from: int,
)
    requires
        0 <= from,
    ensures
        match exit_from(positions, symbol, price, from) {
            Some(i) => from <= i < positions.len() && positions[i].symbol@ == symbol
                && positions[i].breached(price) && forall|k: int|
                from <= k < i ==> (#[trigger] positions[k]).symbol@ != symbol
                    || !positions[k].breached(price),
            None => forall|k: int|
                from <= k < positions.len() ==> (#[trigger] positions[k]).symbol@ != symbol
                    || !positions[k].breached(price),
        },
    decreases positions.len() - from,
{
    if from < positions.len() && !(positions[from].symbol@ == symbol
        && positions[from].breached(price)) {
        lemma_exit_from(positions, symbol, price, from + 1);
    }
}

/// Whether a price has reached a level that is set: down at the stop or under it, or up at
/// the target or over it. Zero is no level.
pub open spec fn reaches_a_level<S: Number>(position: Position<S>, price: S) -> bool {
    let nothing = S::of_ratio(0, 1);
    ||| nothing.lt(position.stop_loss) && price.le(position.stop_loss)
    ||| nothing.lt(position.take_profit) && position.take_profit.le(price)
}

/// What is to be exited is the first position in the symbol whose stop or target the price
/// has reached, and nothing where it has reached none.
pub proof fn law_exits_are_at_the_levels<S: Number>(
    positions: Seq<Position<S>>,
    symbol: Seq<char>,
    price: S,
    i: int,
)
    ensures
        exit_from(positions, symbol, price, 0) == Some(i) <==> 0 <= i < positions.len()
            && positions[i].symbol@ == symbol && reaches_a_level(positions[i], price) && forall|
            k: int,
        |
            0 <= k < i ==> (#[trigger] positions[k]).symbol@ != symbol || !reaches_a_level(
                positions[k],
                price,
            ),
        exit_from(positions, symbol, price, 0) is None <==> forall|k: int|
            0 <= k < positions.len() ==> (#[trigger] positions[k]).symbol@ != symbol
                || !reaches_a_level(positions[k], price),
{
    lemma_exit_from(positions, symbol, price, 0);
    assert(forall|k: int|
        0 <= k < positions.len() ==> (#[trigger] positions[k]).breached(price)
            == reaches_a_level(positions[k], price));
    if let Some(found) = exit_from(positions, symbol, price, 0) {
        assert(reaches_a_level(positions[found], price));
        if 0 <= i < positions.len() && positions[i].symbol@ == symbol && reaches_a_level(
            positions[i],
            price,
        ) && forall|k: int|
            0 <= k < i ==> (#[trigger] positions[k]).symbol@ != symbol || !reaches_a_level(
                positions[k],
                price,
            ) {
            assert(positions[i].breached(price));
        }
    } else {
        assert forall|k: int| 0 <= k < positions.len() implies (
        #[trigger] positions[k]).symbol@ != symbol || !reaches_a_level(positions[k], price) by {
            assert(positions[k].symbol@ != symbol || !positions[k].breached(price));
        }
    }
}

/// The limits that nothing sets: 1.5% of equity at risk in a trade, four positions at
/// once, and a halt beyond a loss of 5% in a day. A manager starts without positions and
/// without a halt, from the balance it is given.
pub proof fn law_default_limits<S: Number>(balance: S, limits: RiskLimits<S>, today: u32)
    ensures
        default_limits::<S>().risk_per_trade == S::of_ratio(15, 1000),
        default_limits::<S>().max_open_positions == 4,
        default_limits::<S>().daily_drawdown == S::of_ratio(5, 100),
        ({
            let state = fresh_state(balance, limits, today);
            &&& state.positions.len() == 0
            &&& !state.halted
            &&& state.day_open_balance == balance
            &&& state.current_utc_day == today
            &&& state.limits == limits
        }),
{
}

/// What opening, replacing and closing do to the positions: the new one comes last, the
/// first one in the symbol is replaced in its place or taken out, and the others stay.
pub proof fn law_positions_change_one_at_a_time<S: Number>(
    state: RiskState<S>,
    symbol: Seq<char>,
    position: Position<S>,
    i: int,
)
    ensures
        state.with_opened(position).positions == state.positions.push(position),
        (0 <= i < state.positions.len() && state.positions[i].symbol@ == symbol && forall|k: int|
            0 <= k < i ==> (#[trigger] state.positions[k]).symbol@ != symbol) ==> {
            &&& state.holds(symbol)
            &&& state.with_updated(symbol, position).positions == state.positions.update(
                i,
                position,
            )
            &&& state.with_closed(symbol).positions == state.positions.remove(i)
        },
        (forall|k: int|
            0 <= k < state.positions.len() ==> (#[trigger] state.positions[k]).symbol@ != symbol)
            ==> {
            &&& !state.holds(symbol)
            &&& state.with_updated(symbol, position) == state
            &&& state.with_closed(symbol) == state
        },
        ({
            let opened = state.with_opened(position);
            let updated = state.with_updated(symbol, position);
            let closed = state.with_closed(symbol);
            &&& opened.halted == state.halted && updated.halted == state.halted && closed.halted
                == state.halted
            &&& opened.limits == state.limits && updated.limits == state.limits && closed.limits
                == state.limits
            &&& opened.day_open_balance == state.day_open_balance && updated.day_open_balance
                == state.day_open_balance && closed.day_open_balance == state.day_open_balance
            &&& opened.current_utc_day == state.current_utc_day && updated.current_utc_day
                == state.current_utc_day && closed.current_utc_day == state.current_utc_day
        }),
{
    lemma_first_index(state.positions, symbol, 0, i);
}

pub proof fn lemma_first_index<S>(positions: Seq<Position<S>>, symbol: Seq<char>, from: int, i: int)
    requires
        0 <= from,
    ensures
        (from <= i < positions.len() && positions[i].symbol@ == symbol && forall|k: int|
            from <= k < i ==> (#[trigger] positions[k]).symbol@ != symbol) ==> index_from(
            positions,
            symbol,
            from,
        ) == Some(i),
        (forall|k: int| from <= k < positions.len() ==> (#[trigger] positions[k]).symbol@ != symbol)
            ==> index_from(positions, symbol, from) is None,
    decreases positions.len() - from,
{
    if from < positions.len() {
        lemma_first_index(positions, symbol, from + 1, i);
        if from < i {
            if positions[from].symbol@ == symbol && forall|k: int|
                from <= k < i ==> (#[trigger] positions[k]).symbol@ != symbol {
                assert(positions[from].symbol@ != symbol);
            }
        }
    }
}

} // verus!
