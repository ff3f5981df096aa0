//! What any number of maintenance calls does to a position over time, and what it
//! leaves alone.

use vstd::arithmetic::div_mod::lemma_fundamental_div_mod;
use vstd::prelude::*;
use crate::amount::Amount;
use crate::exchange::rounded_down;
use crate::executor::{
    desired_stop, law_the_stop_never_moves_down, marked, ratchets, with_news, MaintainRun,
    MaintainStage,
};
use crate::number::{larger_of, lemma_ordered, zero, Lawful, Number};
use crate::risk::{index_from, index_of, lemma_index_from, Position, RiskState};
use crate::rounding::law_rounds_down_to_a_multiple;
use crate::strategy::StrategyParams;
use crate::venue::{Reply, Request, Step};

verus! {

/// One call of the maintenance, and what the venue answers to its requests in turn.
pub struct UpkeepCall<S> {
    pub price: S,
    pub params: StrategyParams<S>,
    pub replies: Seq<Reply<S>>,
}

/// Where a maintenance stands: the run, its last step, and the positions on record.
pub struct UpkeepProgress<S> {
    pub run: MaintainRun<S>,
    pub step: Step<S>,
    pub state: RiskState<S>,
}

/// A maintenance that starts from `state`, through `replies`.
pub open spec fn upkeep_after<S: Number>(
    run: MaintainRun<S>,
    state: RiskState<S>,
    replies: Seq<Reply<S>>,
) -> UpkeepProgress<S>
    decreases replies.len(),
{
    if replies.len() == 0 {
        UpkeepProgress { run, step: Step::Ask(Request::Filters { symbol: run.symbol }), state }
    } else {
        let before = upkeep_after(run, state, replies.drop_last());
        let moved = before.run.next(replies.last());
        UpkeepProgress {
            run: moved.run,
            step: moved.step,
            state: with_news(before.state, run.symbol@, moved.news),
        }
    }
}

/// Whether the venue answers as it should: each reply is one that the maintenance
/// awaits by then, the filters carry `tick`, and a stop that was accepted is
/// reported at the price that was asked for, which is a number.
pub open spec fn upkeep_answered<S: Number>(
    run: MaintainRun<S>,
    state: RiskState<S>,
    tick: S,
    replies: Seq<Reply<S>>,
) -> bool
    decreases replies.len(),
{
    replies.len() == 0 || {
        let before = upkeep_after(run, state, replies.drop_last());
        &&& upkeep_answered(run, state, tick, replies.drop_last())
        &&& before.run.awaits(replies.last())
        &&& replies.last() matches Reply::Filters(Ok(filters)) ==> filters.tick_size == tick
        &&& replies.last() matches Reply::Stop(Ok(placement)) ==> {
            &&& before.step matches Step::Ask(Request::StopLoss { stop, .. })
                && placement.stop_price == stop
            &&& !placement.stop_price.is_undefined()
        }
    }
}

/// The run that a call starts for a position whose high-water mark is up to date.
pub open spec fn upkeep_run<S: Number>(
    symbol: String,
    position: Position<S>,
    params: StrategyParams<S>,
) -> MaintainRun<S> {
    MaintainRun {
        symbol,
        desired: desired_stop(position, params),
        quantity: position.quantity,
        was_protected: position.protected,
        stage: MaintainStage::AwaitFilters,
    }
}

/// The state once one call is through.
pub open spec fn kept_up<S: Number>(
    symbol: String,
    state: RiskState<S>,
    call: UpkeepCall<S>,
) -> RiskState<S> {
    match index_of(state.positions, symbol@) {
        None => state,
        Some(i) => {
            let position = marked(state.positions[i], call.price);
            let noted = state.with_updated(symbol@, position);
            if position.protected && !ratchets(position, call.params) {
                noted
            } else {
                upkeep_after(upkeep_run(symbol, position, call.params), noted, call.replies).state
            }
        },
    }
}

/// Whether the venue answers one call as it should.
pub open spec fn call_answered<S: Number>(
    symbol: String,
    state: RiskState<S>,
    tick: S,
    call: UpkeepCall<S>,
) -> bool {
    match index_of(state.positions, symbol@) {
        None => true,
        Some(i) => {
            let position = marked(state.positions[i], call.price);
            let noted = state.with_updated(symbol@, position);
            upkeep_answered(
                upkeep_run(symbol, position, call.params),
                noted,
                tick,
                call.replies,
            )
        },
    }
}

/// The state once all calls are through, in turn.
pub open spec fn kept_up_through<S: Number>(
    symbol: String,
    state: RiskState<S>,
    calls: Seq<UpkeepCall<S>>,
) -> RiskState<S>
    decreases calls.len(),
{
    if calls.len() == 0 {
        state
    } else {
        kept_up(symbol, kept_up_through(symbol, state, calls.drop_last()), calls.last())
    }
}

/// Whether the venue answers every call as it should.
pub open spec fn calls_answered<S: Number>(
    symbol: String,
    state: RiskState<S>,
    tick: S,
    calls: Seq<UpkeepCall<S>>,
) -> bool
    decreases calls.len(),
{
    calls.len() == 0 || {
        &&& calls_answered(symbol, state, tick, calls.drop_last())
        &&& call_answered(
            symbol,
            kept_up_through(symbol, state, calls.drop_last()),
            tick,
            calls.last(),
        )
    }
}

/// The highest of a mark and of the prices of the calls.
pub open spec fn highest_seen<S: Number>(first: S, calls: Seq<UpkeepCall<S>>) -> S
    decreases calls.len(),
{
    if calls.len() == 0 {
        first
    } else {
        larger_of(highest_seen(first, calls.drop_last()), calls.last().price)
    }
}

/// Whether a price is on the tick: a number that something not negative is rounded
/// down to.
pub open spec fn on_tick<S: Number>(price: S, tick: S) -> bool {
    !price.is_undefined() && exists|value: S|
        zero::<S>().le(value) && price == #[trigger] rounded_down(value, tick)
}

/// Whether `after` is `before` with at most the first position in `symbol` changed,
/// and in it only the stop, the high-water mark and whether it is protected.
pub open spec fn keeps_the_rest<S: Number>(
    symbol: Seq<char>,
    before: RiskState<S>,
    after: RiskState<S>,
) -> bool {
    let i = index_of(before.positions, symbol)->0;
    let was = before.positions[i];
    let is = after.positions[i];
    &&& index_of(after.positions, symbol) == Some(i)
    &&& after == before.with_updated(
        symbol,
        Position {
            stop_loss: is.stop_loss,
            highest_high: is.highest_high,
            protected: is.protected,
            ..was
        },
    )
}

// ---------------------------------------------------------------------------
// Laws
// ---------------------------------------------------------------------------

/// A position replaced by one in the same symbol is found at the same place.
proof fn lemma_found_again<S>(
    positions: Seq<Position<S>>,
    symbol: Seq<char>,
    from: int,
    position: Position<S>,
)
    requires
        0 <= from,
        index_from(positions, symbol, from) is Some,
        position.symbol@ == symbol,
    ensures
        index_from(
            positions.update(index_from(positions, symbol, from)->0, position),
            symbol,
            from,
        ) == index_from(positions, symbol, from),
    decreases positions.len() - from,
{
    lemma_index_from(positions, symbol, from);
    if from < positions.len() && positions[from].symbol@ != symbol {
        lemma_found_again(positions, symbol, from + 1, position);
    }
}

/// What a maintenance has done to the state, stage by stage.
proof fn lemma_upkeep<S: Number>(
    run: MaintainRun<S>,
    state: RiskState<S>,
    tick: S,
    replies: Seq<Reply<S>>,
)
    requires
        run.stage is AwaitFilters,
        index_of(state.positions, run.symbol@) is Some,
        upkeep_answered(run, state, tick, replies),
    ensures
        ({
            let now = upkeep_after(run, state, replies);
            let position = state.positions[index_of(state.positions, run.symbol@)->0];
            let stop = rounded_down(run.desired, tick);
            &&& now.run.desired == run.desired
            &&& match now.run.stage {
                MaintainStage::AwaitFilters => now.state == state,
                MaintainStage::AwaitCancel { stop: asked, .. } => now.state == state && asked
                    == stop,
                MaintainStage::AwaitStop => now.state == state && (now.step matches Step::Ask(
                    Request::StopLoss { stop: asked, .. },
                ) && asked == stop),
                _ => {
                    ||| now.state == state
                    ||| now.state == state.with_updated(
                        run.symbol@,
                        Position { protected: false, ..position },
                    )
                    ||| !stop.is_undefined() && now.state == state.with_updated(
                        run.symbol@,
                        Position { stop_loss: stop, protected: true, ..position },
                    )
                },
            }
        }),
    decreases replies.len(),
{
    if replies.len() > 0 {
        lemma_upkeep(run, state, tick, replies.drop_last());
    }
}

/// A mark that is a number does not fall when a price is taken in.
proof fn lemma_mark_rises<S: Lawful>(mark: S, price: S)
    requires
        !mark.is_undefined(),
    ensures
        mark.le(larger_of(mark, price)),
        !larger_of(mark, price).is_undefined(),
{
    S::law_total(mark, mark);
    if mark.lt(price) {
        lemma_ordered(mark, price);
    }
}

/// One call: the stop does not fall and stays on the tick, the high-water mark takes
/// in the price, and the rest stays.
proof fn lemma_one_call<S: Lawful>(symbol: String, state: RiskState<S>, tick: S, call: UpkeepCall<S>)
    requires
        index_of(state.positions, symbol@) is Some,
        on_tick(state.positions[index_of(state.positions, symbol@)->0].stop_loss, tick),
        !state.positions[index_of(state.positions, symbol@)->0].highest_high.is_undefined(),
        call_answered(symbol, state, tick, call),
    ensures
        ({
            let i = index_of(state.positions, symbol@)->0;
            let after = kept_up(symbol, state, call);
            &&& keeps_the_rest(symbol@, state, after)
            &&& on_tick(after.positions[i].stop_loss, tick)
            &&& state.positions[i].stop_loss.le(after.positions[i].stop_loss)
            &&& after.positions[i].highest_high == larger_of(
                state.positions[i].highest_high,
                call.price,
            )
        }),
{
    let i = index_of(state.positions, symbol@)->0;
    lemma_index_from(state.positions, symbol@, 0);
    let stop = state.positions[i].stop_loss;
    let position = marked(state.positions[i], call.price);
    let noted = state.with_updated(symbol@, position);
    lemma_found_again(state.positions, symbol@, 0, position);
    let after = kept_up(symbol, state, call);
    S::law_total(stop, stop);
    if !(position.protected && !ratchets(position, call.params)) {
        let run = upkeep_run(symbol, position, call.params);
        lemma_upkeep(run, noted, tick, call.replies);
        let value = choose|value: S|
            zero::<S>().le(value) && stop == #[trigger] rounded_down(value, tick);
        law_the_stop_never_moves_down(state.positions[i], call.price, call.params);
        S::law_rounding(value, run.desired, tick);
        S::law_transitive(zero::<S>(), stop, run.desired);
    }
    let is = after.positions[i];
    assert(is.symbol == state.positions[i].symbol);
    let changed = Position {
        stop_loss: is.stop_loss,
        highest_high: is.highest_high,
        protected: is.protected,
        ..state.positions[i]
    };
    lemma_found_again(state.positions, symbol@, 0, changed);
    assert(after =~= state.with_updated(symbol@, changed));
}

/// Over any sequence of maintenance calls for a symbol, at any prices, the stop on
/// record never falls and stays on the tick; the high-water mark never falls and is
/// the highest of the first mark and of every price; and nothing else changes, of
/// this position but for whether it is protected, nor of any other.
///
/// For a position whose stop is on the tick to begin with, and a venue that reports an
/// accepted stop at the price it was given.
pub proof fn law_upkeep_never_lowers_the_stop<S: Lawful>(
    symbol: String,
    state: RiskState<S>,
    tick: S,
    calls: Seq<UpkeepCall<S>>,
    m: int,
)
    requires
        state.holds(symbol@),
        on_tick(state.positions[index_of(state.positions, symbol@)->0].stop_loss, tick),
        !state.positions[index_of(state.positions, symbol@)->0].highest_high.is_undefined(),
        calls_answered(symbol, state, tick, calls),
        0 <= m <= calls.len(),
    ensures
        ({
            let i = index_of(state.positions, symbol@)->0;
            let earlier = kept_up_through(symbol, state, calls.take(m));
            let later = kept_up_through(symbol, state, calls);
            &&& keeps_the_rest(symbol@, state, later)
            &&& on_tick(later.positions[i].stop_loss, tick)
            &&& earlier.positions[i].stop_loss.le(later.positions[i].stop_loss)
            &&& earlier.positions[i].highest_high.le(later.positions[i].highest_high)
            &&& later.positions[i].highest_high == highest_seen(
                state.positions[i].highest_high,
                calls,
            )
        }),
    decreases calls.len(),
{
    let i = index_of(state.positions, symbol@)->0;
    lemma_index_from(state.positions, symbol@, 0);
    let first = state.positions[i];
    if calls.len() == 0 {
        assert(calls.take(m) =~= calls);
        assert(state =~= state.with_updated(symbol@, first));
        S::law_total(first.stop_loss, first.stop_loss);
        S::law_total(first.highest_high, first.highest_high);
    } else {
        let before = kept_up_through(symbol, state, calls.drop_last());
        let k = if m < calls.len() {
            m
        } else {
            m - 1
        };
        law_upkeep_never_lowers_the_stop(symbol, state, tick, calls.drop_last(), k);
        let earlier = kept_up_through(symbol, state, calls.drop_last().take(k)).positions[i];
        let last = before.positions[i];
        lemma_ordered(earlier.highest_high, last.highest_high);
        lemma_one_call(symbol, before, tick, calls.last());
        let after = kept_up_through(symbol, state, calls);
        let is = after.positions[i];
        assert(keeps_the_rest(symbol@, state, after)) by {
            assert(after =~= state.with_updated(
                symbol@,
                Position {
                    stop_loss: is.stop_loss,
                    highest_high: is.highest_high,
                    protected: is.protected,
                    ..first
                },
            ));
        }
        lemma_mark_rises(last.highest_high, calls.last().price);
        if m < calls.len() {
            assert(calls.drop_last().take(m) =~= calls.take(m));
            S::law_transitive(earlier.stop_loss, last.stop_loss, is.stop_loss);
            S::law_transitive(earlier.highest_high, last.highest_high, is.highest_high);
        } else {
            assert(calls.take(m) =~= calls);
            S::law_total(is.stop_loss, is.stop_loss);
            S::law_total(is.highest_high, is.highest_high);
        }
    }
}

/// Of exact amounts, a price that is a whole number of ticks is on the tick, as far as
/// its ticks can be counted.
pub proof fn law_whole_ticks_are_on_the_tick(price: i64, tick: i64)
    requires
        price >= 0,
        tick > 0,
        price as int % tick as int == 0,
        rounded_down(Amount::Units(price), Amount::Units(tick)) is Units,
    ensures
        on_tick(Amount::Units(price), Amount::Units(tick)),
{
    law_rounds_down_to_a_multiple(price, tick);
    lemma_fundamental_div_mod(price as int, tick as int);
    assert((price as int / tick as int) * tick == tick * (price as int / tick as int))
        by (nonlinear_arith);
    assert(Amount::Units(price) == rounded_down(Amount::Units(price), Amount::Units(tick)));
}

} // verus!
