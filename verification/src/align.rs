//! Puts the feeds of a portfolio onto one four-hour timeline.
//!
//! Feeds are aligned on the times that all of them have. Trimming to a common start
//! would not be enough: a single missing bar on one symbol would shift every later
//! index and compare different moments.

use std::collections::HashSet;
use vstd::prelude::*;
use crate::exchange::Candle;
use crate::number::Number;
use crate::portfolio::SymbolFeed;

verus! {

/// Daily candles a feed needs to take part.
pub const FEED_DAILY_CANDLES: usize = 210;

/// Four-hour candles a feed needs to take part.
pub const FEED_FOUR_HOUR_CANDLES: usize = 50;

/// Feeds below which there is no portfolio to speak of.
pub const MIN_FEEDS: usize = 2;

/// Whether a feed has history enough to take part.
pub open spec fn eligible<S>(feed: SymbolFeed<S>) -> bool {
    feed.daily@.len() >= FEED_DAILY_CANDLES && feed.four_hour@.len() >= FEED_FOUR_HOUR_CANDLES
}

impl<S: Number> SymbolFeed<S> {
    /// Whether there is history enough to take part.
    pub fn is_eligible(&self) -> (r: bool)
        ensures
            r == eligible(*self),
    {
        self.daily.len() >= FEED_DAILY_CANDLES && self.four_hour.len() >= FEED_FOUR_HOUR_CANDLES
    }
}

/// Whether a bar opens at `time`.
pub open spec fn has_time<S>(bars: Seq<Candle<S>>, time: u64) -> bool {
    exists|i: int| 0 <= i < bars.len() && (#[trigger] bars[i]).open_time == time
}

/// Whether every feed has a bar that opens at `time`.
pub open spec fn on_every_feed<S>(feeds: Seq<SymbolFeed<S>>, time: u64) -> bool {
    forall|f: int| 0 <= f < feeds.len() ==> has_time((#[trigger] feeds[f]).four_hour@, time)
}

/// The bars at the times that every feed has.
pub open spec fn shared_bars<S>(feeds: Seq<SymbolFeed<S>>, bars: Seq<Candle<S>>) -> Seq<Candle<S>> {
    bars.filter(|bar: Candle<S>| on_every_feed(feeds, bar.open_time))
}

/// Whether every feed has as many shared bars as the first.
pub open spec fn alignable<S>(feeds: Seq<SymbolFeed<S>>) -> bool {
    forall|f: int|
        0 <= f < feeds.len() ==> shared_bars(feeds, (#[trigger] feeds[f]).four_hour@).len()
            == shared_bars(feeds, feeds[0].four_hour@).len()
}

/// Whether `r` is `feeds` with only the shared bars left.
pub open spec fn aligned_from<S>(r: Seq<SymbolFeed<S>>, feeds: Seq<SymbolFeed<S>>) -> bool {
    &&& r.len() == feeds.len()
    &&& forall|f: int|
        0 <= f < feeds.len() ==> (#[trigger] r[f]).symbol == feeds[f].symbol && r[f].daily
            == feeds[f].daily && r[f].four_hour@ == shared_bars(feeds, feeds[f].four_hour@)
}

/// The feeds have no timeline in common: one of them repeats a time.
#[derive(Debug, Clone, Copy, PartialEq, Eq)]
pub struct Misaligned;

impl Misaligned {
    pub fn describe(&self) -> (r: &'static str)
        ensures
            r@ == "portfolio feeds could not be aligned"@,
    {
        "portfolio feeds could not be aligned"
    }
}

fn times_of<S: Number>(bars: &Vec<Candle<S>>) -> (r: HashSet<u64>)
    ensures
        forall|time: u64| #[trigger] r@.contains(time) <==> has_time(bars@, time),
{
    broadcast use vstd::std_specs::hash::group_hash_axioms;

    let mut times: HashSet<u64> = HashSet::new();
    let mut i: usize = 0;
    while i < bars.len()
        invariant
            i <= bars@.len(),
            forall|time: u64| #[trigger] times@.contains(time) <==> has_time(bars@.take(i as int), time),
        decreases bars@.len() - i,
    {
        let ghost before = times@;
        times.insert(bars[i].open_time);
        proof {
            let seen = bars@.take(i as int);
            let now = bars@.take(i + 1);
            assert forall|time: u64| #[trigger] times@.contains(time) <==> has_time(now, time) by {
                if before.contains(time) {
                    let k = choose|k: int|
                        0 <= k < seen.len() && (#[trigger] seen[k]).open_time == time;
                    assert(now[k].open_time == time);
                }
                if time == bars@[i as int].open_time {
                    assert(now[i as int].open_time == time);
                }
                if has_time(now, time) && time != bars@[i as int].open_time {
                    let k = choose|k: int|
                        0 <= k < now.len() && (#[trigger] now[k]).open_time == time;
                    assert(seen[k].open_time == time);
                }
            }
        }
        i = i + 1;
    }
    assert(bars@.take(i as int) =~= bars@);
    times
}

spec fn times_match<S>(times: Seq<HashSet<u64>>, feeds: Seq<SymbolFeed<S>>) -> bool {
    &&& times.len() == feeds.len()
    &&& forall|f: int, time: u64|
        0 <= f < feeds.len() ==> (#[trigger] times[f]@.contains(time) <==> has_time(
            feeds[f].four_hour@,
            time,
        ))
}

fn on_all<S: Number>(
    times: &Vec<HashSet<u64>>,
    time: u64,
    Ghost(feeds): Ghost<Seq<SymbolFeed<S>>>,
) -> (r: bool)
    requires
        times_match(times@, feeds),
    ensures
        r == on_every_feed(feeds, time),
{
    broadcast use vstd::std_specs::hash::group_hash_axioms;

    let mut f: usize = 0;
    while f < times.len()
        invariant
            f <= times@.len(),
            times_match(times@, feeds),
            forall|k: int| 0 <= k < f ==> has_time((#[trigger] feeds[k]).four_hour@, time),
        decreases times@.len() - f,
    {
        let known = times[f].contains(&time);
        assert(times@[f as int]@.contains(time) <==> has_time(feeds[f as int].four_hour@, time));
        if !known {
            return false;
        }
        f = f + 1;
    }
    true
}

fn keep_shared<S: Number>(
    bars: &Vec<Candle<S>>,
    times: &Vec<HashSet<u64>>,
    Ghost(feeds): Ghost<Seq<SymbolFeed<S>>>,
) -> (r: Vec<Candle<S>>)
    requires
        times_match(times@, feeds),
    ensures
        r@ == shared_bars(feeds, bars@),
{
    let ghost keep = |bar: Candle<S>| on_every_feed(feeds, bar.open_time);
    let mut kept: Vec<Candle<S>> = Vec::new();
    let mut i: usize = 0;
    proof {
        reveal(Seq::filter);
    }
    while i < bars.len()
        invariant
            i <= bars@.len(),
            times_match(times@, feeds),
            keep == (|bar: Candle<S>| on_every_feed(feeds, bar.open_time)),
            kept@ == bars@.take(i as int).filter(keep),
        decreases bars@.len() - i,
    {
        let bar = bars[i];
        proof {
            reveal(Seq::filter);
            assert(bars@.take(i + 1).drop_last() =~= bars@.take(i as int));
        }
        if on_all::<S>(times, bar.open_time, Ghost(feeds)) {
            kept.push(bar);
        }
        i = i + 1;
    }
    assert(bars@.take(i as int) =~= bars@);
    kept
}

/// Leaves every feed only the bars at the times that all of them have.
pub fn align<S: Number>(feeds: Vec<SymbolFeed<S>>) -> (r: Result<Vec<SymbolFeed<S>>, Misaligned>)
    ensures
        match r {
            Ok(aligned) => alignable(feeds@) && aligned_from(aligned@, feeds@),
            Err(_) => !alignable(feeds@),
        },
{
    let mut times: Vec<HashSet<u64>> = Vec::new();
    let mut f: usize = 0;
    while f < feeds.len()
        invariant
            f <= feeds@.len(),
            times@.len() == f,
            forall|k: int, time: u64|
                0 <= k < f ==> (#[trigger] times@[k]@.contains(time) <==> has_time(
                    feeds@[k].four_hour@,
                    time,
                )),
        decreases feeds@.len() - f,
    {
        times.push(times_of(&feeds[f].four_hour));
        f = f + 1;
    }
    let ghost given = feeds@;
    let mut out = feeds;
    let mut f: usize = 0;
    let mut even = true;
    while f < out.len()
        invariant
            f <= given.len(),
            out@.len() == given.len(),
            times_match(times@, given),
            forall|k: int|
                0 <= k < given.len() ==> (#[trigger] out@[k]).symbol == given[k].symbol
                    && out@[k].daily == given[k].daily && out@[k].four_hour@ == (if k < f {
                    shared_bars(given, given[k].four_hour@)
                } else {
                    given[k].four_hour@
                }),
            even == (forall|k: int|
                0 <= k < f ==> shared_bars(given, (#[trigger] given[k]).four_hour@).len()
                    == shared_bars(given, given[0].four_hour@).len()),
        decreases given.len() - f,
    {
        let shared = keep_shared(&out[f].four_hour, &times, Ghost(given));
        if f > 0 && shared.len() != out[0].four_hour.len() {
            even = false;
            assert(shared_bars(given, given[f as int].four_hour@).len() != shared_bars(
                given,
                given[0].four_hour@,
            ).len());
        }
        out[f].four_hour = shared;
        f = f + 1;
    }
    if even {
        Ok(out)
    } else {
        Err(Misaligned)
    }
}

/// The feeds that have history enough.
pub open spec fn eligible_feeds<S>(feeds: Seq<SymbolFeed<S>>) -> Seq<SymbolFeed<S>> {
    feeds.filter(|feed: SymbolFeed<S>| eligible(feed))
}

/// What a portfolio runs on: the eligible feeds, aligned. `None` where there are too
/// few of them.
pub fn assemble<S: Number>(feeds: Vec<SymbolFeed<S>>) -> (r: Result<
    Option<Vec<SymbolFeed<S>>>,
    Misaligned,
>)
    ensures
        ({
            let taken = eligible_feeds(feeds@);
            match r {
                Ok(None) => taken.len() < MIN_FEEDS,
                Ok(Some(aligned)) => taken.len() >= MIN_FEEDS && alignable(taken) && aligned_from(
                    aligned@,
                    taken,
                ),
                Err(_) => taken.len() >= MIN_FEEDS && !alignable(taken),
            }
        }),
{
    let ghost keep = |feed: SymbolFeed<S>| eligible(feed);
    let ghost given = feeds@;
    let ghost mut seen: int = 0;
    let mut taken = feeds;
    let mut i: usize = 0;
    proof {
        reveal(Seq::filter);
        assert(given.skip(0) =~= given);
        assert(taken@ =~= given.take(0).filter(keep) + given.skip(0));
    }
    while i < taken.len()
        invariant
            0 <= seen <= given.len(),
            keep == (|feed: SymbolFeed<S>| eligible(feed)),
            i == given.take(seen).filter(keep).len(),
            taken@ == given.take(seen).filter(keep) + given.skip(seen),
        decreases given.len() - seen,
    {
        let ghost before = given.take(seen).filter(keep);
        assert(taken@[i as int] == given[seen]);
        proof {
            reveal(Seq::filter);
            assert(given.take(seen + 1).drop_last() =~= given.take(seen));
            assert(given.take(seen + 1).last() == given[seen]);
        }
        if taken[i].is_eligible() {
            assert(taken@ =~= before.push(given[seen]) + given.skip(seen + 1));
            i = i + 1;
        } else {
            taken.remove(i);
            assert(taken@ =~= before + given.skip(seen + 1));
        }
        proof {
            seen = seen + 1;
        }
    }
    proof {
        assert(given.take(seen) =~= given);
        assert(taken@ =~= eligible_feeds(given));
    }
    if taken.len() < MIN_FEEDS {
        return Ok(None);
    }
    match align(taken) {
        Ok(aligned) => Ok(Some(aligned)),
        Err(misaligned) => Err(misaligned),
    }
}

// ---------------------------------------------------------------------------
// Laws
// ---------------------------------------------------------------------------

/// Whether bars stand in the order of their times, with no time twice.
pub open spec fn in_order<S>(bars: Seq<Candle<S>>) -> bool {
    forall|i: int, k: int|
        0 <= i < k < bars.len() ==> (#[trigger] bars[i]).open_time < (
        #[trigger] bars[k]).open_time
}

proof fn lemma_shared<S>(feeds: Seq<SymbolFeed<S>>, bars: Seq<Candle<S>>)
    requires
        in_order(bars),
    ensures
        in_order(shared_bars(feeds, bars)),
        forall|time: u64| #[trigger]
            has_time(shared_bars(feeds, bars), time) <==> has_time(bars, time) && on_every_feed(
                feeds,
                time,
            ),
        shared_bars(feeds, bars).len() > 0 && bars.len() > 0
            ==> shared_bars(feeds, bars).last().open_time <= bars.last().open_time,
    decreases bars.len(),
{
    reveal(Seq::filter);
    let kept = shared_bars(feeds, bars);
    if bars.len() > 0 {
        let rest = bars.drop_last();
        let before = shared_bars(feeds, rest);
        lemma_shared(feeds, rest);
        let last = bars.last();
        let holds = on_every_feed(feeds, last.open_time);
        assert(kept == if holds { before.push(last) } else { before });
        if before.len() > 0 {
            lemma_last_is_latest(before);
            assert(has_time(before, before.last().open_time)) by {
                assert(before[before.len() - 1].open_time == before.last().open_time);
            }
            let k = choose|k: int|
                0 <= k < rest.len() && (#[trigger] rest[k]).open_time == before.last().open_time;
            assert(rest[k] == bars[k]);
            assert(bars[k].open_time < bars[bars.len() - 1].open_time);
        }
        assert forall|i: int, k: int| 0 <= i < k < kept.len() implies (
        #[trigger] kept[i]).open_time < (#[trigger] kept[k]).open_time by {
            assert(before[i] == kept[i]);
            if k < before.len() {
                assert(before[k] == kept[k]);
            }
        }
        assert forall|time: u64| #[trigger]
            has_time(kept, time) <==> has_time(bars, time) && on_every_feed(feeds, time) by {
            if has_time(kept, time) {
                let i = choose|i: int| 0 <= i < kept.len() && (#[trigger] kept[i]).open_time == time;
                if i < before.len() {
                    assert(before[i].open_time == time);
                    assert(has_time(before, time));
                    let k = choose|k: int|
                        0 <= k < rest.len() && (#[trigger] rest[k]).open_time == time;
                    assert(bars[k].open_time == time);
                } else {
                    assert(bars[bars.len() - 1].open_time == time);
                }
            }
            if has_time(bars, time) && on_every_feed(feeds, time) {
                let i = choose|i: int| 0 <= i < bars.len() && (#[trigger] bars[i]).open_time == time;
                if i < rest.len() {
                    assert(rest[i].open_time == time);
                    assert(has_time(before, time));
                    let k = choose|k: int|
                        0 <= k < before.len() && (#[trigger] before[k]).open_time == time;
                    assert(kept[k].open_time == time);
                } else {
                    assert(kept[kept.len() - 1].open_time == time);
                }
            }
        }
    }
}

proof fn lemma_last_is_latest<S>(bars: Seq<Candle<S>>)
    requires
        in_order(bars),
        bars.len() > 0,
    ensures
        forall|time: u64| #[trigger] has_time(bars, time) ==> time <= bars.last().open_time,
{
    assert forall|time: u64| #[trigger] has_time(bars, time) implies time
        <= bars.last().open_time by {
        let i = choose|i: int| 0 <= i < bars.len() && (#[trigger] bars[i]).open_time == time;
        assert(bars[i].open_time <= bars[bars.len() - 1].open_time);
    }
}

/// Two ordered series with the same times have them at the same places.
proof fn lemma_same_times<S>(bars: Seq<Candle<S>>, other: Seq<Candle<S>>)
    requires
        in_order(bars),
        in_order(other),
        forall|time: u64| #[trigger] has_time(bars, time) <==> has_time(other, time),
    ensures
        bars.len() == other.len(),
        forall|i: int|
            0 <= i < bars.len() ==> (#[trigger] bars[i]).open_time == other[i].open_time,
    decreases bars.len(),
{
    if bars.len() == 0 {
        if other.len() > 0 {
            assert(has_time(other, other[0].open_time));
            assert(has_time(bars, other[0].open_time));
        }
    } else {
        let top = bars.last().open_time;
        assert(bars[bars.len() - 1].open_time == top);
        assert(has_time(bars, top));
        assert(has_time(other, top));
        lemma_last_is_latest(bars);
        lemma_last_is_latest(other);
        assert(other[other.len() - 1].open_time == other.last().open_time);
        assert(has_time(other, other.last().open_time));
        assert(has_time(bars, other.last().open_time));
        assert(other[other.len() - 1].open_time == top);
        let a = bars.drop_last();
        let b = other.drop_last();
        assert forall|time: u64| #[trigger] has_time(a, time) <==> has_time(b, time) by {
            if has_time(a, time) {
                let i = choose|i: int| 0 <= i < a.len() && (#[trigger] a[i]).open_time == time;
                assert(bars[i].open_time == time);
                assert(bars[i].open_time < bars[bars.len() - 1].open_time);
                assert(has_time(bars, time));
                let k = choose|k: int|
                    0 <= k < other.len() && (#[trigger] other[k]).open_time == time;
                assert(k < other.len() - 1);
                assert(b[k].open_time == time);
            }
            if has_time(b, time) {
                let i = choose|i: int| 0 <= i < b.len() && (#[trigger] b[i]).open_time == time;
                assert(other[i].open_time == time);
                assert(other[i].open_time < other[other.len() - 1].open_time);
                assert(has_time(other, time) && has_time(bars, time));
                let k = choose|k: int| 0 <= k < bars.len() && (#[trigger] bars[k]).open_time == time;
                assert(k < bars.len() - 1);
                assert(a[k].open_time == time);
            }
        }
        lemma_same_times(a, b);
        assert forall|i: int| 0 <= i < bars.len() implies (#[trigger] bars[i]).open_time
            == other[i].open_time by {
            if i < a.len() {
                assert(a[i].open_time == b[i].open_time);
            }
        }
    }
}

/// Feeds whose bars stand in order can always be aligned, and bar `j` is then the
/// same moment on every one of them.
pub proof fn law_aligned_bars_share_their_time<S>(feeds: Seq<SymbolFeed<S>>)
    requires
        forall|f: int| 0 <= f < feeds.len() ==> in_order((#[trigger] feeds[f]).four_hour@),
    ensures
        alignable(feeds),
        forall|aligned: Seq<SymbolFeed<S>>, f: int, g: int, j: int| #[trigger]
            aligned_from(aligned, feeds) && 0 <= f < feeds.len() && 0 <= g < feeds.len() && 0 <= j
                < aligned[f].four_hour@.len() ==> j < aligned[g].four_hour@.len() && (
            #[trigger] aligned[f].four_hour@[j]).open_time == (
            #[trigger] aligned[g].four_hour@[j]).open_time,
{
    assert forall|f: int, g: int| 0 <= f < feeds.len() && 0 <= g < feeds.len() implies {
        let a = shared_bars(feeds, #[trigger] feeds[f].four_hour@);
        let b = shared_bars(feeds, #[trigger] feeds[g].four_hour@);
        &&& a.len() == b.len()
        &&& forall|j: int| 0 <= j < a.len() ==> (#[trigger] a[j]).open_time == b[j].open_time
    } by {
        let x = feeds[f].four_hour@;
        let y = feeds[g].four_hour@;
        lemma_shared(feeds, x);
        lemma_shared(feeds, y);
        assert forall|time: u64| #[trigger]
            has_time(shared_bars(feeds, x), time) <==> has_time(shared_bars(feeds, y), time) by {
            if on_every_feed(feeds, time) {
                assert(has_time(feeds[f].four_hour@, time));
                assert(has_time(feeds[g].four_hour@, time));
            }
        }
        lemma_same_times(shared_bars(feeds, x), shared_bars(feeds, y));
    }
    assert forall|f: int| 0 <= f < feeds.len() implies shared_bars(
        feeds,
        (#[trigger] feeds[f]).four_hour@,
    ).len() == shared_bars(feeds, feeds[0].four_hour@).len() by {
        assert(feeds[f].four_hour@ == feeds[f].four_hour@ && feeds[0].four_hour@
            == feeds[0].four_hour@);
    }
    assert forall|aligned: Seq<SymbolFeed<S>>, f: int, g: int, j: int| #[trigger]
        aligned_from(aligned, feeds) && 0 <= f < feeds.len() && 0 <= g < feeds.len() && 0 <= j
            < aligned[f].four_hour@.len() implies j < aligned[g].four_hour@.len() && (
    #[trigger] aligned[f].four_hour@[j]).open_time == (
    #[trigger] aligned[g].four_hour@[j]).open_time by {
        assert(aligned[f].four_hour@ == shared_bars(feeds, feeds[f].four_hour@));
        assert(aligned[g].four_hour@ == shared_bars(feeds, feeds[g].four_hour@));
    }
}

/// A bar stays where, and only where, every feed has a bar at its time.
pub proof fn law_alignment_keeps_what_is_shared<S>(
    feeds: Seq<SymbolFeed<S>>,
    aligned: Seq<SymbolFeed<S>>,
    f: int,
    time: u64,
)
    requires
        aligned_from(aligned, feeds),
        0 <= f < feeds.len(),
        in_order(feeds[f].four_hour@),
    ensures
        has_time(aligned[f].four_hour@, time) <==> on_every_feed(feeds, time),
{
    lemma_shared(feeds, feeds[f].four_hour@);
    if on_every_feed(feeds, time) {
        assert(has_time(feeds[f].four_hour@, time));
    }
    assert(aligned[f].four_hour@ == shared_bars(feeds, feeds[f].four_hour@));
    assert(has_time(shared_bars(feeds, feeds[f].four_hour@), time) <==> has_time(
        feeds[f].four_hour@,
        time,
    ) && on_every_feed(feeds, time));
}

/// Who takes part: a feed with at least two hundred and ten daily candles and fifty of four
/// hours. The feeds that do keep their order.
pub proof fn law_who_takes_part<S>(feeds: Seq<SymbolFeed<S>>, feed: SymbolFeed<S>)
    ensures
        eligible(feed) <==> feed.daily@.len() >= 210 && feed.four_hour@.len() >= 50,
        eligible_feeds(Seq::<SymbolFeed<S>>::empty()).len() == 0,
        eligible_feeds(feeds.push(feed)) == if feed.daily@.len() >= 210 && feed.four_hour@.len()
            >= 50 {
            eligible_feeds(feeds).push(feed)
        } else {
            eligible_feeds(feeds)
        },
        MIN_FEEDS == 2,
{
    reveal(Seq::filter);
    assert(feeds.push(feed).drop_last() =~= feeds);
}

} // verus!
