use vstd::prelude::*;

use crate::model::candle_stick::{candle_stick_bounded, CandleStick};
use crate::model::decimal::DecimalVec;
use crate::model::position::{position_price_bounded, spec_rr, Position};
use crate::model::position_direction::PositionDirection;
use crate::model::ratio::{ratio_bounded, ratio_ge, Ratio};
use crate::model::session::{session_contains, Session};
use crate::model::trade::{spec_from_position, Trade};
use crate::model::trade_result::TradeResult;
use crate::model::trigger_type::TriggerType;
use crate::time::{new_york_second_of_day, ny_second_of_day, TIMESTAMP_LIMIT};

verus! {

/// A local low: strictly below both neighbours. A tie with either neighbour
/// disqualifies the candle.
pub open spec fn spec_is_swing_low(
    actual: CandleStick,
    previous: CandleStick,
    next: CandleStick,
) -> bool {
    actual.low.0 < previous.low.0 && actual.low.0 < next.low.0
}

/// A local high: strictly above both neighbours. A tie with either neighbour
/// disqualifies the candle.
pub open spec fn spec_is_swing_high(
    actual: CandleStick,
    previous: CandleStick,
    next: CandleStick,
) -> bool {
    actual.high.0 > previous.high.0 && actual.high.0 > next.high.0
}

pub fn is_swing_low(actual: CandleStick, previous: CandleStick, next: CandleStick) -> (r: bool)
    ensures
        r == spec_is_swing_low(actual, previous, next),
{
    actual.low.0 < previous.low.0 && actual.low.0 < next.low.0
}

pub fn is_swing_high(actual: CandleStick, previous: CandleStick, next: CandleStick) -> (r: bool)
    ensures
        r == spec_is_swing_high(actual, previous, next),
{
    actual.high.0 > previous.high.0 && actual.high.0 > next.high.0
}

/// A candle series in time order: close times never decrease.
pub open spec fn candles_close_ordered(s: Seq<CandleStick>) -> bool {
    forall|i: int, j: int|
        #![trigger s[i], s[j]]
        0 <= i < j < s.len() ==> s[i].close_time <= s[j].close_time
}

/// Entries that survive the arrival of swing high `c`: highs strictly above it.
pub open spec fn high_keep(c: CandleStick) -> spec_fn(CandleStick) -> bool {
    |x: CandleStick| x.high.0 > c.high.0
}

/// Entries that survive the arrival of swing low `c`: lows strictly below it.
pub open spec fn low_keep(c: CandleStick) -> spec_fn(CandleStick) -> bool {
    |x: CandleStick| x.low.0 < c.low.0
}

/// The high frontier after a new swing high arrives: every retained entry
/// whose high is less than or equal to the newcomer's is evicted, then the
/// newcomer is appended.
pub open spec fn high_frontier_insert(highs: Seq<CandleStick>, c: CandleStick) -> Seq<
    CandleStick,
> {
    highs.filter(high_keep(c)).push(c)
}

/// The low frontier after a new swing low arrives: every retained entry
/// whose low is greater than or equal to the newcomer's is evicted, then the
/// newcomer is appended.
pub open spec fn low_frontier_insert(lows: Seq<CandleStick>, c: CandleStick) -> Seq<CandleStick> {
    lows.filter(low_keep(c)).push(c)
}

/// Both frontiers after one candle is classified against its neighbours: a
/// frontier changes only if the candle is the matching kind of swing, and a
/// degenerate candle may update both.
pub open spec fn spec_add_to_swings(
    lows: Seq<CandleStick>,
    highs: Seq<CandleStick>,
    actual: CandleStick,
    previous: CandleStick,
    next: CandleStick,
) -> (Seq<CandleStick>, Seq<CandleStick>) {
    let new_highs = if spec_is_swing_high(actual, previous, next) {
        high_frontier_insert(highs, actual)
    } else {
        highs
    };
    let new_lows = if spec_is_swing_low(actual, previous, next) {
        low_frontier_insert(lows, actual)
    } else {
        lows
    };
    (new_lows, new_highs)
}

/// Keeps exactly the candles satisfying `pred`, in order. `pred` must agree
/// with the spec predicate `keep` on every candle.
fn retain_candles<F: Fn(CandleStick) -> bool>(
    v: &mut Vec<CandleStick>,
    pred: F,
    Ghost(keep): Ghost<spec_fn(CandleStick) -> bool>,
)
    requires
        forall|c: CandleStick| #[trigger] call_requires(pred, (c,)),
        forall|c: CandleStick, b: bool| call_ensures(pred, (c,), b) ==> b == keep(c),
    ensures
        final(v)@ == old(v)@.filter(keep),
{
    let mut kept: Vec<CandleStick> = Vec::new();
    let mut i: usize = 0;
    proof {
        reveal(Seq::filter);
        assert(kept@ =~= v@.take(0int).filter(keep));
    }
    while i < v.len()
        invariant
            i <= v@.len(),
            kept@ == v@.take(i as int).filter(keep),
            forall|c: CandleStick| #[trigger] call_requires(pred, (c,)),
            forall|c: CandleStick, b: bool| call_ensures(pred, (c,), b) ==> b == keep(c),
        decreases v@.len() - i,
    {
        proof {
            reveal(Seq::filter);
            assert(v@.take(i + 1).drop_last() =~= v@.take(i as int));
            assert(v@.take(i + 1).last() == v@[i as int]);
        }
        if pred(v[i]) {
            kept.push(v[i]);
        }
        i = i + 1;
    }
    proof {
        assert(v@.take(v@.len() as int) =~= v@);
    }
    *v = kept;
}

/// Classifies `actual` against its two neighbours and applies the frontier
/// eviction rule to whichever frontier it qualifies for.
pub fn add_to_swings(
    swing_lows: &mut Vec<CandleStick>,
    swing_highs: &mut Vec<CandleStick>,
    actual: CandleStick,
    previous: CandleStick,
    next: CandleStick,
)
    ensures
        (final(swing_lows)@, final(swing_highs)@) == spec_add_to_swings(
            old(swing_lows)@,
            old(swing_highs)@,
            actual,
            previous,
            next,
        ),
{
    if is_swing_high(actual, previous, next) {
        let bar = actual.high.0;
        let pred = |c: CandleStick| -> (r: bool)
            ensures
                r == (c.high.0 > bar),
            { c.high.0 > bar };
        retain_candles(swing_highs, pred, Ghost(high_keep(actual)));
        swing_highs.push(actual);
    }
    if is_swing_low(actual, previous, next) {
        let bar = actual.low.0;
        let pred = |c: CandleStick| -> (r: bool)
            ensures
                r == (c.low.0 < bar),
            { c.low.0 < bar };
        retain_candles(swing_lows, pred, Ghost(low_keep(actual)));
        swing_lows.push(actual);
    }
}

/// The first candle (oldest first) that `p` accepts against its two
/// neighbours. The first and last candle have only one neighbour and are
/// never tested.
pub fn first_swing<F: Fn(CandleStick, CandleStick, CandleStick) -> bool>(
    candles: Vec<CandleStick>,
    p: F,
) -> (r: Option<CandleStick>)
    requires
        forall|a: CandleStick, b: CandleStick, c: CandleStick|
            #[trigger] call_requires(p, (a, b, c)),
    ensures
        r matches Some(c) ==> exists|i: int|
            {
                &&& 0 < i < candles@.len() - 1
                &&& c == candles@[i]
                &&& call_ensures(p, (candles@[i], candles@[i - 1], #[trigger] candles@[i + 1]), true)
                &&& forall|j: int|
                    0 < j < i ==> call_ensures(
                        p,
                        (candles@[j], candles@[j - 1], #[trigger] candles@[j + 1]),
                        false,
                    )
            },
        r is None ==> forall|i: int|
            0 < i < candles@.len() - 1 ==> call_ensures(
                p,
                (candles@[i], candles@[i - 1], #[trigger] candles@[i + 1]),
                false,
            ),
{
    let mut ind: usize = 0;
    while ind < candles.len()
        invariant
            ind <= candles@.len(),
            forall|a: CandleStick, b: CandleStick, c: CandleStick|
                #[trigger] call_requires(p, (a, b, c)),
            forall|i: int|
                0 < i < ind && i < candles@.len() - 1 ==> call_ensures(
                    p,
                    (candles@[i], candles@[i - 1], #[trigger] candles@[i + 1]),
                    false,
                ),
        decreases candles@.len() - ind,
    {
        if ind > 0 && ind < candles.len() - 1 {
            let actual = candles[ind];
            let previous = candles[ind - 1];
            let next = candles[ind + 1];
            if p(actual, previous, next) {
                return Some(actual);
            }
        }
        ind = ind + 1;
    }
    None
}

/// True of a retained swing high that `actual` swept: the swing is older,
/// `actual` wicked above it and closed back below it.
pub open spec fn sfp_high_match(x: CandleStick, actual: CandleStick) -> bool {
    x.close_time < actual.close_time && x.high.0 < actual.high.0 && x.high.0 > actual.close.0
}

/// True of a retained swing low that `actual` swept: the swing is older,
/// `actual` wicked below it and closed back above it.
pub open spec fn sfp_low_match(x: CandleStick, actual: CandleStick) -> bool {
    x.close_time < actual.close_time && x.low.0 > actual.low.0 && x.low.0 < actual.close.0
}

/// The first retained swing high (oldest, in insertion order) that `actual`
/// swept, if any.
pub open spec fn spec_find_sfp_high(actual: CandleStick, highs: Seq<CandleStick>) -> Option<
    CandleStick,
>
    decreases highs.len(),
{
    if highs.len() == 0 {
        None
    } else if sfp_high_match(highs.first(), actual) {
        Some(highs.first())
    } else {
        spec_find_sfp_high(actual, highs.drop_first())
    }
}

/// The first retained swing low (oldest, in insertion order) that `actual`
/// swept, if any.
pub open spec fn spec_find_sfp_low(actual: CandleStick, lows: Seq<CandleStick>) -> Option<
    CandleStick,
>
    decreases lows.len(),
{
    if lows.len() == 0 {
        None
    } else if sfp_low_match(lows.first(), actual) {
        Some(lows.first())
    } else {
        spec_find_sfp_low(actual, lows.drop_first())
    }
}

pub fn find_sfp_high(actual: CandleStick, swing_highs: &Vec<CandleStick>) -> (r: Option<
    &CandleStick,
>)
    ensures
        match r {
            Some(c) => spec_find_sfp_high(actual, swing_highs@) == Some(*c),
            None => spec_find_sfp_high(actual, swing_highs@) is None,
        },
{
    let mut i: usize = 0;
    proof {
        assert(swing_highs@.skip(0) =~= swing_highs@);
    }
    while i < swing_highs.len()
        invariant
            i <= swing_highs@.len(),
            spec_find_sfp_high(actual, swing_highs@.skip(i as int)) == spec_find_sfp_high(
                actual,
                swing_highs@,
            ),
        decreases swing_highs@.len() - i,
    {
        proof {
            assert(swing_highs@.skip(i as int).first() == swing_highs@[i as int]);
            assert(swing_highs@.skip(i as int).drop_first() =~= swing_highs@.skip(i + 1));
        }
        let x = &swing_highs[i];
        if x.close_time < actual.close_time && x.high.0 < actual.high.0 && x.high.0
            > actual.close.0 {
            return Some(x);
        }
        i = i + 1;
    }
    None
}

pub fn find_sfp_low(actual: CandleStick, swing_lows: &Vec<CandleStick>) -> (r: Option<
    &CandleStick,
>)
    ensures
        match r {
            Some(c) => spec_find_sfp_low(actual, swing_lows@) == Some(*c),
            None => spec_find_sfp_low(actual, swing_lows@) is None,
        },
{
    let mut i: usize = 0;
    proof {
        assert(swing_lows@.skip(0) =~= swing_lows@);
    }
    while i < swing_lows.len()
        invariant
            i <= swing_lows@.len(),
            spec_find_sfp_low(actual, swing_lows@.skip(i as int)) == spec_find_sfp_low(
                actual,
                swing_lows@,
            ),
        decreases swing_lows@.len() - i,
    {
        proof {
            assert(swing_lows@.skip(i as int).first() == swing_lows@[i as int]);
            assert(swing_lows@.skip(i as int).drop_first() =~= swing_lows@.skip(i + 1));
        }
        let x = &swing_lows[i];
        if x.close_time < actual.close_time && x.low.0 > actual.low.0 && x.low.0 < actual.close.0 {
            return Some(x);
        }
        i = i + 1;
    }
    None
}

/// The high frontier's characteristic shape: strictly falling highs from the
/// oldest (most dominant) entry to the newest.
pub open spec fn highs_descending(s: Seq<CandleStick>) -> bool {
    forall|i: int, j: int|
        #![trigger s[i], s[j]]
        0 <= i < j < s.len() ==> s[i].high.0 > s[j].high.0
}

/// The low frontier's characteristic shape: strictly rising lows from the
/// oldest (most dominant) entry to the newest.
pub open spec fn lows_ascending(s: Seq<CandleStick>) -> bool {
    forall|i: int, j: int|
        #![trigger s[i], s[j]]
        0 <= i < j < s.len() ==> s[i].low.0 < s[j].low.0
}

proof fn lemma_filter_keeps_descending(s: Seq<CandleStick>, pred: spec_fn(CandleStick) -> bool)
    requires
        highs_descending(s),
    ensures
        highs_descending(s.filter(pred)),
    decreases s.len(),
{
    reveal(Seq::filter);
    if s.len() > 0 {
        assert(highs_descending(s.drop_last()));
        lemma_filter_keeps_descending(s.drop_last(), pred);
        let f = s.filter(pred);
        let fd = s.drop_last().filter(pred);
        if pred(s.last()) {
            lemma_filter_subset(s.drop_last(), pred);
            assert forall|i: int, j: int|
                #![trigger f[i], f[j]]
                0 <= i < j < f.len() implies f[i].high.0 > f[j].high.0 by {
                if j < fd.len() {
                    assert(fd[i].high.0 > fd[j].high.0);
                } else {
                    assert(f[j] == s.last());
                    assert(s.drop_last().contains(fd[i]));
                    let k = choose|k: int|
                        0 <= k < s.drop_last().len() && s.drop_last()[k] == fd[i];
                    assert(s[k] == fd[i]);
                    assert(s[k].high.0 > s[s.len() - 1].high.0);
                }
            }
        }
    }
}

proof fn lemma_filter_keeps_ascending(s: Seq<CandleStick>, pred: spec_fn(CandleStick) -> bool)
    requires
        lows_ascending(s),
    ensures
        lows_ascending(s.filter(pred)),
    decreases s.len(),
{
    reveal(Seq::filter);
    if s.len() > 0 {
        assert(lows_ascending(s.drop_last()));
        lemma_filter_keeps_ascending(s.drop_last(), pred);
        let f = s.filter(pred);
        let fd = s.drop_last().filter(pred);
        if pred(s.last()) {
            lemma_filter_subset(s.drop_last(), pred);
            assert forall|i: int, j: int|
                #![trigger f[i], f[j]]
                0 <= i < j < f.len() implies f[i].low.0 < f[j].low.0 by {
                if j < fd.len() {
                    assert(fd[i].low.0 < fd[j].low.0);
                } else {
                    assert(f[j] == s.last());
                    assert(s.drop_last().contains(fd[i]));
                    let k = choose|k: int|
                        0 <= k < s.drop_last().len() && s.drop_last()[k] == fd[i];
                    assert(s[k] == fd[i]);
                    assert(s[k].low.0 < s[s.len() - 1].low.0);
                }
            }
        }
    }
}

/// Frontier ordering law: a frontier in its characteristic shape keeps it
/// across an insert — retained highs still fall strictly from the oldest
/// entry to the just-appended newcomer, so recency decreases while
/// historical dominance increases toward the front; the low frontier
/// mirrors this.
pub proof fn lemma_frontier_order(
    highs: Seq<CandleStick>,
    lows: Seq<CandleStick>,
    c: CandleStick,
)
    requires
        highs_descending(highs),
        lows_ascending(lows),
    ensures
        highs_descending(high_frontier_insert(highs, c)),
        lows_ascending(low_frontier_insert(lows, c)),
{
    lemma_filter_keeps_descending(highs, high_keep(c));
    lemma_filter_keeps_ascending(lows, low_keep(c));
    lemma_frontier_eviction(highs, lows, c);
    let fh = high_frontier_insert(highs, c);
    assert forall|i: int, j: int|
        #![trigger fh[i], fh[j]]
        0 <= i < j < fh.len() implies fh[i].high.0 > fh[j].high.0 by {
        if j < fh.len() - 1 {
            assert(highs.filter(high_keep(c))[i].high.0 > highs.filter(high_keep(c))[j].high.0);
        }
    }
    let fl = low_frontier_insert(lows, c);
    assert forall|i: int, j: int|
        #![trigger fl[i], fl[j]]
        0 <= i < j < fl.len() implies fl[i].low.0 < fl[j].low.0 by {
        if j < fl.len() - 1 {
            assert(lows.filter(low_keep(c))[i].low.0 < lows.filter(low_keep(c))[j].low.0);
        }
    }
}

/// Everything a filter keeps is an element of the original sequence.
pub proof fn lemma_filter_subset<A>(s: Seq<A>, pred: spec_fn(A) -> bool)
    ensures
        forall|i: int|
            0 <= i < s.filter(pred).len() ==> s.contains(#[trigger] s.filter(pred)[i]),
    decreases s.len(),
{
    reveal(Seq::filter);
    if s.len() > 0 {
        lemma_filter_subset(s.drop_last(), pred);
        assert forall|i: int| 0 <= i < s.filter(pred).len() implies s.contains(
            #[trigger] s.filter(pred)[i],
        ) by {
            let f = s.filter(pred);
            let fd = s.drop_last().filter(pred);
            if i < fd.len() {
                assert(fd[i] == f[i]);
                let k = choose|k: int| 0 <= k < s.drop_last().len() && s.drop_last()[k] == fd[i];
                assert(s[k] == f[i]);
            } else {
                assert(f[i] == s.last());
            }
        }
    }
}

/// A found sweep of the high frontier really is a sweep: in particular the
/// candle wicked above its own close.
pub proof fn lemma_sfp_high_found(actual: CandleStick, highs: Seq<CandleStick>)
    ensures
        spec_find_sfp_high(actual, highs) matches Some(x) ==> sfp_high_match(x, actual),
    decreases highs.len(),
{
    if highs.len() > 0 {
        lemma_sfp_high_found(actual, highs.drop_first());
    }
}

/// A found sweep of the low frontier really is a sweep: in particular the
/// candle wicked below its own close.
pub proof fn lemma_sfp_low_found(actual: CandleStick, lows: Seq<CandleStick>)
    ensures
        spec_find_sfp_low(actual, lows) matches Some(x) ==> sfp_low_match(x, actual),
    decreases lows.len(),
{
    if lows.len() > 0 {
        lemma_sfp_low_found(actual, lows.drop_first());
    }
}

/// Whether `x` lies inside `candle`'s time window.
pub open spec fn within_candle(x: CandleStick, candle: CandleStick) -> bool {
    x.open_time >= candle.open_time && x.close_time <= candle.close_time
}

/// The first candle of `data`, in data order, inside `candle`'s time window
/// that `p` accepts: every earlier candle was out of the window or rejected.
/// Some candle in the window must be one that `p` cannot reject.
pub fn find_candle<F: Fn(CandleStick, CandleStick) -> bool>(
    candle: CandleStick,
    data: &Vec<CandleStick>,
    p: F,
) -> (r: &CandleStick)
    requires
        forall|a: CandleStick, b: CandleStick| #[trigger] call_requires(p, (a, b)),
        exists|k: int|
            0 <= k < data@.len() && within_candle(#[trigger] data@[k], candle) && !call_ensures(
                p,
                (data@[k], candle),
                false,
            ),
    ensures
        within_candle(*r, candle),
        call_ensures(p, (*r, candle), true),
        exists|i: int|
            {
                &&& 0 <= i < data@.len()
                &&& *r == data@[i]
                &&& within_candle(#[trigger] data@[i], candle)
                &&& call_ensures(p, (data@[i], candle), true)
                &&& forall|j: int|
                    0 <= j < i ==> !within_candle(#[trigger] data@[j], candle) || call_ensures(
                        p,
                        (data@[j], candle),
                        false,
                    )
            },
{
    let mut i: usize = 0;
    while i < data.len()
        invariant
            i <= data@.len(),
            forall|a: CandleStick, b: CandleStick| #[trigger] call_requires(p, (a, b)),
            exists|k: int|
                i <= k < data@.len() && within_candle(#[trigger] data@[k], candle)
                    && !call_ensures(p, (data@[k], candle), false),
            forall|j: int|
                0 <= j < i ==> !within_candle(#[trigger] data@[j], candle) || call_ensures(
                    p,
                    (data@[j], candle),
                    false,
                ),
        decreases data@.len() - i,
    {
        let x = data[i];
        if x.open_time >= candle.open_time && x.close_time <= candle.close_time {
            if p(x, candle) {
                return &data[i];
            }
        }
        i = i + 1;
    }
    proof {
        assert(false);
    }
    &data[0]
}

/// The first candle that crosses `trigger_level` in the trade direction
/// (against the candle's close or wick, per `trigger_type`) before any
/// candle touches `invalidation_level` on the adverse side; `None` if the
/// invalidation comes first or the series runs out.
pub open spec fn spec_trigger_or_invalidation(
    candles: Seq<CandleStick>,
    direction: PositionDirection,
    trigger_level: DecimalVec,
    invalidation_level: DecimalVec,
    trigger_type: TriggerType,
) -> Option<CandleStick>
    decreases candles.len(),
{
    if candles.len() == 0 {
        None
    } else {
        let actual = candles.first();
        match direction {
            PositionDirection::Short => {
                let cmp = match trigger_type {
                    TriggerType::Close => actual.close,
                    TriggerType::Wick => actual.low,
                };
                if cmp.0 < trigger_level.0 {
                    Some(actual)
                } else if actual.high.0 >= invalidation_level.0 {
                    None
                } else {
                    spec_trigger_or_invalidation(
                        candles.drop_first(),
                        direction,
                        trigger_level,
                        invalidation_level,
                        trigger_type,
                    )
                }
            },
            PositionDirection::Long => {
                let cmp = match trigger_type {
                    TriggerType::Close => actual.close,
                    TriggerType::Wick => actual.high,
                };
                if cmp.0 > trigger_level.0 {
                    Some(actual)
                } else if actual.low.0 <= invalidation_level.0 {
                    None
                } else {
                    spec_trigger_or_invalidation(
                        candles.drop_first(),
                        direction,
                        trigger_level,
                        invalidation_level,
                        trigger_type,
                    )
                }
            },
        }
    }
}

fn find_trigger(
    candles: &Vec<CandleStick>,
    direction: PositionDirection,
    trigger_level: DecimalVec,
    invalidation_level: DecimalVec,
    trigger_type: TriggerType,
) -> (r: Option<CandleStick>)
    ensures
        r == spec_trigger_or_invalidation(
            candles@,
            direction,
            trigger_level,
            invalidation_level,
            trigger_type,
        ),
{
    let mut i: usize = 0;
    proof {
        assert(candles@.skip(0) =~= candles@);
    }
    while i < candles.len()
        invariant
            i <= candles@.len(),
            spec_trigger_or_invalidation(
                candles@.skip(i as int),
                direction,
                trigger_level,
                invalidation_level,
                trigger_type,
            ) == spec_trigger_or_invalidation(
                candles@,
                direction,
                trigger_level,
                invalidation_level,
                trigger_type,
            ),
        decreases candles@.len() - i,
    {
        proof {
            assert(candles@.skip(i as int).first() == candles@[i as int]);
            assert(candles@.skip(i as int).drop_first() =~= candles@.skip(i + 1));
        }
        let actual = candles[i];
        match direction {
            PositionDirection::Short => {
                let cmp = match trigger_type {
                    TriggerType::Close => actual.close,
                    TriggerType::Wick => actual.low,
                };
                if cmp.0 < trigger_level.0 {
                    return Some(actual);
                }
                if actual.high.0 >= invalidation_level.0 {
                    return None;
                }
            },
            PositionDirection::Long => {
                let cmp = match trigger_type {
                    TriggerType::Close => actual.close,
                    TriggerType::Wick => actual.high,
                };
                if cmp.0 > trigger_level.0 {
                    return Some(actual);
                }
                if actual.low.0 <= invalidation_level.0 {
                    return None;
                }
            },
        }
        i = i + 1;
    }
    None
}

pub fn trigger_or_invalidation(
    candles: Vec<CandleStick>,
    direction: PositionDirection,
    trigger_level: DecimalVec,
    invalidation_level: DecimalVec,
    trigger_type: TriggerType,
) -> (r: Option<CandleStick>)
    ensures
        r == spec_trigger_or_invalidation(
            candles@,
            direction,
            trigger_level,
            invalidation_level,
            trigger_type,
        ),
{
    find_trigger(&candles, direction, trigger_level, invalidation_level, trigger_type)
}

/// The label a stop-out earns: an expense, unless the position was already
/// promoted to break-even.
pub open spec fn stop_out_label(position: Position) -> TradeResult {
    if position.at_break_even {
        TradeResult::BreakEven
    } else {
        TradeResult::Expense
    }
}

/// The trade an open position closes into, scanned candle by candle: a
/// stop-out is an `Expense` (`BreakEven` if the position was promoted), a
/// target touch a `Winner`, and on a gap candle that satisfies both the stop
/// takes priority (the conservative reading). `None` if the series ends with
/// the position still open.
pub open spec fn spec_run_trade(position: Position, candles: Seq<CandleStick>) -> Option<Trade>
    decreases candles.len(),
{
    if candles.len() == 0 {
        None
    } else {
        let actual = candles.first();
        match position.direction {
            PositionDirection::Short => {
                if position.sl.0 < actual.high.0 {
                    Some(spec_from_position(position, actual.close_time, stop_out_label(position)))
                } else if position.tp.0 > actual.low.0 {
                    Some(spec_from_position(position, actual.close_time, TradeResult::Winner))
                } else {
                    spec_run_trade(position, candles.drop_first())
                }
            },
            PositionDirection::Long => {
                if position.sl.0 > actual.low.0 {
                    Some(spec_from_position(position, actual.close_time, stop_out_label(position)))
                } else if position.tp.0 < actual.high.0 {
                    Some(spec_from_position(position, actual.close_time, TradeResult::Winner))
                } else {
                    spec_run_trade(position, candles.drop_first())
                }
            },
        }
    }
}

/// Scans forward from entry and closes the position at the first candle
/// that reaches its stop or target; the stop is tested first on each candle.
pub fn run_trade(position: Position, candles: Vec<CandleStick>) -> (r: Option<Trade>)
    ensures
        r == spec_run_trade(position, candles@),
{
    let mut i: usize = 0;
    proof {
        assert(candles@.skip(0) =~= candles@);
    }
    while i < candles.len()
        invariant
            i <= candles@.len(),
            spec_run_trade(position, candles@.skip(i as int)) == spec_run_trade(
                position,
                candles@,
            ),
        decreases candles@.len() - i,
    {
        proof {
            assert(candles@.skip(i as int).first() == candles@[i as int]);
            assert(candles@.skip(i as int).drop_first() =~= candles@.skip(i + 1));
        }
        let actual = candles[i];
        match position.direction {
            PositionDirection::Short => {
                if position.sl.0 < actual.high.0 {
                    return Some(
                        Trade::from_position(
                            position,
                            actual.close_time,
                            if position.at_break_even {
                                TradeResult::BreakEven
                            } else {
                                TradeResult::Expense
                            },
                        ),
                    );
                }
                if position.tp.0 > actual.low.0 {
                    return Some(
                        Trade::from_position(position, actual.close_time, TradeResult::Winner),
                    );
                }
            },
            PositionDirection::Long => {
                if position.sl.0 > actual.low.0 {
                    return Some(
                        Trade::from_position(
                            position,
                            actual.close_time,
                            if position.at_break_even {
                                TradeResult::BreakEven
                            } else {
                                TradeResult::Expense
                            },
                        ),
                    );
                }
                if position.tp.0 < actual.high.0 {
                    return Some(
                        Trade::from_position(position, actual.close_time, TradeResult::Winner),
                    );
                }
            },
        }
        i = i + 1;
    }
    None
}

/// The suffix of `candles` that strictly follows open time `t`: candles are
/// skipped while their open time is at or before `t`.
pub open spec fn candles_after(candles: Seq<CandleStick>, t: i64) -> Seq<CandleStick>
    decreases candles.len(),
{
    if candles.len() == 0 {
        candles
    } else if candles.first().open_time <= t {
        candles_after(candles.drop_first(), t)
    } else {
        candles
    }
}

fn suffix_after(candles: &Vec<CandleStick>, t: i64) -> (r: Vec<CandleStick>)
    ensures
        r@ == candles_after(candles@, t),
{
    let mut i: usize = 0;
    proof {
        assert(candles@.skip(0) =~= candles@);
    }
    while i < candles.len() && candles[i].open_time <= t
        invariant
            i <= candles@.len(),
            candles_after(candles@.skip(i as int), t) == candles_after(candles@, t),
        decreases candles@.len() - i,
    {
        proof {
            assert(candles@.skip(i as int).first() == candles@[i as int]);
            assert(candles@.skip(i as int).drop_first() =~= candles@.skip(i + 1));
        }
        i = i + 1;
    }
    proof {
        if i < candles@.len() {
            assert(candles@.skip(i as int).first() == candles@[i as int]);
        }
        assert(candles_after(candles@.skip(i as int), t) == candles@.skip(i as int));
    }
    let mut out: Vec<CandleStick> = Vec::new();
    let ghost start: int = i as int;
    while i < candles.len()
        invariant
            0 <= start <= i <= candles@.len(),
            out@ =~= candles@.subrange(start, i as int),
        decreases candles@.len() - i,
    {
        proof {
            assert(candles@.subrange(start, i + 1) =~= candles@.subrange(start, i as int).push(
                candles@[i as int],
            ));
        }
        out.push(candles[i]);
        i = i + 1;
    }
    proof {
        assert(out@ =~= candles@.skip(start));
    }
    out
}

/// What `trigger_mayne` appends: if the trigger fires before invalidation,
/// a position is opened at the trigger candle's close with the given stop
/// and target; a zero-risk candidate (stop equal to entry) is rejected, a
/// candidate below the risk:reward threshold is discarded, and otherwise the
/// position runs to its outcome over the candles after the trigger candle.
pub open spec fn spec_trigger_mayne(
    direction: PositionDirection,
    trigger_type: TriggerType,
    trigger_level: DecimalVec,
    sl: DecimalVec,
    tp: DecimalVec,
    rr_threshold: Ratio,
    candles: Seq<CandleStick>,
) -> Option<Trade> {
    match spec_trigger_or_invalidation(candles, direction, trigger_level, sl, trigger_type) {
        None => None,
        Some(tc) => {
            let position = Position {
                direction,
                open_time: tc.close_time,
                entry: tc.close,
                sl,
                tp,
                at_break_even: false,
            };
            if position.sl.0 == position.entry.0 {
                None
            } else if ratio_ge(spec_rr(position), rr_threshold) {
                spec_run_trade(position, candles_after(candles, tc.open_time))
            } else {
                None
            }
        },
    }
}

/// The zero-or-one trades an option holds, as a sequence.
pub open spec fn trade_opt_seq(o: Option<Trade>) -> Seq<Trade> {
    match o {
        Some(t) => seq![t],
        None => Seq::empty(),
    }
}

/// Watches for `trigger_level` to be crossed before `sl` invalidates the
/// setup, opens a position at the trigger candle's close, and appends the
/// finished trade, if any, to `trades`. A candidate whose stop equals its
/// entry has no defined risk:reward and is rejected outright.
pub fn trigger_mayne(
    direction: PositionDirection,
    trigger_type: TriggerType,
    trigger_level: DecimalVec,
    sl: DecimalVec,
    tp: DecimalVec,
    rr_threshold: Ratio,
    candles: Vec<CandleStick>,
    trades: &mut Vec<Trade>,
)
    requires
        position_price_bounded(sl),
        position_price_bounded(tp),
        ratio_bounded(rr_threshold),
        forall|i: int| 0 <= i < candles@.len() ==> candle_stick_bounded(#[trigger] candles@[i]),
    ensures
        final(trades)@ == old(trades)@ + trade_opt_seq(
            spec_trigger_mayne(
                direction,
                trigger_type,
                trigger_level,
                sl,
                tp,
                rr_threshold,
                candles@,
            ),
        ),
{
    let trigger_candle = find_trigger(&candles, direction, trigger_level, sl, trigger_type);
    if let Some(tc) = trigger_candle {
        proof {
            lemma_trigger_is_element(candles@, direction, trigger_level, sl, trigger_type);
        }
        let position = Position {
            direction,
            open_time: tc.close_time,
            entry: tc.close,
            sl,
            tp,
            at_break_even: false,
        };
        if position.sl.0 == position.entry.0 {
            proof {
                assert(final(trades)@ =~= old(trades)@ + Seq::<Trade>::empty());
            }
            return ;
        }
        if position.rr().ge(rr_threshold) {
            let candles_after_entry = suffix_after(&candles, tc.open_time);
            let trade = run_trade(position, candles_after_entry);
            if let Some(t) = trade {
                trades.push(t);
                proof {
                    assert(final(trades)@ =~= old(trades)@ + seq![t]);
                }
                return ;
            }
        }
    }
    proof {
        assert(final(trades)@ =~= old(trades)@ + Seq::<Trade>::empty());
    }
}

/// A fired trigger is one of the scanned candles, so its prices inherit the
/// series' bounds.
proof fn lemma_trigger_is_element(
    candles: Seq<CandleStick>,
    direction: PositionDirection,
    trigger_level: DecimalVec,
    invalidation_level: DecimalVec,
    trigger_type: TriggerType,
)
    ensures
        spec_trigger_or_invalidation(
            candles,
            direction,
            trigger_level,
            invalidation_level,
            trigger_type,
        ) matches Some(tc) ==> candles.contains(tc),
    decreases candles.len(),
{
    if candles.len() > 0 {
        lemma_trigger_is_element(
            candles.drop_first(),
            direction,
            trigger_level,
            invalidation_level,
            trigger_type,
        );
        assert forall|x: CandleStick| candles.drop_first().contains(x) implies candles.contains(
            x,
        ) by {
            let j = choose|j: int|
                0 <= j < candles.drop_first().len() && candles.drop_first()[j] == x;
            assert(candles[j + 1] == x);
        }
        assert(candles.contains(candles.first()));
    }
}

/// Whether a timestamp's New York time of day falls inside the session
/// window `[start, end)`.
pub fn in_session(session: &Session, open_time: i64) -> (r: bool)
    requires
        -TIMESTAMP_LIMIT <= open_time <= TIMESTAMP_LIMIT,
    ensures
        r == session_contains(*session, new_york_second_of_day(open_time as int)),
{
    let s = ny_second_of_day(open_time);
    session.start <= s && s < session.end
}

/// Frontier eviction law: after swing high `c` is inserted, every retained
/// entry except `c` itself (the last) has a high strictly above `c`'s, so no
/// retained entry has a high at or below the newcomer's; the low frontier
/// mirrors this with strictly lower lows.
pub proof fn lemma_frontier_eviction(
    highs: Seq<CandleStick>,
    lows: Seq<CandleStick>,
    c: CandleStick,
)
    ensures
        high_frontier_insert(highs, c).last() == c,
        forall|i: int|
            0 <= i < high_frontier_insert(highs, c).len() - 1 ==> (#[trigger] high_frontier_insert(
                highs,
                c,
            )[i]).high.0 > c.high.0,
        low_frontier_insert(lows, c).last() == c,
        forall|i: int|
            0 <= i < low_frontier_insert(lows, c).len() - 1 ==> (#[trigger] low_frontier_insert(
                lows,
                c,
            )[i]).low.0 < c.low.0,
{
    assert forall|i: int| 0 <= i < high_frontier_insert(highs, c).len() - 1 implies (
    #[trigger] high_frontier_insert(highs, c)[i]).high.0 > c.high.0 by {
        highs.lemma_filter_pred(high_keep(c), i);
        assert(high_frontier_insert(highs, c)[i] == highs.filter(high_keep(c))[i]);
    }
    assert forall|i: int| 0 <= i < low_frontier_insert(lows, c).len() - 1 implies (
    #[trigger] low_frontier_insert(lows, c)[i]).low.0 < c.low.0 by {
        lows.lemma_filter_pred(low_keep(c), i);
        assert(low_frontier_insert(lows, c)[i] == lows.filter(low_keep(c))[i]);
    }
}

} // verus!

