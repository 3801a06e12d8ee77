use vstd::prelude::*;

use crate::model::backtest_result::BacktestResult;
use crate::model::candle_ny::{candle_ny_bounded, spec_bullish, CandleNY};
use crate::model::decimal::{price_bounded, DecimalVec};
use crate::model::position::{position_wf, spec_actual_rr, spec_rr, Position};
use crate::model::position_direction::PositionDirection;
use crate::model::ratio::{ratio_bounded, ratio_ge, ratio_gt, Ratio};
use crate::model::session::{session_contains, Session};
use crate::model::trade::{
    lemma_disjoint_push, spec_from_position, trade_wf, trades_disjoint, trades_open_before_close,
    Trade,
};
use crate::model::trade_result::TradeResult;
use crate::model::trading_model::TradingModel;
use crate::time::{new_york_second_of_day, TIMESTAMP_LIMIT};

use super::lib::{in_session, stop_out_label};

verus! {

/// Largest trigger-search budget, in minutes, the engine accepts; it keeps
/// the time-threshold arithmetic inside `i64` next to `TIMESTAMP_LIMIT`.
pub const DURATION_LIMIT: i64 = 1_000_000_000;

/// The session-range-breakout strategy: a price range is accumulated during
/// a daily session window; after the window closes, a deviation beyond the
/// range followed by a reclaim back inside it opens a position against the
/// deviation, targeting one session range beyond the opposite boundary.
pub struct MacroSoup {
    pub rr_threshold: Ratio,
    pub session: Session,
    pub candles: Vec<CandleNY>,
    pub max_duration_min: i64,
    pub be_threshold: Option<Ratio>,
}

/// The short target: one session range below the session low.
pub open spec fn short_target(session_high: DecimalVec, session_low: DecimalVec) -> DecimalVec {
    DecimalVec((2 * session_low.0 - session_high.0) as i64)
}

/// The long target: one session range above the session high.
pub open spec fn long_target(session_high: DecimalVec, session_low: DecimalVec) -> DecimalVec {
    DecimalVec((2 * session_high.0 - session_low.0) as i64)
}

/// The running extreme beyond a boundary once `price` has wicked past the
/// previous extreme, seeded on the first excursion.
pub open spec fn raise_out_max(out_max: Option<DecimalVec>, high: DecimalVec) -> Option<
    DecimalVec,
> {
    match out_max {
        Some(m) => if high.0 > m.0 {
            Some(high)
        } else {
            Some(m)
        },
        None => Some(high),
    }
}

/// The mirror of `raise_out_max` for the downside excursion.
pub open spec fn lower_out_min(out_min: Option<DecimalVec>, low: DecimalVec) -> Option<
    DecimalVec,
> {
    match out_min {
        Some(m) => if low.0 < m.0 {
            Some(low)
        } else {
            Some(m)
        },
        None => Some(low),
    }
}

/// The trigger search proper, one candle at a time with both running
/// excursion extremes threaded through: the search aborts once a candle
/// opens at or past the time threshold; a bearish close back under the
/// session high after an upside excursion opens a short; a bullish close
/// back over the session low after a downside excursion opens a long.
pub open spec fn ms_trigger_loop(
    candles: Seq<CandleNY>,
    session_high: DecimalVec,
    session_low: DecimalVec,
    time_threshold: int,
    out_max: Option<DecimalVec>,
    out_min: Option<DecimalVec>,
) -> Option<Position>
    decreases candles.len(),
{
    if candles.len() == 0 {
        None
    } else {
        let actual = candles.first();
        if actual.open_time >= time_threshold {
            None
        } else {
            let out_max2 = if actual.high.0 > session_high.0 {
                raise_out_max(out_max, actual.high)
            } else {
                out_max
            };
            if out_max2 is Some && actual.close.0 < session_high.0 && !spec_bullish(actual) {
                Some(
                    Position {
                        direction: PositionDirection::Short,
                        open_time: actual.open_time,
                        entry: actual.close,
                        sl: out_max2->Some_0,
                        tp: short_target(session_high, session_low),
                        at_break_even: false,
                    },
                )
            } else {
                let out_min2 = if actual.low.0 < session_low.0 {
                    lower_out_min(out_min, actual.low)
                } else {
                    out_min
                };
                if out_min2 is Some && actual.close.0 > session_low.0 && spec_bullish(actual) {
                    Some(
                        Position {
                            direction: PositionDirection::Long,
                            open_time: actual.open_time,
                            entry: actual.close,
                            sl: out_min2->Some_0,
                            tp: long_target(session_high, session_low),
                            at_break_even: false,
                        },
                    )
                } else {
                    ms_trigger_loop(
                        candles.drop_first(),
                        session_high,
                        session_low,
                        time_threshold,
                        out_max2,
                        out_min2,
                    )
                }
            }
        }
    }
}

/// The position the trigger search opens, if any: the search runs from the
/// first candle with a time budget of `max_duration_min` minutes measured
/// from that candle's open.
pub open spec fn spec_ms_trigger(
    candles: Seq<CandleNY>,
    session_high: DecimalVec,
    session_low: DecimalVec,
    max_duration_min: int,
) -> Option<Position> {
    if candles.len() == 0 {
        None
    } else {
        ms_trigger_loop(
            candles,
            session_high,
            session_low,
            candles.first().open_time + max_duration_min * 60,
            None,
            None,
        )
    }
}

impl MacroSoup {
    /// Scans the candles after a session for a deviation-and-reclaim of the
    /// session range and returns the position it opens, if any, within the
    /// time budget.
    pub fn trigger_or_invalidation(
        candles: Vec<CandleNY>,
        session_high: DecimalVec,
        session_low: DecimalVec,
        max_duration_min: i64,
    ) -> (r: Option<Position>)
        requires
            forall|i: int| 0 <= i < candles@.len() ==> candle_ny_bounded(#[trigger] candles@[i]),
            price_bounded(session_high),
            price_bounded(session_low),
            0 <= max_duration_min <= DURATION_LIMIT,
        ensures
            r == spec_ms_trigger(candles@, session_high, session_low, max_duration_min as int),
            r matches Some(p) ==> position_wf(p) && p.at_break_even == false,
    {
        find_ms_trigger(&candles, session_high, session_low, max_duration_min)
    }

    /// Scans forward from entry and closes the position at the first candle
    /// that reaches its stop or target; the stop is tested first on each
    /// candle. While the position stays open, a favourable excursion past
    /// `be_threshold` (in risk multiples) promotes it to break-even, which
    /// only relabels a later stop-out.
    pub fn run_trade(
        position: Position,
        candles: Vec<CandleNY>,
        be_threshold: Option<Ratio>,
    ) -> (r: Option<Trade>)
        requires
            position_wf(position),
            forall|i: int| 0 <= i < candles@.len() ==> candle_ny_bounded(#[trigger] candles@[i]),
            be_threshold matches Some(b) ==> ratio_bounded(b),
        ensures
            r == spec_ms_run_trade(position, candles@, be_threshold),
            r matches Some(t) ==> trade_wf(t),
    {
        let mut p = position;
        let mut i: usize = 0;
        proof {
            assert(candles@.skip(0) =~= candles@);
        }
        while i < candles.len()
            invariant
                i <= candles@.len(),
                position_wf(p),
                forall|j: int|
                    0 <= j < candles@.len() ==> candle_ny_bounded(#[trigger] candles@[j]),
                be_threshold matches Some(b) ==> ratio_bounded(b),
                spec_ms_run_trade(p, candles@.skip(i as int), be_threshold)
                    == spec_ms_run_trade(position, candles@, be_threshold),
                p.sl == position.sl && p.entry == position.entry && p.tp == position.tp
                    && p.direction == position.direction,
            decreases candles@.len() - i,
        {
            proof {
                assert(candles@.skip(i as int).first() == candles@[i as int]);
                assert(candles@.skip(i as int).drop_first() =~= candles@.skip(i + 1));
            }
            let actual = candles[i];
            match p.direction {
                PositionDirection::Short => {
                    if p.sl.0 < actual.high.0 {
                        return Some(
                            Trade::from_position(
                                p,
                                actual.open_time,
                                if p.at_break_even {
                                    TradeResult::BreakEven
                                } else {
                                    TradeResult::Expense
                                },
                            ),
                        );
                    }
                    if p.tp.0 > actual.low.0 {
                        return Some(
                            Trade::from_position(p, actual.open_time, TradeResult::Winner),
                        );
                    }
                    if let Some(bet) = be_threshold {
                        if actual.low.0 < p.entry.0 && p.actual_rr(actual.low).gt(bet) {
                            p.move_to_break_even();
                        }
                    }
                },
                PositionDirection::Long => {
                    if p.sl.0 > actual.low.0 {
                        return Some(
                            Trade::from_position(
                                p,
                                actual.open_time,
                                if p.at_break_even {
                                    TradeResult::BreakEven
                                } else {
                                    TradeResult::Expense
                                },
                            ),
                        );
                    }
                    if p.tp.0 < actual.high.0 {
                        return Some(
                            Trade::from_position(p, actual.open_time, TradeResult::Winner),
                        );
                    }
                    if let Some(bet) = be_threshold {
                        if actual.high.0 > p.entry.0 && p.actual_rr(actual.high).gt(bet) {
                            p.move_to_break_even();
                        }
                    }
                },
            }
            i = i + 1;
        }
        None
    }
}

/// The outcome of running an open breakout position over the remaining
/// candles: the stop is tested first (a promoted position stops out as
/// `BreakEven`, an unpromoted one as `Expense`), then the target, then the
/// break-even promotion threshold against the candle's favourable extreme.
pub open spec fn spec_ms_run_trade(
    p: Position,
    candles: Seq<CandleNY>,
    be_threshold: Option<Ratio>,
) -> Option<Trade>
    decreases candles.len(),
{
    if candles.len() == 0 {
        None
    } else {
        let actual = candles.first();
        match p.direction {
            PositionDirection::Short => {
                if p.sl.0 < actual.high.0 {
                    Some(spec_from_position(p, actual.open_time, stop_out_label(p)))
                } else if p.tp.0 > actual.low.0 {
                    Some(spec_from_position(p, actual.open_time, TradeResult::Winner))
                } else {
                    let p2 = if be_threshold matches Some(bet) && actual.low.0 < p.entry.0
                        && ratio_gt(spec_actual_rr(p, actual.low), bet) {
                        Position { at_break_even: true, ..p }
                    } else {
                        p
                    };
                    spec_ms_run_trade(p2, candles.drop_first(), be_threshold)
                }
            },
            PositionDirection::Long => {
                if p.sl.0 > actual.low.0 {
                    Some(spec_from_position(p, actual.open_time, stop_out_label(p)))
                } else if p.tp.0 < actual.high.0 {
                    Some(spec_from_position(p, actual.open_time, TradeResult::Winner))
                } else {
                    let p2 = if be_threshold matches Some(bet) && actual.high.0 > p.entry.0
                        && ratio_gt(spec_actual_rr(p, actual.high), bet) {
                        Position { at_break_even: true, ..p }
                    } else {
                        p
                    };
                    spec_ms_run_trade(p2, candles.drop_first(), be_threshold)
                }
            },
        }
    }
}

/// The suffix of `candles` that strictly follows open time `t`: candles are
/// skipped while their open time is at or before `t`.
pub open spec fn ny_candles_after(candles: Seq<CandleNY>, t: i64) -> Seq<CandleNY>
    decreases candles.len(),
{
    if candles.len() == 0 {
        candles
    } else if candles.first().open_time <= t {
        ny_candles_after(candles.drop_first(), t)
    } else {
        candles
    }
}

fn ny_suffix_after(candles: &Vec<CandleNY>, t: i64) -> (r: Vec<CandleNY>)
    ensures
        r@ == ny_candles_after(candles@, t),
        exists|k: int| 0 <= k <= candles@.len() && r@ == candles@.skip(k),
{
    let mut i: usize = 0;
    proof {
        assert(candles@.skip(0) =~= candles@);
    }
    while i < candles.len() && candles[i].open_time <= t
        invariant
            i <= candles@.len(),
            ny_candles_after(candles@.skip(i as int), t) == ny_candles_after(candles@, t),
        decreases candles@.len() - i,
    {
        proof {
            assert(candles@.skip(i as int).first() == candles@[i as int]);
            assert(candles@.skip(i as int).drop_first() =~= candles@.skip(i + 1));
        }
        i = i + 1;
    }
    proof {
        if i < candles@.len() {
            assert(candles@.skip(i as int).first() == candles@[i as int]);
        }
        assert(ny_candles_after(candles@.skip(i as int), t) == candles@.skip(i as int));
    }
    let mut out: Vec<CandleNY> = Vec::new();
    let ghost start: int = i as int;
    while i < candles.len()
        invariant
            0 <= start <= i <= candles@.len(),
            out@ =~= candles@.subrange(start, i as int),
        decreases candles@.len() - i,
    {
        proof {
            assert(candles@.subrange(start, i + 1) =~= candles@.subrange(start, i as int).push(
                candles@[i as int],
            ));
        }
        out.push(candles[i]);
        i = i + 1;
    }
    proof {
        assert(out@ =~= candles@.skip(start));
    }
    out
}

fn ny_tail(candles: &Vec<CandleNY>, from: usize) -> (r: Vec<CandleNY>)
    requires
        from <= candles@.len(),
    ensures
        r@ == candles@.skip(from as int),
{
    let mut out: Vec<CandleNY> = Vec::new();
    let mut i: usize = from;
    while i < candles.len()
        invariant
            from <= i <= candles@.len(),
            out@ =~= candles@.subrange(from as int, i as int),
        decreases candles@.len() - i,
    {
        proof {
            assert(candles@.subrange(from as int, i + 1) =~= candles@.subrange(
                from as int,
                i as int,
            ).push(candles@[i as int]));
        }
        out.push(candles[i]);
        i = i + 1;
    }
    proof {
        assert(out@ =~= candles@.skip(from as int));
    }
    out
}

/// The engine's whole mutable state between candles: the running session
/// extremes, whether the previous candle was still inside the session, and
/// the finished trades.
pub struct MsState {
    pub session_high: Option<DecimalVec>,
    pub session_low: Option<DecimalVec>,
    pub last_candle_in_session: bool,
    pub trades: Seq<Trade>,
}

/// Fresh state: no session range yet, not inside a session, no trades.
pub open spec fn ms_init() -> MsState {
    MsState { session_high: None, session_low: None, last_candle_in_session: false, trades: Seq::empty() }
}

/// One candle of the forward pass. Inside the session window the candle
/// only widens the running range (the first candle seeds it). The first
/// candle after the window closes launches the trigger search, beginning on
/// that candle itself with the time budget measured from its open; an
/// opened position must meet the risk:reward threshold and then runs to its
/// outcome over the candles after its entry. While a previously recorded
/// trade's exit candle still lies ahead of this candle, the search is
/// suppressed, so at most one position is ever open at a simulated moment.
/// Either way, the range resets for the next day's occurrence.
pub open spec fn ms_step(
    s: MsState,
    candles: Seq<CandleNY>,
    i: int,
    session: Session,
    rr_threshold: Ratio,
    max_duration_min: int,
    be_threshold: Option<Ratio>,
) -> MsState {
    let actual = candles[i];
    if session_contains(session, new_york_second_of_day(actual.open_time as int)) {
        let new_low = match s.session_low {
            Some(l) => if l.0 > actual.low.0 {
                Some(actual.low)
            } else {
                Some(l)
            },
            None => Some(actual.low),
        };
        let new_high = match s.session_high {
            Some(h) => if h.0 < actual.high.0 {
                Some(actual.high)
            } else {
                Some(h)
            },
            None => Some(actual.high),
        };
        MsState {
            session_high: new_high,
            session_low: new_low,
            last_candle_in_session: true,
            trades: s.trades,
        }
    } else if s.last_candle_in_session {
        let trades = match (s.session_high, s.session_low) {
            (Some(sh), Some(sl)) => {
                if s.trades.len() == 0 || s.trades.last().close_time <= actual.open_time {
                    match spec_ms_trigger(candles.skip(i), sh, sl, max_duration_min) {
                        Some(position) => if ratio_ge(spec_rr(position), rr_threshold) {
                            match spec_ms_run_trade(
                                position,
                                ny_candles_after(candles, position.open_time),
                                be_threshold,
                            ) {
                                Some(t) => s.trades.push(t),
                                None => s.trades,
                            }
                        } else {
                            s.trades
                        },
                        None => s.trades,
                    }
                } else {
                    s.trades
                }
            },
            _ => s.trades,
        };
        MsState { session_high: None, session_low: None, last_candle_in_session: false, trades }
    } else {
        s
    }
}

/// The engine state after the first `i` candles have been processed.
pub open spec fn ms_state_at(
    candles: Seq<CandleNY>,
    session: Session,
    rr_threshold: Ratio,
    max_duration_min: int,
    be_threshold: Option<Ratio>,
    i: int,
) -> MsState
    decreases i,
{
    if i <= 0 {
        ms_init()
    } else {
        ms_step(
            ms_state_at(candles, session, rr_threshold, max_duration_min, be_threshold, i - 1),
            candles,
            i - 1,
            session,
            rr_threshold,
            max_duration_min,
            be_threshold,
        )
    }
}

/// A candle series in time order: open times never decrease.
pub open spec fn candles_open_ordered(s: Seq<CandleNY>) -> bool {
    forall|i: int, j: int|
        #![trigger s[i], s[j]]
        0 <= i < j < s.len() ==> s[i].open_time <= s[j].open_time
}

/// A position the trigger search opens sits on one of the scanned candles:
/// its open time is that candle's open time.
proof fn lemma_trigger_opens_on_candle(
    candles: Seq<CandleNY>,
    session_high: DecimalVec,
    session_low: DecimalVec,
    time_threshold: int,
    out_max: Option<DecimalVec>,
    out_min: Option<DecimalVec>,
)
    ensures
        ms_trigger_loop(
            candles,
            session_high,
            session_low,
            time_threshold,
            out_max,
            out_min,
        ) matches Some(p) ==> exists|j: int|
            0 <= j < candles.len() && p.open_time == (#[trigger] candles[j]).open_time,
    decreases candles.len(),
{
    if candles.len() > 0 {
        lemma_trigger_opens_on_candle(
            candles.drop_first(),
            session_high,
            session_low,
            time_threshold,
            if candles.first().high.0 > session_high.0 {
                raise_out_max(out_max, candles.first().high)
            } else {
                out_max
            },
            if candles.first().low.0 < session_low.0 {
                lower_out_min(out_min, candles.first().low)
            } else {
                out_min
            },
        );
        match ms_trigger_loop(candles, session_high, session_low, time_threshold, out_max, out_min) {
            None => {},
            Some(p) => {
                if p.open_time == candles.first().open_time {
                    assert(0 <= 0 < candles.len() && p.open_time == candles[0].open_time);
                } else {
                    let j = choose|j: int|
                        0 <= j < candles.drop_first().len() && p.open_time == (
                        #[trigger] candles.drop_first()[j]).open_time;
                    assert(p.open_time == candles[j + 1].open_time);
                }
            },
        }
    }
}

/// The trade a position runs into keeps the position's open time — exits and
/// break-even promotion never move the entry — and closes on one of the
/// scanned candles.
proof fn lemma_run_trade_keeps_open_time(
    p: Position,
    candles: Seq<CandleNY>,
    be_threshold: Option<Ratio>,
)
    ensures
        spec_ms_run_trade(p, candles, be_threshold) matches Some(t) ==> t.open_time == p.open_time
            && exists|j: int|
            0 <= j < candles.len() && t.close_time == (#[trigger] candles[j]).open_time,
    decreases candles.len(),
{
    if candles.len() > 0 {
        let actual = candles.first();
        let p2_short = if be_threshold matches Some(bet) && actual.low.0 < p.entry.0 && ratio_gt(
            spec_actual_rr(p, actual.low),
            bet,
        ) {
            Position { at_break_even: true, ..p }
        } else {
            p
        };
        let p2_long = if be_threshold matches Some(bet) && actual.high.0 > p.entry.0 && ratio_gt(
            spec_actual_rr(p, actual.high),
            bet,
        ) {
            Position { at_break_even: true, ..p }
        } else {
            p
        };
        lemma_run_trade_keeps_open_time(p2_short, candles.drop_first(), be_threshold);
        lemma_run_trade_keeps_open_time(p2_long, candles.drop_first(), be_threshold);
        match spec_ms_run_trade(p, candles, be_threshold) {
            None => {},
            Some(t) => {
                if t.close_time == actual.open_time {
                    assert(t.close_time == candles[0].open_time);
                } else {
                    let p2 = match p.direction {
                        PositionDirection::Short => p2_short,
                        PositionDirection::Long => p2_long,
                    };
                    let j = choose|j: int|
                        0 <= j < candles.drop_first().len() && t.close_time == (
                        #[trigger] candles.drop_first()[j]).open_time;
                    assert(t.close_time == candles[j + 1].open_time);
                }
            },
        }
    }
}

/// The post-`t` suffix really is a suffix of the series, and its first
/// candle (if any) opens strictly after `t`.
proof fn lemma_candles_after_is_suffix(candles: Seq<CandleNY>, t: i64)
    ensures
        exists|k: int| 0 <= k <= candles.len() && ny_candles_after(candles, t) == candles.skip(k),
        ny_candles_after(candles, t).len() > 0 ==> ny_candles_after(candles, t).first().open_time
            > t,
    decreases candles.len(),
{
    if candles.len() == 0 {
        assert(candles.skip(0) =~= candles);
        assert(ny_candles_after(candles, t) == candles.skip(0));
    } else if candles.first().open_time <= t {
        lemma_candles_after_is_suffix(candles.drop_first(), t);
        let k = choose|k: int|
            0 <= k <= candles.drop_first().len() && ny_candles_after(candles.drop_first(), t)
                == candles.drop_first().skip(k);
        assert(candles.drop_first().skip(k) =~= candles.skip(k + 1));
        assert(ny_candles_after(candles, t) == candles.skip(k + 1));
    } else {
        assert(candles.skip(0) =~= candles);
        assert(ny_candles_after(candles, t) == candles.skip(0));
    }
}

proof fn lemma_ms_intervals(
    candles: Seq<CandleNY>,
    session: Session,
    rr_threshold: Ratio,
    max_duration_min: int,
    be_threshold: Option<Ratio>,
    i: int,
)
    requires
        candles_open_ordered(candles),
        0 <= i <= candles.len(),
    ensures
        trades_disjoint(
            ms_state_at(candles, session, rr_threshold, max_duration_min, be_threshold, i).trades,
        ),
        trades_open_before_close(
            ms_state_at(candles, session, rr_threshold, max_duration_min, be_threshold, i).trades,
        ),
    decreases i,
{
    if i > 0 {
        lemma_ms_intervals(candles, session, rr_threshold, max_duration_min, be_threshold, i - 1);
        let s = ms_state_at(candles, session, rr_threshold, max_duration_min, be_threshold, i - 1);
        let k = i - 1;
        let actual = candles[k];
        let snew = ms_state_at(candles, session, rr_threshold, max_duration_min, be_threshold, i);
        if snew.trades != s.trades {
            // a trade was recorded: the search ran unsuppressed, so the last
            // trade closed by this candle's open, and the new position opens
            // on a candle at or after this one
            let sh = s.session_high->Some_0;
            let sl = s.session_low->Some_0;
            let position = spec_ms_trigger(candles.skip(k), sh, sl, max_duration_min)->Some_0;
            let t = snew.trades.last();
            lemma_run_trade_keeps_open_time(
                position,
                ny_candles_after(candles, position.open_time),
                be_threshold,
            );
            assert(candles.skip(k).len() > 0);
            lemma_trigger_opens_on_candle(
                candles.skip(k),
                sh,
                sl,
                candles.skip(k).first().open_time + max_duration_min * 60,
                None,
                None,
            );
            let j = choose|j: int|
                0 <= j < candles.skip(k).len() && position.open_time == (#[trigger] candles.skip(
                    k,
                )[j]).open_time;
            assert(candles.skip(k)[j] == candles[k + j]);
            assert(candles[k].open_time <= candles[k + j].open_time);
            assert(t.open_time == position.open_time);
            assert(s.trades.len() > 0 ==> s.trades.last().close_time <= actual.open_time);
            lemma_disjoint_push(s.trades, t);
            assert(snew.trades == s.trades.push(t));
            // the trade closes on a candle of the post-entry suffix, which
            // opens strictly after the entry
            let after = ny_candles_after(candles, position.open_time);
            lemma_candles_after_is_suffix(candles, position.open_time);
            let k2 = choose|k2: int| 0 <= k2 <= candles.len() && after == candles.skip(k2);
            let j2 = choose|j2: int|
                0 <= j2 < after.len() && t.close_time == (#[trigger] after[j2]).open_time;
            assert(after[j2] == candles[k2 + j2]);
            assert(after.first() == candles[k2]);
            assert(candles[k2].open_time <= candles[k2 + j2].open_time);
            assert(t.open_time <= t.close_time);
            assert forall|j3: int|
                0 <= j3 < snew.trades.len() implies (#[trigger] snew.trades[j3]).open_time
                <= snew.trades[j3].close_time by {
                if j3 < s.trades.len() {
                    assert(snew.trades[j3] == s.trades[j3]);
                } else {
                    assert(snew.trades[j3] == t);
                }
            }
        }
    }
}

/// At most one position is open at any simulated moment, in the trade
/// interval sense: over an open-time-ordered candle series, each recorded
/// trade closes no later than the next one opens, because a session
/// occurrence whose predecessor trade is still running opens nothing.
pub proof fn lemma_ms_trades_intervals_disjoint(m: &MacroSoup)
    requires
        candles_open_ordered(m.candles@),
    ensures
        trades_disjoint(m.spec_trades()),
        trades_open_before_close(m.spec_trades()),
{
    lemma_ms_intervals(
        m.candles@,
        m.session,
        m.rr_threshold,
        m.max_duration_min as int,
        m.be_threshold,
        m.candles@.len() as int,
    );
}

impl TradingModel for MacroSoup {
    /// Bounded threshold(s), time budget and candle prices and timestamps.
    open spec fn wf(&self) -> bool {
        &&& ratio_bounded(self.rr_threshold)
        &&& 0 <= self.max_duration_min <= DURATION_LIMIT
        &&& (self.be_threshold matches Some(b) ==> ratio_bounded(b))
        &&& forall|i: int|
            0 <= i < self.candles@.len() ==> candle_ny_bounded(#[trigger] self.candles@[i])
    }

    open spec fn spec_trades(&self) -> Seq<Trade> {
        ms_state_at(
            self.candles@,
            self.session,
            self.rr_threshold,
            self.max_duration_min as int,
            self.be_threshold,
            self.candles@.len() as int,
        ).trades
    }

    /// One deterministic forward pass: session candles accumulate the range;
    /// the first candle after each session occurrence launches one trigger
    /// search beginning on that candle, runs at most one position to its
    /// outcome, and resets. An occurrence whose predecessor trade has not
    /// yet reached its exit candle opens nothing.
    fn execute(&self) -> (r: BacktestResult) {
        let mut trades: Vec<Trade> = Vec::new();
        let mut session_high: Option<DecimalVec> = None;
        let mut session_low: Option<DecimalVec> = None;
        let mut last_candle_in_session = false;

        let mut ind: usize = 0;
        proof {
            assert(Seq::<Trade>::empty() =~= trades@);
        }
        while ind < self.candles.len()
            invariant
                ind <= self.candles@.len(),
                ratio_bounded(self.rr_threshold),
                0 <= self.max_duration_min <= DURATION_LIMIT,
                self.be_threshold matches Some(b) ==> ratio_bounded(b),
                forall|i: int|
                    0 <= i < self.candles@.len() ==> candle_ny_bounded(#[trigger] self.candles@[i]),
                ms_state_at(
                    self.candles@,
                    self.session,
                    self.rr_threshold,
                    self.max_duration_min as int,
                    self.be_threshold,
                    ind as int,
                ) == (MsState { session_high, session_low, last_candle_in_session, trades: trades@ }),
                last_candle_in_session ==> session_high is Some && session_low is Some,
                session_high matches Some(h) ==> price_bounded(h),
                session_low matches Some(l) ==> price_bounded(l),
                forall|j: int| 0 <= j < trades@.len() ==> trade_wf(#[trigger] trades@[j]),
            decreases self.candles@.len() - ind,
        {
            let ghost st = ms_state_at(
                self.candles@,
                self.session,
                self.rr_threshold,
                self.max_duration_min as int,
                self.be_threshold,
                ind as int,
            );
            let actual = self.candles[ind];
            if in_session(&self.session, actual.open_time) {
                match session_low {
                    Some(s) => {
                        if s.0 > actual.low.0 {
                            session_low = Some(actual.low);
                        }
                    },
                    None => session_low = Some(actual.low),
                }
                match session_high {
                    Some(s) => {
                        if s.0 < actual.high.0 {
                            session_high = Some(actual.high);
                        }
                    },
                    None => session_high = Some(actual.high),
                }
                last_candle_in_session = true;
            } else if last_candle_in_session {
                let no_open_interval = trades.len() == 0 || trades[trades.len()
                    - 1].close_time <= actual.open_time;
                if no_open_interval {
                    let candles_after_session = ny_tail(&self.candles, ind);
                    proof {
                        assert forall|j: int|
                            0 <= j < candles_after_session@.len() implies candle_ny_bounded(
                            #[trigger] candles_after_session@[j],
                        ) by {
                            assert(candles_after_session@[j] == self.candles@[ind + j]);
                        }
                    }
                    let sh = session_high.unwrap();
                    let sl = session_low.unwrap();
                    if let Some(position) = Self::trigger_or_invalidation(
                        candles_after_session,
                        sh,
                        sl,
                        self.max_duration_min,
                    ) {
                        if position.rr().ge(self.rr_threshold) {
                            let candles_after_entry = ny_suffix_after(
                                &self.candles,
                                position.open_time,
                            );
                            proof {
                                let k = choose|k: int|
                                    0 <= k <= self.candles@.len() && candles_after_entry@
                                        == self.candles@.skip(k);
                                assert forall|j: int|
                                    0 <= j < candles_after_entry@.len() implies candle_ny_bounded(
                                    #[trigger] candles_after_entry@[j],
                                ) by {
                                    assert(candles_after_entry@[j] == self.candles@[k + j]);
                                }
                            }
                            let trade = Self::run_trade(
                                position,
                                candles_after_entry,
                                self.be_threshold,
                            );
                            if let Some(t) = trade {
                                trades.push(t);
                            }
                        }
                    }
                }
                last_candle_in_session = false;
                session_low = None;
                session_high = None;
            }
            proof {
                assert(ms_state_at(
                    self.candles@,
                    self.session,
                    self.rr_threshold,
                    self.max_duration_min as int,
                    self.be_threshold,
                    ind + 1,
                ) == (MsState { session_high, session_low, last_candle_in_session, trades: trades@ }));
            }
            ind = ind + 1;
        }

        BacktestResult { trades }
    }
}

fn find_ms_trigger(
    candles: &Vec<CandleNY>,
    session_high: DecimalVec,
    session_low: DecimalVec,
    max_duration_min: i64,
) -> (r: Option<Position>)
    requires
        forall|i: int| 0 <= i < candles@.len() ==> candle_ny_bounded(#[trigger] candles@[i]),
        price_bounded(session_high),
        price_bounded(session_low),
        0 <= max_duration_min <= DURATION_LIMIT,
    ensures
        r == spec_ms_trigger(candles@, session_high, session_low, max_duration_min as int),
        r matches Some(p) ==> position_wf(p) && p.at_break_even == false,
{
    if candles.len() == 0 {
        return None;
    }
    let time_threshold: i64 = candles[0].open_time + max_duration_min * 60;
    let mut out_max: Option<DecimalVec> = None;
    let mut out_min: Option<DecimalVec> = None;
    let mut i: usize = 0;
    proof {
        assert(candles@.skip(0) =~= candles@);
    }
    while i < candles.len()
        invariant
            i <= candles@.len(),
            forall|j: int| 0 <= j < candles@.len() ==> candle_ny_bounded(#[trigger] candles@[j]),
            price_bounded(session_high),
            price_bounded(session_low),
            out_max matches Some(m) ==> m.0 > session_high.0 && price_bounded(m),
            out_min matches Some(m) ==> m.0 < session_low.0 && price_bounded(m),
            ms_trigger_loop(
                candles@.skip(i as int),
                session_high,
                session_low,
                time_threshold as int,
                out_max,
                out_min,
            ) == spec_ms_trigger(
                candles@,
                session_high,
                session_low,
                max_duration_min as int,
            ),
        decreases candles@.len() - i,
    {
        proof {
            assert(candles@.skip(i as int).first() == candles@[i as int]);
            assert(candles@.skip(i as int).drop_first() =~= candles@.skip(i + 1));
        }
        let actual = candles[i];
        if actual.open_time >= time_threshold {
            return None;
        }
        if actual.high.0 > session_high.0 {
            out_max = match out_max {
                Some(m) => if actual.high.0 > m.0 {
                    Some(actual.high)
                } else {
                    Some(m)
                },
                None => Some(actual.high),
            };
        }
        if let Some(max) = out_max {
            if actual.close.0 < session_high.0 && actual.bearish() {
                return Some(
                    Position {
                        direction: PositionDirection::Short,
                        open_time: actual.open_time,
                        entry: actual.close,
                        sl: max,
                        tp: DecimalVec(2 * session_low.0 - session_high.0),
                        at_break_even: false,
                    },
                );
            }
        }
        if actual.low.0 < session_low.0 {
            out_min = match out_min {
                Some(m) => if actual.low.0 < m.0 {
                    Some(actual.low)
                } else {
                    Some(m)
                },
                None => Some(actual.low),
            };
        }
        if let Some(min) = out_min {
            if actual.close.0 > session_low.0 && actual.bullish() {
                return Some(
                    Position {
                        direction: PositionDirection::Long,
                        open_time: actual.open_time,
                        entry: actual.close,
                        sl: min,
                        tp: DecimalVec(2 * session_high.0 - session_low.0),
                        at_break_even: false,
                    },
                );
            }
        }
        i = i + 1;
    }
    None
}

} // verus!
