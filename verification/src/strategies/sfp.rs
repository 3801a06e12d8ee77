use vstd::prelude::*;

use crate::model::backtest_result::BacktestResult;
use crate::model::candle_stick::{candle_stick_bounded, CandleStick};
use crate::model::position::{position_wf, spec_rr, Position};
use crate::model::position_direction::PositionDirection;
use crate::model::ratio::{ratio_bounded, ratio_ge, Ratio};
use crate::model::trade::{
    lemma_disjoint_push, spec_from_position, trade_wf, trades_disjoint, trades_open_before_close,
    Trade,
};
use crate::model::trade_result::TradeResult;
use crate::model::trading_model::TradingModel;

use super::lib::{
    add_to_swings, find_sfp_high, find_sfp_low, high_keep, highs_descending,
    lemma_filter_subset, lemma_frontier_order, lemma_sfp_high_found, lemma_sfp_low_found,
    candles_close_ordered, low_keep, lows_ascending, spec_add_to_swings, spec_find_sfp_high,
    spec_find_sfp_low,
    stop_out_label,
    spec_is_swing_high, spec_is_swing_low,
};

verus! {

/// The sweep-reversal ("swing failure pattern") strategy: a wick beyond a
/// retained swing extreme followed by a close back inside it opens a
/// position against the sweep, targeting the most recent opposite swing.
pub struct Sfp {
    pub rr_treshold: Ratio,
    pub data: Vec<CandleStick>,
}

/// The engine's whole mutable state between candles: the two swing
/// frontiers, the single open-position slot, and the finished trades.
pub struct SfpState {
    pub swing_lows: Seq<CandleStick>,
    pub swing_highs: Seq<CandleStick>,
    pub position: Option<Position>,
    pub trades: Seq<Trade>,
}

/// Fresh state: empty frontiers, no open position, no trades.
pub open spec fn sfp_init() -> SfpState {
    SfpState {
        swing_lows: Seq::empty(),
        swing_highs: Seq::empty(),
        position: None,
        trades: Seq::empty(),
    }
}

/// Exit test against one candle: the stop is tested before the target, so a
/// gap candle satisfying both closes on its stop. A close empties the
/// position slot and appends the trade.
pub open spec fn sfp_exit_step(s: SfpState, actual: CandleStick) -> SfpState {
    match s.position {
        None => s,
        Some(pos) => match pos.direction {
            PositionDirection::Short => {
                if pos.sl.0 < actual.high.0 {
                    SfpState {
                        position: None,
                        trades: s.trades.push(
                            spec_from_position(pos, actual.close_time, stop_out_label(pos)),
                        ),
                        ..s
                    }
                } else if pos.tp.0 > actual.low.0 {
                    SfpState {
                        position: None,
                        trades: s.trades.push(
                            spec_from_position(pos, actual.close_time, TradeResult::Winner),
                        ),
                        ..s
                    }
                } else {
                    s
                }
            },
            PositionDirection::Long => {
                if pos.sl.0 > actual.low.0 {
                    SfpState {
                        position: None,
                        trades: s.trades.push(
                            spec_from_position(pos, actual.close_time, stop_out_label(pos)),
                        ),
                        ..s
                    }
                } else if pos.tp.0 < actual.high.0 {
                    SfpState {
                        position: None,
                        trades: s.trades.push(
                            spec_from_position(pos, actual.close_time, TradeResult::Winner),
                        ),
                        ..s
                    }
                } else {
                    s
                }
            },
        },
    }
}

/// The short candidate a sweep of the high frontier proposes: entry at the
/// candle's close, stop at its high, target at the most recent swing low.
pub open spec fn sfp_short_candidate(s: SfpState, actual: CandleStick) -> Position {
    Position {
        direction: PositionDirection::Short,
        open_time: actual.close_time,
        entry: actual.close,
        sl: actual.high,
        tp: s.swing_lows.last().low,
        at_break_even: false,
    }
}

/// The long candidate a sweep of the low frontier proposes: entry at the
/// candle's close, stop at its low, target at the most recent swing high.
pub open spec fn sfp_long_candidate(s: SfpState, actual: CandleStick) -> Position {
    Position {
        direction: PositionDirection::Long,
        open_time: actual.close_time,
        entry: actual.close,
        sl: actual.low,
        tp: s.swing_highs.last().high,
        at_break_even: false,
    }
}

/// Signal test against one candle, evaluated only while no position is
/// open: a short entry is tried first, then a long one; a candidate below
/// the risk:reward threshold is discarded. The frontiers still hold only
/// swings from before this candle.
pub open spec fn sfp_signal_step(s: SfpState, actual: CandleStick, rr_threshold: Ratio) -> SfpState {
    let s1 = if s.position is None && spec_find_sfp_high(actual, s.swing_highs) is Some
        && s.swing_lows.len() > 0 && ratio_ge(spec_rr(sfp_short_candidate(s, actual)), rr_threshold) {
        SfpState { position: Some(sfp_short_candidate(s, actual)), ..s }
    } else {
        s
    };
    if s1.position is None && spec_find_sfp_low(actual, s1.swing_lows) is Some
        && s1.swing_highs.len() > 0 && ratio_ge(
        spec_rr(sfp_long_candidate(s1, actual)),
        rr_threshold,
    ) {
        SfpState { position: Some(sfp_long_candidate(s1, actual)), ..s1 }
    } else {
        s1
    }
}

/// One candle of the forward pass, at index `i`: exits first, then signal
/// evaluation, then the frontier update — so a candle never triggers a
/// signal against its own just-established swing status. The first and last
/// candle have only one neighbour and are skipped.
pub open spec fn sfp_step(s: SfpState, data: Seq<CandleStick>, i: int, rr_threshold: Ratio) -> SfpState {
    if 0 < i < data.len() - 1 {
        let actual = data[i];
        let s1 = sfp_exit_step(s, actual);
        let s2 = sfp_signal_step(s1, actual, rr_threshold);
        let frontiers = spec_add_to_swings(
            s2.swing_lows,
            s2.swing_highs,
            actual,
            data[i - 1],
            data[i + 1],
        );
        SfpState { swing_lows: frontiers.0, swing_highs: frontiers.1, ..s2 }
    } else {
        s
    }
}

/// The engine state after the first `i` candles have been processed.
pub open spec fn sfp_state_at(data: Seq<CandleStick>, rr_threshold: Ratio, i: int) -> SfpState
    decreases i,
{
    if i <= 0 {
        sfp_init()
    } else {
        sfp_step(sfp_state_at(data, rr_threshold, i - 1), data, i - 1, rr_threshold)
    }
}

/// Positions this engine opens are well-formed and trades stay well-formed:
/// invariants of the state the pass maintains.
pub open spec fn sfp_state_wf(s: SfpState) -> bool {
    &&& (forall|j: int|
        0 <= j < s.swing_lows.len() ==> candle_stick_bounded(#[trigger] s.swing_lows[j]))
    &&& (forall|j: int|
        0 <= j < s.swing_highs.len() ==> candle_stick_bounded(#[trigger] s.swing_highs[j]))
    &&& (s.position matches Some(p) ==> position_wf(p))
    &&& (forall|j: int| 0 <= j < s.trades.len() ==> trade_wf(#[trigger] s.trades[j]))
}

/// The timing facts the interval argument carries through the pass: trades
/// so far have pairwise disjoint intervals, the last trade closed no later
/// than the last processed candle, and an open position opened after every
/// recorded trade closed and no later than the last processed candle.
pub open spec fn sfp_intervals_inv(s: SfpState, data: Seq<CandleStick>, i: int) -> bool {
    &&& trades_disjoint(s.trades)
    &&& trades_open_before_close(s.trades)
    &&& (s.trades.len() > 0 ==> 2 <= i && s.trades.last().close_time <= data[i - 1].close_time)
    &&& (s.position matches Some(p) ==> {
        &&& (s.trades.len() > 0 ==> s.trades.last().close_time <= p.open_time)
        &&& 2 <= i
        &&& p.open_time <= data[i - 1].close_time
    })
}

/// What one exit step can do: leave the state alone, or close the open
/// position into one appended trade whose interval starts at the position's
/// open and ends at this candle's close.
proof fn lemma_exit_step_intervals(s: SfpState, actual: CandleStick)
    requires
        trades_disjoint(s.trades),
        s.position matches Some(p) ==> (s.trades.len() > 0 ==> s.trades.last().close_time
            <= p.open_time),
    ensures
        ({
            let s1 = sfp_exit_step(s, actual);
            s1 == s || {
                &&& s.position is Some
                &&& s1.position is None
                &&& s1.trades.len() == s.trades.len() + 1
                &&& s1.trades == s.trades.push(s1.trades.last())
                &&& s1.trades.last().open_time == s.position->Some_0.open_time
                &&& s1.trades.last().close_time == actual.close_time
                &&& trades_disjoint(s1.trades)
            }
        }),
{
    match s.position {
        None => {},
        Some(pos) => {
            let s1 = sfp_exit_step(s, actual);
            if s1 != s {
                lemma_disjoint_push(s.trades, s1.trades.last());
            }
        },
    }
}

/// What one signal step can do: leave the state alone, or fill the empty
/// position slot with a candidate that opens at this candle's close.
proof fn lemma_signal_step_intervals(s: SfpState, actual: CandleStick, rr_threshold: Ratio)
    ensures
        ({
            let s2 = sfp_signal_step(s, actual, rr_threshold);
            &&& s2.trades == s.trades
            &&& (s2.position == s.position || (s.position is None && s2.position is Some
                && s2.position->Some_0.open_time == actual.close_time))
        }),
{
}

proof fn lemma_sfp_intervals(data: Seq<CandleStick>, rr_threshold: Ratio, i: int)
    requires
        candles_close_ordered(data),
        0 <= i <= data.len(),
    ensures
        sfp_intervals_inv(sfp_state_at(data, rr_threshold, i), data, i),
    decreases i,
{
    if i > 0 {
        lemma_sfp_intervals(data, rr_threshold, i - 1);
        let s = sfp_state_at(data, rr_threshold, i - 1);
        let k = i - 1;
        if 0 < k < data.len() - 1 {
            let actual = data[k];
            let s1 = sfp_exit_step(s, actual);
            let s2 = sfp_signal_step(s1, actual, rr_threshold);
            lemma_exit_step_intervals(s, actual);
            lemma_signal_step_intervals(s1, actual, rr_threshold);
            if s1.trades != s.trades {
                // the freshly closed trade opened while the position was
                // held, at or before the previous candle's close
                assert(s1.trades.last().open_time <= s1.trades.last().close_time);
                assert forall|j: int|
                    0 <= j < s1.trades.len() implies (#[trigger] s1.trades[j]).open_time
                    <= s1.trades[j].close_time by {
                    if j < s.trades.len() {
                        assert(s1.trades[j] == s.trades[j]);
                    } else {
                        assert(s1.trades[j] == s1.trades.last());
                    }
                }
            }
            assert(sfp_state_at(data, rr_threshold, i).trades == s2.trades);
            assert(sfp_state_at(data, rr_threshold, i).position == s2.position);
            if s.trades.len() > 0 {
                assert(data[i - 2].close_time <= data[i - 1].close_time);
            }
            // after the exit, the last trade (if any) closed at or before
            // this candle's close, which is where any fresh position opens
            if s1.trades.len() > 0 {
                assert(s1.trades.last().close_time <= data[k].close_time);
            }
        } else {
            assert(sfp_state_at(data, rr_threshold, i) == s);
            if s.trades.len() > 0 {
                assert(data[i - 2].close_time <= data[i - 1].close_time);
            }
            if s.position is Some {
                assert(data[i - 2].close_time <= data[i - 1].close_time);
            }
        }
    }
}

/// At most one position is open at any simulated moment, in the trade
/// interval sense: over a close-time-ordered candle series, each recorded
/// trade closes no later than the next one opens. Exits are tested before
/// signals, so a slot freed on a candle may be refilled on that same
/// candle, never earlier.
pub proof fn lemma_sfp_trades_intervals_disjoint(m: &Sfp)
    requires
        candles_close_ordered(m.data@),
    ensures
        trades_disjoint(m.spec_trades()),
        trades_open_before_close(m.spec_trades()),
{
    lemma_sfp_intervals(m.data@, m.rr_treshold, m.data@.len() as int);
}

/// Frontier shape invariant of the whole pass: at every index, the retained
/// swing highs fall strictly from oldest to newest and the retained swing
/// lows rise strictly — every entry dominates everything inserted after it.
pub proof fn lemma_sfp_frontiers_ordered(data: Seq<CandleStick>, rr_threshold: Ratio, i: int)
    ensures
        highs_descending(sfp_state_at(data, rr_threshold, i).swing_highs),
        lows_ascending(sfp_state_at(data, rr_threshold, i).swing_lows),
    decreases i,
{
    if i > 0 {
        lemma_sfp_frontiers_ordered(data, rr_threshold, i - 1);
        let s = sfp_state_at(data, rr_threshold, i - 1);
        if 0 < i - 1 < data.len() - 1 {
            let actual = data[i - 1];
            let s2 = sfp_signal_step(sfp_exit_step(s, actual), actual, rr_threshold);
            assert(s2.swing_highs == s.swing_highs && s2.swing_lows == s.swing_lows);
            lemma_frontier_order(s2.swing_highs, s2.swing_lows, actual);
        }
    }
}

/// At most one position is open at any simulated index: the engine state
/// carries a single optional position slot, and the signal step can fill it
/// only while it is empty — an already open position is never overridden by
/// a later signal, in either direction.
pub proof fn lemma_single_position(s: SfpState, actual: CandleStick, rr_threshold: Ratio)
    ensures
        s.position is Some ==> sfp_signal_step(s, actual, rr_threshold).position == s.position,
{
}

/// An open position survives a candle that reaches neither its stop nor its
/// target: the exit step closes it only on a stop or target touch, and the
/// whole step never swaps one open position for another without closing it
/// first.
pub proof fn lemma_position_persists(s: SfpState, actual: CandleStick)
    ensures
        s.position matches Some(p) ==> (sfp_exit_step(s, actual).position == s.position
            || sfp_exit_step(s, actual).position is None),
        s.position matches Some(p) ==> (sfp_exit_step(s, actual).position is None <==> (
        match p.direction {
            PositionDirection::Short => p.sl.0 < actual.high.0 || p.tp.0 > actual.low.0,
            PositionDirection::Long => p.sl.0 > actual.low.0 || p.tp.0 < actual.high.0,
        })),
{
}

/// A frontier insert keeps every entry bounded when the survivors and the
/// newcomer are bounded.
proof fn lemma_insert_bounded(old_seq: Seq<CandleStick>, c: CandleStick, keep: spec_fn(CandleStick) -> bool)
    requires
        forall|j: int| 0 <= j < old_seq.len() ==> candle_stick_bounded(#[trigger] old_seq[j]),
        candle_stick_bounded(c),
    ensures
        forall|j: int|
            0 <= j < old_seq.filter(keep).push(c).len() ==> candle_stick_bounded(
                #[trigger] old_seq.filter(keep).push(c)[j],
            ),
{
    lemma_filter_subset(old_seq, keep);
    assert forall|j: int| 0 <= j < old_seq.filter(keep).push(c).len() implies candle_stick_bounded(
        #[trigger] old_seq.filter(keep).push(c)[j],
    ) by {
        let f = old_seq.filter(keep);
        if j < f.len() {
            assert(old_seq.contains(f[j]));
            let k = choose|k: int| 0 <= k < old_seq.len() && old_seq[k] == f[j];
            assert(candle_stick_bounded(old_seq[k]));
        }
    }
}

impl TradingModel for Sfp {
    /// Bounded threshold and bounded candle prices.
    open spec fn wf(&self) -> bool {
        &&& ratio_bounded(self.rr_treshold)
        &&& forall|i: int|
            0 <= i < self.data@.len() ==> candle_stick_bounded(#[trigger] self.data@[i])
    }

    open spec fn spec_trades(&self) -> Seq<Trade> {
        sfp_state_at(self.data@, self.rr_treshold, self.data@.len() as int).trades
    }

    /// One deterministic forward pass: at each inner candle, exits are
    /// tested first (stop before target), then sweep signals may open at
    /// most one position, then the swing frontiers absorb the candle.
    fn execute(&self) -> (r: BacktestResult)
    {
        let mut swing_lows: Vec<CandleStick> = Vec::new();
        let mut swing_highs: Vec<CandleStick> = Vec::new();
        let mut position: Option<Position> = None;
        let mut trades: Vec<Trade> = Vec::new();

        let mut ind: usize = 0;
        proof {
            assert(Seq::<CandleStick>::empty() =~= swing_lows@);
            assert(Seq::<CandleStick>::empty() =~= swing_highs@);
            assert(Seq::<Trade>::empty() =~= trades@);
        }
        while ind < self.data.len()
            invariant
                ind <= self.data@.len(),
                ratio_bounded(self.rr_treshold),
                forall|i: int|
                    0 <= i < self.data@.len() ==> candle_stick_bounded(#[trigger] self.data@[i]),
                sfp_state_at(self.data@, self.rr_treshold, ind as int) == (SfpState {
                    swing_lows: swing_lows@,
                    swing_highs: swing_highs@,
                    position,
                    trades: trades@,
                }),
                sfp_state_wf(
                    SfpState {
                        swing_lows: swing_lows@,
                        swing_highs: swing_highs@,
                        position,
                        trades: trades@,
                    },
                ),
            decreases self.data@.len() - ind,
        {
            let ghost st = sfp_state_at(self.data@, self.rr_treshold, ind as int);
            if ind > 0 && ind < self.data.len() - 1 {
                let actual = self.data[ind];
                let previous = self.data[ind - 1];
                let next = self.data[ind + 1];

                if position.is_some() {
                    let trade = position.unwrap();
                    match trade.direction {
                        PositionDirection::Short => {
                            if trade.sl.0 < actual.high.0 {
                                trades.push(
                                    Trade::from_position(
                                        trade,
                                        actual.close_time,
                                        if trade.at_break_even {
                                            TradeResult::BreakEven
                                        } else {
                                            TradeResult::Expense
                                        },
                                    ),
                                );
                                position = None;
                            } else if trade.tp.0 > actual.low.0 {
                                trades.push(
                                    Trade::from_position(
                                        trade,
                                        actual.close_time,
                                        TradeResult::Winner,
                                    ),
                                );
                                position = None;
                            }
                        },
                        PositionDirection::Long => {
                            if trade.sl.0 > actual.low.0 {
                                trades.push(
                                    Trade::from_position(
                                        trade,
                                        actual.close_time,
                                        if trade.at_break_even {
                                            TradeResult::BreakEven
                                        } else {
                                            TradeResult::Expense
                                        },
                                    ),
                                );
                                position = None;
                            } else if trade.tp.0 < actual.high.0 {
                                trades.push(
                                    Trade::from_position(
                                        trade,
                                        actual.close_time,
                                        TradeResult::Winner,
                                    ),
                                );
                                position = None;
                            }
                        },
                    }
                }
                let ghost s1 = sfp_exit_step(st, actual);
                proof {
                    assert(s1 == (SfpState {
                        swing_lows: swing_lows@,
                        swing_highs: swing_highs@,
                        position,
                        trades: trades@,
                    }));
                }

                let sfp_high = find_sfp_high(actual, &swing_highs).is_some();
                if sfp_high && position.is_none() && swing_lows.len() > 0 {
                    let prev_low = swing_lows[swing_lows.len() - 1];
                    let position_candidate = Position {
                        direction: PositionDirection::Short,
                        open_time: actual.close_time,
                        entry: actual.close,
                        sl: actual.high,
                        tp: prev_low.low,
                        at_break_even: false,
                    };
                    proof {
                        lemma_sfp_high_found(actual, swing_highs@);
                    }
                    if position_candidate.rr().ge(self.rr_treshold) {
                        position = Some(position_candidate);
                    }
                }
                let ghost s2a = if s1.position is None && spec_find_sfp_high(actual, s1.swing_highs) is Some
                    && s1.swing_lows.len() > 0 && ratio_ge(
                    spec_rr(sfp_short_candidate(s1, actual)),
                    self.rr_treshold,
                ) {
                    SfpState { position: Some(sfp_short_candidate(s1, actual)), ..s1 }
                } else {
                    s1
                };
                proof {
                    assert(s2a == (SfpState {
                        swing_lows: swing_lows@,
                        swing_highs: swing_highs@,
                        position,
                        trades: trades@,
                    }));
                }

                let sfp_low = find_sfp_low(actual, &swing_lows).is_some();
                if sfp_low && position.is_none() && swing_highs.len() > 0 {
                    let prev_high = swing_highs[swing_highs.len() - 1];
                    let position_candidate = Position {
                        direction: PositionDirection::Long,
                        open_time: actual.close_time,
                        entry: actual.close,
                        sl: actual.low,
                        tp: prev_high.high,
                        at_break_even: false,
                    };
                    proof {
                        lemma_sfp_low_found(actual, swing_lows@);
                    }
                    if position_candidate.rr().ge(self.rr_treshold) {
                        position = Some(position_candidate);
                    }
                }
                let ghost s2 = sfp_signal_step(s1, actual, self.rr_treshold);
                proof {
                    assert(s2 == (SfpState {
                        swing_lows: swing_lows@,
                        swing_highs: swing_highs@,
                        position,
                        trades: trades@,
                    }));
                }

                add_to_swings(&mut swing_lows, &mut swing_highs, actual, previous, next);
                proof {
                    if spec_is_swing_high(actual, previous, next) {
                        lemma_insert_bounded(s2.swing_highs, actual, high_keep(actual));
                    }
                    if spec_is_swing_low(actual, previous, next) {
                        lemma_insert_bounded(s2.swing_lows, actual, low_keep(actual));
                    }
                    assert(sfp_state_at(self.data@, self.rr_treshold, ind + 1) == (SfpState {
                        swing_lows: swing_lows@,
                        swing_highs: swing_highs@,
                        position,
                        trades: trades@,
                    }));
                }
            }
            ind = ind + 1;
        }

        BacktestResult { trades }
    }
}

} // verus!
