use backtest::model::backtest_result::BacktestResult;
use backtest::model::binance_klines_item::BinanceKlinesItem;
use backtest::model::candle_ny::CandleNY;
use backtest::model::candle_stick::CandleStick;
use backtest::model::decimal::DecimalVec;
use backtest::model::position::Position;
use backtest::model::position_direction::PositionDirection;
use backtest::model::ratio::Ratio;
use backtest::model::session::Session;
use backtest::model::trade_result::TradeResult;
use backtest::model::trading_model::TradingModel;
use backtest::model::trigger_type::TriggerType;
use backtest::strategies::lib::{add_to_swings, in_session, run_trade, trigger_mayne, trigger_or_invalidation};
use backtest::strategies::macro_soup::MacroSoup;
use backtest::strategies::sfp::Sfp;
use chrono::{NaiveDateTime, TimeZone};
use chrono_tz::America::New_York;

fn candle(
    open_time: i64,
    open: i32,
    high: i32,
    low: i32,
    close: i32,
    close_time: i64,
) -> CandleStick {
    CandleStick {
        open_time,
        open: DecimalVec::new(open),
        high: DecimalVec::new(high),
        low: DecimalVec::new(low),
        close: DecimalVec::new(close),
        close_time,
    }
}

fn short_position(entry: i32, sl: i32, tp: i32) -> Position {
    Position {
        direction: PositionDirection::Short,
        open_time: 0,
        entry: DecimalVec::new(entry),
        sl: DecimalVec::new(sl),
        tp: DecimalVec::new(tp),
        at_break_even: false,
    }
}

fn date(date_time: &str) -> i64 {
    let naive = NaiveDateTime::parse_from_str(date_time, "%Y-%m-%d %H:%M:%S").unwrap();
    New_York
        .from_local_datetime(&naive)
        .single()
        .expect("unambiguous New York time")
        .timestamp()
}

/// The ratio constructor normalizes the sign into the numerator.
#[test]
fn test_ratio_new_normalizes_sign() {
    assert_eq!(Ratio::new(3, -2), Ratio { num: -3, den: 2 });
    assert_eq!(Ratio::new(3, 2), Ratio { num: 3, den: 2 });
}

/// Ratio ordering is exact rational ordering, independent of representation.
#[test]
fn test_ratio_ordering() {
    assert!(Ratio { num: 5, den: 2 }.ge(Ratio { num: 2, den: 1 }));
    assert!(Ratio { num: 4, den: 2 }.ge(Ratio { num: 2, den: 1 }));
    assert!(!Ratio { num: 4, den: 2 }.gt(Ratio { num: 2, den: 1 }));
    assert!(Ratio { num: -1, den: 2 }.gt(Ratio { num: -1, den: 1 }));
}

/// rr is the exact reward:risk rational: short 100 -> 20 risking to 110 is
/// 80/10.
#[test]
fn test_position_rr_exact() {
    let p = short_position(100, 110, 20);
    assert_eq!(p.rr(), Ratio { num: 80, den: 10 });

    let long = Position {
        direction: PositionDirection::Long,
        open_time: 0,
        entry: DecimalVec::new(100),
        sl: DecimalVec::new(90),
        tp: DecimalVec::new(130),
        at_break_even: false,
    };
    assert_eq!(long.rr(), Ratio { num: 30, den: 10 });
}

/// actual_rr of an adverse price is negative.
#[test]
fn test_actual_rr_adverse() {
    let p = short_position(100, 110, 20);
    assert_eq!(p.actual_rr(DecimalVec::new(105)), Ratio { num: -5, den: 10 });
}

/// An open short whose next candle wicks over the stop closes as an expense.
#[test]
fn test_sweep_reversal_exit_expense() {
    let p = short_position(100, 110, 20);
    let trade = run_trade(p, vec![candle(1, 100, 111, 90, 95, 1)]).unwrap();
    assert_eq!(trade.result, TradeResult::Expense);
    assert_eq!(trade.close_time, 1);
}

/// An open short whose next candle trades under the target closes as a
/// winner.
#[test]
fn test_sweep_reversal_exit_winner() {
    let p = short_position(100, 110, 20);
    let trade = run_trade(p, vec![candle(1, 100, 105, 15, 40, 1)]).unwrap();
    assert_eq!(trade.result, TradeResult::Winner);
}

/// On a gap candle that reaches both the stop and the target, the stop takes
/// priority: the conservative classification is an expense.
#[test]
fn test_gap_candle_stop_priority() {
    let p = short_position(100, 110, 20);
    let trade = run_trade(p, vec![candle(1, 100, 111, 15, 40, 1)]).unwrap();
    assert_eq!(trade.result, TradeResult::Expense);
}

/// A position already promoted to break-even stops out as a break-even, not
/// an expense.
#[test]
fn test_run_trade_promoted_stop_out() {
    let p = Position { at_break_even: true, ..short_position(100, 110, 20) };
    let trade = run_trade(p, vec![candle(1, 100, 111, 90, 95, 1)]).unwrap();
    assert_eq!(trade.result, TradeResult::BreakEven);
}

/// A series that never touches stop or target leaves no trade.
#[test]
fn test_run_trade_stays_open() {
    let p = short_position(100, 110, 20);
    assert!(run_trade(p, vec![candle(1, 100, 105, 50, 90, 1)]).is_none());
}

fn sfp_scenario_data() -> Vec<CandleStick> {
    vec![
        candle(0, 80, 100, 60, 80, 0),
        candle(1, 80, 120, 50, 80, 1),
        candle(2, 80, 110, 55, 80, 2),
        candle(3, 116, 125, 100, 115, 3),
        candle(4, 121, 130, 60, 121, 4),
        candle(5, 90, 95, 70, 90, 5),
    ]
}

/// A full sweep-reversal pass: the second candle is both a swing high and a
/// swing low; the fourth sweeps that high and closes back under it, opening
/// a short (entry 115, stop 125, target 50); the fifth wicks over the stop,
/// closing it as an expense.
#[test]
fn test_sfp_execute_scenario() {
    let model = Sfp { rr_treshold: Ratio { num: 1, den: 1 }, data: sfp_scenario_data() };
    let result = model.execute();
    assert_eq!(result.number_of_trades(), 1);
    assert_eq!(result.result(TradeResult::Expense), 1);
    assert_eq!(result.result(TradeResult::Winner), 0);
    let t = &result.trades[0];
    assert_eq!(t.entry, DecimalVec::new(115));
    assert_eq!(t.sl, DecimalVec::new(125));
    assert_eq!(t.tp, DecimalVec::new(50));
    assert_eq!(t.open_time, 3);
    assert_eq!(t.close_time, 4);
    assert_eq!(result.profit_in_r(), Some(Ratio { num: -1, den: 1 }));
}

/// A candidate below the risk:reward threshold opens nothing.
#[test]
fn test_sfp_respects_rr_threshold() {
    let model = Sfp { rr_treshold: Ratio { num: 100, den: 1 }, data: sfp_scenario_data() };
    let result = model.execute();
    assert_eq!(result.number_of_trades(), 0);
}

/// Re-running the engine on an identical candle sequence and parameters
/// yields an identical trade list.
#[test]
fn test_sfp_execute_deterministic() {
    let a = Sfp { rr_treshold: Ratio { num: 1, den: 1 }, data: sfp_scenario_data() };
    let b = Sfp { rr_treshold: Ratio { num: 1, den: 1 }, data: sfp_scenario_data() };
    assert_eq!(a.execute().trades, b.execute().trades);
    assert_eq!(a.execute().trades, a.execute().trades);
}

fn ms_candle(duration_min: i64, open: i32, high: i32, low: i32, close: i32) -> CandleNY {
    CandleNY {
        open_time: date("2022-09-30 08:50:00") + duration_min * 60,
        open: DecimalVec::new(open),
        high: DecimalVec::new(high),
        low: DecimalVec::new(low),
        close: DecimalVec::new(close),
    }
}

fn ny_session() -> Session {
    Session { start: 8 * 3600 + 50 * 60, end: 9 * 3600 + 10 * 60 }
}

/// A full breakout pass over one session occurrence: the session range is
/// 100/60; the first candle observed after the window closes (open 90,
/// high 110, low 80, close 85) deviates over the high and closes back
/// bearish, so the engine opens a short on that very candle with entry 85,
/// stop 110 and target 20 (one range below the low); the next candle wicks
/// over the stop.
#[test]
fn test_macro_soup_execute_scenario() {
    let candles = vec![
        ms_candle(0, 90, 100, 70, 95),
        ms_candle(10, 90, 95, 60, 85),
        ms_candle(25, 90, 110, 80, 85),
        ms_candle(26, 90, 111, 80, 85),
    ];
    let model = MacroSoup {
        rr_threshold: Ratio { num: 2, den: 1 },
        session: ny_session(),
        candles,
        max_duration_min: 30,
        be_threshold: None,
    };
    let result = model.execute();
    assert_eq!(result.number_of_trades(), 1);
    let t = &result.trades[0];
    assert_eq!(t.result, TradeResult::Expense);
    assert_eq!(t.entry, DecimalVec::new(85));
    assert_eq!(t.sl, DecimalVec::new(110));
    assert_eq!(t.tp, DecimalVec::new(20));
    assert_eq!(t.open_time, date("2022-09-30 09:15:00"));
    assert_eq!(t.close_time, date("2022-09-30 09:16:00"));
    assert_eq!(result.profit_in_r(), Some(Ratio { num: -1, den: 1 }));
}

/// A single session candle seeds the range 100/60; the first post-session
/// candle (open 90, high 110, low 80, close 85) completes the
/// deviation-and-reclaim, so the engine opens a short on it; the next candle
/// trades down through the target 20 and the trade wins.
#[test]
fn test_macro_soup_p7_winner() {
    let candles = vec![
        ms_candle(0, 80, 100, 60, 90),
        ms_candle(25, 90, 110, 80, 85),
        ms_candle(26, 85, 90, 15, 30),
    ];
    let model = MacroSoup {
        rr_threshold: Ratio { num: 2, den: 1 },
        session: ny_session(),
        candles,
        max_duration_min: 30,
        be_threshold: None,
    };
    let result = model.execute();
    assert_eq!(result.number_of_trades(), 1);
    let t = &result.trades[0];
    assert_eq!(t.result, TradeResult::Winner);
    assert_eq!(t.entry, DecimalVec::new(85));
    assert_eq!(t.sl, DecimalVec::new(110));
    assert_eq!(t.tp, DecimalVec::new(20));
    assert_eq!(t.open_time, date("2022-09-30 09:15:00"));
    // risk:reward 65/25, reduced to 13/5
    assert_eq!(result.profit_in_r(), Some(Ratio { num: 13, den: 5 }));
}

/// While a recorded trade's exit candle still lies ahead, a later session
/// occurrence opens nothing: only one position is ever open at a time.
#[test]
fn test_macro_soup_second_occurrence_suppressed() {
    let candles = vec![
        // first occurrence: range 100/60, short opened on the first
        // post-session candle, exit far in the future
        ms_candle(0, 90, 100, 70, 95),
        ms_candle(10, 90, 95, 60, 85),
        ms_candle(25, 90, 110, 80, 85),
        ms_candle(26, 85, 90, 80, 85),
        // next day's occurrence: range 95/65, a candle that would trigger a
        // short while the first trade is still open
        ms_candle(1440, 90, 95, 65, 85),
        ms_candle(1460, 90, 96, 80, 85),
        // the first trade's stop-out arrives only here
        ms_candle(1470, 85, 111, 80, 90),
    ];
    let model = MacroSoup {
        rr_threshold: Ratio { num: 2, den: 1 },
        session: ny_session(),
        candles,
        max_duration_min: 100_000,
        be_threshold: None,
    };
    let result = model.execute();
    assert_eq!(result.number_of_trades(), 1);
    let t = &result.trades[0];
    assert_eq!(t.open_time, date("2022-09-30 09:15:00"));
    assert_eq!(t.close_time, date("2022-10-01 09:20:00"));
    assert_eq!(t.result, TradeResult::Expense);
}

/// Break-even promotion: once the short has moved more than one risk unit
/// in its favour, a later stop-out is classified break-even, not expense.
#[test]
fn test_macro_soup_break_even_promotion() {
    let p = short_position(85, 110, 20);
    let candles = vec![
        // low 50 gives actual rr (85-50)/(110-85) = 35/25 > 1, promoting
        ms_candle(0, 85, 90, 50, 60),
        // stop-out afterwards
        ms_candle(1, 60, 111, 55, 100),
    ];
    let trade =
        MacroSoup::run_trade(p, candles, Some(Ratio { num: 1, den: 1 })).unwrap();
    assert_eq!(trade.result, TradeResult::BreakEven);

    // without a threshold the same stop-out stays an expense
    let p2 = short_position(85, 110, 20);
    let candles2 = vec![ms_candle(0, 85, 90, 50, 60), ms_candle(1, 60, 111, 55, 100)];
    let trade2 = MacroSoup::run_trade(p2, candles2, None).unwrap();
    assert_eq!(trade2.result, TradeResult::Expense);
}

/// Deterministic re-run for the breakout engine.
#[test]
fn test_macro_soup_execute_deterministic() {
    let mk = || MacroSoup {
        rr_threshold: Ratio { num: 2, den: 1 },
        session: ny_session(),
        candles: vec![
            ms_candle(0, 90, 100, 70, 95),
            ms_candle(10, 90, 95, 60, 85),
            ms_candle(25, 90, 95, 80, 85),
            ms_candle(26, 90, 110, 80, 85),
            ms_candle(27, 90, 111, 80, 85),
        ],
        max_duration_min: 30,
        be_threshold: None,
    };
    assert_eq!(mk().execute().trades, mk().execute().trades);
}

/// Summary statistics over a mixed trade list: one winner at 8 R and one
/// expense sum to an exact 7 R.
#[test]
fn test_profit_in_r_mixed() {
    let winner = run_trade(short_position(100, 110, 20), vec![candle(1, 100, 105, 15, 40, 1)])
        .unwrap();
    let expense = run_trade(short_position(100, 110, 20), vec![candle(2, 100, 111, 90, 95, 2)])
        .unwrap();
    let result = BacktestResult { trades: vec![winner, expense] };
    assert_eq!(result.number_of_trades(), 2);
    assert_eq!(result.result(TradeResult::Winner), 1);
    assert_eq!(result.result(TradeResult::Expense), 1);
    assert_eq!(result.result(TradeResult::BreakEven), 0);
    assert_eq!(winner.rr(), Ratio { num: 80, den: 10 });
    // the running sum is kept reduced: 8 R minus 1 R is exactly 7 R
    assert_eq!(result.profit_in_r(), Some(Ratio { num: 7, den: 1 }));
}

/// An empty result has a profit of exactly zero.
#[test]
fn test_profit_in_r_empty() {
    let result = BacktestResult { trades: vec![] };
    assert_eq!(result.profit_in_r(), Some(Ratio { num: 0, den: 1 }));
}

/// The generic trigger scan: a close under the trigger level fires before
/// the invalidation level is touched; a wick over the invalidation level
/// first aborts.
#[test]
fn test_trigger_or_invalidation_short_close() {
    let candles = vec![candle(0, 100, 105, 96, 98, 0), candle(1, 98, 99, 90, 94, 1)];
    let hit = trigger_or_invalidation(
        candles.clone(),
        PositionDirection::Short,
        DecimalVec::new(95),
        DecimalVec::new(110),
        TriggerType::Close,
    );
    assert_eq!(hit, Some(candles[1]));

    let aborted = trigger_or_invalidation(
        vec![candle(0, 100, 111, 96, 98, 0), candle(1, 98, 99, 90, 94, 1)],
        PositionDirection::Short,
        DecimalVec::new(95),
        DecimalVec::new(110),
        TriggerType::Close,
    );
    assert_eq!(aborted, None);
}

/// trigger_mayne opens at the trigger candle's close and runs the trade over
/// the candles after it.
#[test]
fn test_trigger_mayne_records_trade() {
    let candles = vec![
        candle(0, 100, 105, 92, 94, 0),
        candle(1, 94, 125, 90, 96, 1),
    ];
    let mut trades = Vec::new();
    trigger_mayne(
        PositionDirection::Short,
        TriggerType::Close,
        DecimalVec::new(95),
        DecimalVec::new(120),
        DecimalVec::new(35),
        Ratio { num: 2, den: 1 },
        candles,
        &mut trades,
    );
    assert_eq!(trades.len(), 1);
    assert_eq!(trades[0].result, TradeResult::Expense);
    assert_eq!(trades[0].entry, DecimalVec::new(94));
}

/// A candidate whose stop equals its entry has no defined risk:reward and is
/// rejected before a position opens.
#[test]
fn test_trigger_mayne_rejects_zero_risk() {
    let candles = vec![
        candle(0, 100, 105, 92, 94, 0),
        candle(1, 94, 125, 90, 96, 1),
    ];
    let mut trades = Vec::new();
    trigger_mayne(
        PositionDirection::Short,
        TriggerType::Close,
        DecimalVec::new(95),
        DecimalVec::new(94),
        DecimalVec::new(35),
        Ratio { num: 0, den: 1 },
        candles,
        &mut trades,
    );
    assert!(trades.is_empty());
}

/// Session membership at the window's edges: start is inside, end is not.
#[test]
fn test_in_session_boundaries() {
    let s = ny_session();
    assert!(!in_session(&s, date("2022-09-30 08:49:59")));
    assert!(in_session(&s, date("2022-09-30 09:09:59")));
    assert!(!in_session(&s, date("2022-09-30 09:10:00")));
}

/// The frontier evicts on ties: a new swing high equal to a retained one
/// replaces it.
#[test]
fn test_frontier_tie_evicted() {
    let old = candle(0, 0, 30, 0, 0, 0);
    let newer = candle(1, 0, 30, 0, 0, 1);
    let mut swing_highs = vec![old];
    let mut swing_lows = vec![];
    add_to_swings(
        &mut swing_lows,
        &mut swing_highs,
        newer,
        candle(2, 0, 25, 0, 0, 2),
        candle(3, 0, 15, 0, 0, 3),
    );
    assert_eq!(swing_highs, vec![newer]);
}

/// The kline record carries its fields through unchanged.
#[test]
fn test_binance_klines_item_fields() {
    let item = BinanceKlinesItem {
        open_time: 1,
        open: "1.0".to_string(),
        high: "2.0".to_string(),
        low: "0.5".to_string(),
        close: "1.5".to_string(),
        volume: "10".to_string(),
        close_time: 2,
        quote_asset_volume: "15".to_string(),
        number_of_trades: 3,
        taker_buy_base_asset_volume: "4".to_string(),
        taker_buy_quote_asset_volume: "6".to_string(),
        ignore: "0".to_string(),
    };
    assert_eq!(item.open_time, 1);
    assert_eq!(item.close, "1.5");
}
