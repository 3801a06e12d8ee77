use backtest::model::candle_ny::CandleNY;
use backtest::model::decimal::DecimalVec;
use backtest::model::position::Position;
use backtest::model::position_direction::PositionDirection;
use backtest::strategies::macro_soup::MacroSoup;
use chrono::{NaiveDateTime, TimeZone};
use chrono_tz::America::New_York;

fn date(date_time: &str) -> i64 {
    let naive = NaiveDateTime::parse_from_str(date_time, "%Y-%m-%d %H:%M:%S").unwrap();
    New_York
        .from_local_datetime(&naive)
        .single()
        .expect("unambiguous New York time")
        .timestamp()
}

fn candlestick(duration: i64, open: i32, high: i32, low: i32, close: i32) -> CandleNY {
    CandleNY {
        open_time: date("2022-09-30 08:50:00") + duration * 60,
        open: DecimalVec::new(open),
        high: DecimalVec::new(high),
        low: DecimalVec::new(low),
        close: DecimalVec::new(close),
    }
}

fn session_high() -> DecimalVec {
    DecimalVec::new(100)
}

fn session_low() -> DecimalVec {
    DecimalVec::new(60)
}

fn trigger(candles: Vec<CandleNY>) -> Option<Position> {
    MacroSoup::trigger_or_invalidation(candles, session_high(), session_low(), 4)
}

#[test]
fn test_trigger_or_invalidation_empty_candles() {
    assert!(trigger(vec![]).is_none());
}

#[test]
fn test_trigger_or_invalidation_inside_candles() {
    assert!(trigger(vec![
        candlestick(0, 90, 95, 80, 85),
        candlestick(1, 90, 100, 80, 85),
        candlestick(2, 90, 85, 80, 85),
        candlestick(3, 90, 99, 90, 99),
        candlestick(4, 90, 110, 80, 85),
        candlestick(5, 90, 95, 50, 55),
    ])
    .is_none());
}

#[test]
fn test_trigger_or_invalidation_first_candle_wick_up_bearish() {
    let result = trigger(vec![candlestick(0, 90, 110, 80, 85)]);
    let expected = Position {
        direction: PositionDirection::Short,
        open_time: date("2022-09-30 08:50:00"),
        entry: DecimalVec::new(85),
        sl: DecimalVec::new(110),
        tp: DecimalVec::new(20),
        at_break_even: false,
    };
    assert_eq!(result, Some(expected));
}

#[test]
fn test_trigger_or_invalidation_first_candle_wick_up_bullish() {
    assert!(trigger(vec![candlestick(0, 90, 110, 80, 95)]).is_none());
}

#[test]
fn test_trigger_or_invalidation_deviation_up_with_downclose_inside() {
    let result = trigger(vec![
        candlestick(0, 90, 95, 80, 85),
        candlestick(1, 85, 110, 90, 105),
        candlestick(2, 105, 120, 95, 100),
        candlestick(3, 100, 105, 90, 95),
    ]);
    let expected = Position {
        direction: PositionDirection::Short,
        open_time: date("2022-09-30 08:53:00"),
        entry: DecimalVec::new(95),
        sl: DecimalVec::new(120),
        tp: DecimalVec::new(20),
        at_break_even: false,
    };
    assert_eq!(result, Some(expected));
}

#[test]
fn test_trigger_or_invalidation_deviation_up_wick_inside() {
    let result = trigger(vec![
        candlestick(0, 90, 95, 80, 85),
        candlestick(1, 85, 110, 90, 105),
        candlestick(2, 105, 120, 95, 100),
        candlestick(3, 100, 105, 90, 105),
        candlestick(4, 90, 110, 80, 85),
    ]);
    assert!(result.is_none());
}

#[test]
fn test_trigger_or_invalidation_first_candle_wick_down_bullish() {
    let result = trigger(vec![candlestick(0, 70, 75, 50, 80)]);
    let expected = Position {
        direction: PositionDirection::Long,
        open_time: date("2022-09-30 08:50:00"),
        entry: DecimalVec::new(80),
        sl: DecimalVec::new(50),
        tp: DecimalVec::new(140),
        at_break_even: false,
    };
    assert_eq!(result, Some(expected));
}

#[test]
fn test_trigger_or_invalidation_first_candle_wick_down_bearish() {
    assert!(trigger(vec![candlestick(0, 70, 75, 50, 65)]).is_none());
}

#[test]
fn test_trigger_or_invalidation_deviation_down_with_upclose_inside() {
    let result = trigger(vec![
        candlestick(0, 90, 95, 50, 55),
        candlestick(1, 55, 65, 50, 50),
        candlestick(2, 50, 60, 45, 60),
        candlestick(3, 60, 70, 55, 65),
    ]);
    let expected = Position {
        direction: PositionDirection::Long,
        open_time: date("2022-09-30 08:53:00"),
        entry: DecimalVec::new(65),
        sl: DecimalVec::new(45),
        tp: DecimalVec::new(140),
        at_break_even: false,
    };
    assert_eq!(result, Some(expected));
}

#[test]
fn test_trigger_or_invalidation_deviation_down_with_wick_inside() {
    let result = trigger(vec![
        candlestick(0, 90, 95, 50, 55),
        candlestick(1, 55, 65, 50, 50),
        candlestick(2, 50, 60, 45, 60),
        candlestick(3, 60, 70, 55, 60),
    ]);
    assert!(result.is_none());
}
