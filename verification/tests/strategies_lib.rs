use backtest::model::candle_stick::CandleStick;
use backtest::model::decimal::DecimalVec;
use backtest::model::session::Session;
use backtest::strategies::lib::{
    add_to_swings, find_sfp_high, first_swing, in_session, is_swing_high, is_swing_low,
};
use chrono::{NaiveDateTime, TimeZone};
use chrono_tz::America::New_York;

fn candlestick(high: i32, low: i32) -> CandleStick {
    CandleStick {
        open_time: 0,
        open: DecimalVec::new(0),
        high: DecimalVec::new(high),
        low: DecimalVec::new(low),
        close: DecimalVec::new(0),
        close_time: 0,
    }
}

/// Prices with one decimal place are stored at a tenth-sized quantum.
fn candlestick_high_close(close_time: i64, high: f32, close: f32) -> CandleStick {
    CandleStick {
        open_time: 0,
        open: DecimalVec::new(0),
        high: DecimalVec((high * 10.0) as i64),
        low: DecimalVec::new(0),
        close: DecimalVec((close * 10.0) as i64),
        close_time,
    }
}

fn parse_datetime(s: &str) -> i64 {
    let naive = NaiveDateTime::parse_from_str(s, "%Y-%m-%d %H:%M:%S").unwrap();
    New_York
        .from_local_datetime(&naive)
        .single()
        .expect("unambiguous New York time")
        .timestamp()
}

fn session() -> Session {
    Session { start: 8 * 3600 + 50 * 60, end: 9 * 3600 + 10 * 60 }
}

#[test]
fn test_swing_low() {
    let actual = candlestick(0, 1);
    let previous = candlestick(0, 3);
    let next = candlestick(0, 2);
    assert!(is_swing_low(actual, previous, next));
}

#[test]
fn test_not_swing_low_previous_lower() {
    let actual = candlestick(0, 2);
    let previous = candlestick(0, 1);
    let next = candlestick(0, 3);
    assert!(!is_swing_low(actual, previous, next));
}

#[test]
fn test_not_swing_low_next_lower() {
    let actual = candlestick(0, 2);
    let previous = candlestick(0, 3);
    let next = candlestick(0, 1);
    assert!(!is_swing_low(actual, previous, next));
}

#[test]
fn test_not_swing_low_both_lower() {
    let actual = candlestick(0, 2);
    let previous = candlestick(0, 1);
    let next = candlestick(0, 1);
    assert!(!is_swing_low(actual, previous, next));
}

#[test]
fn test_not_swing_low_equal_previous() {
    let actual = candlestick(0, 1);
    let previous = candlestick(0, 1);
    let next = candlestick(0, 2);
    assert!(!is_swing_low(actual, previous, next));
}

#[test]
fn test_not_swing_low_equal_next() {
    let actual = candlestick(0, 1);
    let previous = candlestick(0, 2);
    let next = candlestick(0, 1);
    assert!(!is_swing_low(actual, previous, next));
}

#[test]
fn test_not_swing_low_all_equal() {
    let actual = candlestick(0, 1);
    let previous = candlestick(0, 1);
    let next = candlestick(0, 1);
    assert!(!is_swing_low(actual, previous, next));
}

#[test]
fn test_swing_high() {
    let actual = candlestick(3, 0);
    let previous = candlestick(1, 0);
    let next = candlestick(2, 0);
    assert!(is_swing_high(actual, previous, next));
}

#[test]
fn test_not_swing_high_previous_higher() {
    let actual = candlestick(2, 0);
    let previous = candlestick(3, 0);
    let next = candlestick(1, 0);
    assert!(!is_swing_high(actual, previous, next));
}

#[test]
fn test_not_swing_high_next_higher() {
    let actual = candlestick(2, 0);
    let previous = candlestick(1, 0);
    let next = candlestick(3, 0);
    assert!(!is_swing_high(actual, previous, next));
}

#[test]
fn test_not_swing_high_both_higher() {
    let actual = candlestick(1, 0);
    let previous = candlestick(2, 0);
    let next = candlestick(3, 0);
    assert!(!is_swing_high(actual, previous, next));
}

#[test]
fn test_not_swing_high_equal_previous() {
    let actual = candlestick(2, 0);
    let previous = candlestick(2, 0);
    let next = candlestick(1, 0);
    assert!(!is_swing_high(actual, previous, next));
}

#[test]
fn test_not_swing_high_equal_next() {
    let actual = candlestick(2, 0);
    let previous = candlestick(1, 0);
    let next = candlestick(2, 0);
    assert!(!is_swing_high(actual, previous, next));
}

#[test]
fn test_not_swing_high_all_equal() {
    let actual = candlestick(2, 0);
    let previous = candlestick(2, 0);
    let next = candlestick(2, 0);
    assert!(!is_swing_high(actual, previous, next));
}

#[test]
fn test_first_swing_found() {
    let candles = vec![
        candlestick(0, 20),
        candlestick(0, 10),
        candlestick(0, 15),
        candlestick(0, 5),
        candlestick(0, 25),
    ];
    let result = first_swing(candles, is_swing_low);
    assert_eq!(result, Some(candlestick(0, 10)));
}

#[test]
fn test_first_swing_not_found() {
    let candles = vec![candlestick(0, 20), candlestick(0, 15), candlestick(0, 10)];
    let result = first_swing(candles, is_swing_low);
    assert!(result.is_none());
}

#[test]
fn test_first_swing_single_element() {
    let candles = vec![candlestick(0, 10)];
    let result = first_swing(candles, is_swing_low);
    assert!(result.is_none());
}

#[test]
fn test_first_swing_two_elements() {
    let candles = vec![candlestick(0, 10), candlestick(0, 20)];
    let result = first_swing(candles, is_swing_low);
    assert!(result.is_none());
}

#[test]
fn test_first_swing_at_end() {
    let candles = vec![
        candlestick(0, 25),
        candlestick(0, 20),
        candlestick(0, 5),
        candlestick(0, 15),
        candlestick(0, 10),
    ];

    let result = first_swing(candles, is_swing_low);
    assert_eq!(result, Some(candlestick(0, 5)));
}

#[test]
fn test_first_swing_multiple_swings() {
    let candles = vec![
        candlestick(0, 25),
        candlestick(0, 10),
        candlestick(0, 15),
        candlestick(0, 5),
        candlestick(0, 25),
        candlestick(0, 3),
        candlestick(0, 20),
    ];
    let result = first_swing(candles, is_swing_low);
    assert_eq!(result, Some(candlestick(0, 10)));
}

#[test]
fn test_first_swing_multiple_swing_highs() {
    let candles = vec![
        candlestick(25, 0),
        candlestick(30, 0),
        candlestick(15, 0),
        candlestick(5, 0),
        candlestick(25, 0),
        candlestick(3, 0),
        candlestick(20, 0),
    ];
    let result = first_swing(candles, is_swing_high);
    assert_eq!(result, Some(candlestick(30, 0)));
}

#[test]
fn test_add_to_swings_high_to_empty() {
    let mut swing_highs = vec![];
    let mut swing_lows = vec![];
    add_to_swings(
        &mut swing_lows,
        &mut swing_highs,
        candlestick(30, 0),
        candlestick(25, 0),
        candlestick(15, 0),
    );
    assert_eq!(swing_lows, vec![]);
    assert_eq!(swing_highs, vec![candlestick(30, 0)]);
}

#[test]
fn test_add_to_swings_high_keep_higher() {
    let mut swing_highs = vec![candlestick(40, 0)];
    let mut swing_lows = vec![];
    add_to_swings(
        &mut swing_lows,
        &mut swing_highs,
        candlestick(30, 0),
        candlestick(25, 0),
        candlestick(15, 0),
    );
    assert_eq!(swing_highs, vec![candlestick(40, 0), candlestick(30, 0)]);
}

#[test]
fn test_add_to_swings_high_remove_lowers() {
    let mut swing_highs = vec![candlestick(10, 0), candlestick(20, 0), candlestick(40, 0)];
    let mut swing_lows = vec![];
    add_to_swings(
        &mut swing_lows,
        &mut swing_highs,
        candlestick(30, 0),
        candlestick(25, 0),
        candlestick(15, 0),
    );
    assert_eq!(swing_highs, vec![candlestick(40, 0), candlestick(30, 0)]);
}

#[test]
fn test_add_to_swings_low_to_empty() {
    let mut swing_highs = vec![];
    let mut swing_lows = vec![];
    add_to_swings(
        &mut swing_lows,
        &mut swing_highs,
        candlestick(0, 5),
        candlestick(0, 10),
        candlestick(0, 15),
    );
    assert_eq!(swing_lows, vec![candlestick(0, 5)]);
    assert_eq!(swing_highs, vec![]);
}

#[test]
fn test_add_to_swings_low_keep_lower() {
    let mut swing_highs = vec![];
    let mut swing_lows = vec![candlestick(0, 4)];
    add_to_swings(
        &mut swing_lows,
        &mut swing_highs,
        candlestick(0, 5),
        candlestick(0, 10),
        candlestick(0, 15),
    );
    assert_eq!(swing_lows, vec![candlestick(0, 4), candlestick(0, 5)]);
}

#[test]
fn test_add_to_swings_low_remove_highers() {
    let mut swing_highs = vec![];
    let mut swing_lows = vec![candlestick(0, 4), candlestick(0, 6), candlestick(0, 7)];
    add_to_swings(
        &mut swing_lows,
        &mut swing_highs,
        candlestick(0, 5),
        candlestick(0, 10),
        candlestick(0, 15),
    );
    assert_eq!(swing_lows, vec![candlestick(0, 4), candlestick(0, 5)]);
}

#[test]
fn test_add_to_swings_no_swing() {
    let mut swing_highs = vec![];
    let mut swing_lows = vec![];
    add_to_swings(
        &mut swing_lows,
        &mut swing_highs,
        candlestick(0, 10),
        candlestick(0, 5),
        candlestick(0, 15),
    );
    assert_eq!(swing_lows, vec![]);
    assert_eq!(swing_highs, vec![]);
}

#[test]
fn test_add_to_swings_both_remove_both() {
    let mut swing_highs = vec![candlestick(10, 8)];
    let mut swing_lows = vec![candlestick(5, 4)];
    add_to_swings(
        &mut swing_lows,
        &mut swing_highs,
        candlestick(15, 3),
        candlestick(12, 5),
        candlestick(13, 5),
    );
    assert_eq!(swing_lows, vec![candlestick(15, 3)]);
    assert_eq!(swing_highs, vec![candlestick(15, 3)]);
}

#[test]
fn test_find_sfp_high_basic() {
    let actual = candlestick_high_close(10, 110.0, 105.0);

    let swing_highs = vec![
        candlestick_high_close(1, 100.0, 98.0),
        candlestick_high_close(5, 108.0, 107.0),
        candlestick_high_close(8, 109.0, 108.0),
    ];

    // The oldest retained swing that the candle wicked above and closed back
    // under is the one at close time 5 (high 108): the sweep search returns
    // the first match in insertion order.
    let result = find_sfp_high(actual, &swing_highs);
    assert_eq!(result, Some(&swing_highs[1]));
}

#[test]
fn test_find_sfp_high_no_match() {
    let actual = candlestick_high_close(10, 110.0, 105.0);

    let swing_highs = vec![
        candlestick_high_close(1, 112.0, 111.0),
        candlestick_high_close(5, 113.0, 112.0),
    ];

    let result = find_sfp_high(actual, &swing_highs);
    assert_eq!(result, None);
}

#[test]
fn test_find_sfp_high_edge_cases() {
    let actual = candlestick_high_close(10, 110.0, 105.0);

    let swing_highs: Vec<CandleStick> = vec![];
    let result = find_sfp_high(actual, &swing_highs);
    assert_eq!(result, None);

    let swing_highs = vec![candlestick_high_close(10, 109.0, 108.0)];
    let result = find_sfp_high(actual, &swing_highs);
    assert_eq!(result, None);
}

#[test]
fn test_find_sfp_high_multiple_matches() {
    let actual = candlestick_high_close(10, 110.0, 105.0);

    let swing_highs = vec![
        candlestick_high_close(1, 109.0, 108.0),
        candlestick_high_close(5, 109.5, 109.0),
        candlestick_high_close(3, 108.5, 108.0),
    ];

    let result = find_sfp_high(actual, &swing_highs);
    assert_eq!(result, Some(&swing_highs[0]));
}

#[test]
fn test_in_session_outside() {
    let result = in_session(&session(), parse_datetime("2022-09-30 09:30:00"));
    assert!(!result);
}

#[test]
fn test_in_session_at_start() {
    let result = in_session(&session(), parse_datetime("2022-09-30 08:50:00"));
    assert!(result);
}
