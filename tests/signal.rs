use backtest::models::{Candle, Moment};
use backtest::signal::{is_blackout, within_band, DaySignalState, StrategyKind};

fn candle(open: u64, close: u64, volume: u64, day: i64, second: u32) -> Candle {
    Candle {
        open,
        close,
        high: open.max(close),
        low: open.min(close),
        value: 0,
        volume,
        begin: Moment { day, second },
        end: Moment { day, second: second + 60 },
    }
}

fn breakout() -> StrategyKind {
    StrategyKind::VolumeBreakout { breakout_volume: 9_000, band: 10, blackout_hours: vec![17, 18] }
}

#[test]
fn new_day_discards_earlier_volume() {
    let mut st = DaySignalState::new();
    st.observe(&candle(100, 101, 5, 0, 36_000), 9_000);
    st.observe(&candle(101, 100, 3, 0, 36_060), 9_000);
    assert_eq!(st.volume_up, 5);
    assert_eq!(st.volume_down, 3);
    st.observe(&candle(101, 100, 7, 1, 36_000), 9_000);
    assert_eq!(st.day, Some(1));
    assert_eq!(st.volume_up, 0);
    assert_eq!(st.volume_down, 7);
}

#[test]
fn breakout_flag_armed_by_large_down_and_cleared_by_large_up() {
    let mut st = DaySignalState::new();
    st.observe(&candle(101, 100, 9_000, 0, 36_000), 9_000);
    assert!(st.volume_ok);
    st.observe(&candle(100, 101, 8_999, 0, 36_060), 9_000);
    assert!(st.volume_ok);
    st.observe(&candle(100, 101, 9_000, 0, 36_120), 9_000);
    assert!(!st.volume_ok);
    st.observe(&candle(101, 100, 10_000, 0, 36_180), 9_000);
    assert!(st.volume_ok);
    st.observe(&candle(100, 100, 10_000, 1, 36_000), 9_000);
    assert!(!st.volume_ok);
}

#[test]
fn volume_sums_stop_at_the_maximum() {
    let mut st = DaySignalState::new();
    st.observe(&candle(100, 101, u64::MAX - 1, 0, 0), 0);
    st.observe(&candle(100, 101, 5, 0, 60), 0);
    assert_eq!(st.volume_up, u64::MAX);
}

#[test]
fn flat_candle_is_in_band_and_falling_candle_is_not() {
    assert!(within_band(&candle(100, 100, 1, 0, 0), 10));
    assert!(within_band(&candle(100_000, 100_001, 1, 0, 0), 10));
    assert!(!within_band(&candle(100_000, 100_002, 1, 0, 0), 10));
    assert!(!within_band(&candle(100, 99, 1, 0, 0), 10));
    assert!(within_band(&candle(100, 100, 1, 0, 0), 0));
}

#[test]
fn blackout_hours_lookup() {
    assert!(is_blackout(&vec![17, 18], 17));
    assert!(is_blackout(&vec![17, 18], 18));
    assert!(!is_blackout(&vec![17, 18], 16));
    assert!(!is_blackout(&vec![], 0));
}

#[test]
fn breakout_buy_needs_flag_band_and_open_hour() {
    let s = breakout();
    let mut st = DaySignalState::new();
    assert!(!s.detect(&mut st, &candle(100, 100, 10, 0, 36_000)));
    assert!(!s.detect(&mut st, &candle(101, 100, 9_500, 0, 36_060)));
    assert!(s.detect(&mut st, &candle(100, 100, 10, 0, 36_120)));
    assert!(!s.detect(&mut st, &candle(100, 100, 10, 0, 17 * 3600)));
    assert!(!s.detect(&mut st, &candle(100, 100, 10, 0, 18 * 3600 + 3599)));
    assert!(s.detect(&mut st, &candle(100, 100, 10, 0, 19 * 3600)));
    assert!(!s.detect(&mut st, &candle(100, 105, 10, 0, 19 * 3600 + 60)));
    assert!(!s.detect(&mut st, &candle(100, 100, 10, 1, 36_000)));
}

#[test]
fn average_volume_rule_buys_heavy_falling_candles() {
    let s = StrategyKind::AverageVolumeBaseline { average_volume: 1_000 };
    let mut st = DaySignalState::new();
    assert!(s.detect(&mut st, &candle(101, 100, 1_001, 0, 0)));
    assert!(!s.detect(&mut st, &candle(101, 100, 1_000, 0, 60)));
    assert!(!s.detect(&mut st, &candle(100, 101, 5_000, 0, 120)));
    assert_eq!(st, DaySignalState::new());
}

#[test]
fn window_rule_uses_baseline_of_earlier_days() {
    let s = StrategyKind::FixedWindow {
        from_hour: 13,
        to_hour: 19,
        multiplier: 5,
        initial_baseline: 100,
    };
    let mut st = DaySignalState::new();
    assert!(s.detect(&mut st, &candle(101, 100, 500, 0, 13 * 3600)));
    assert!(!s.detect(&mut st, &candle(101, 100, 499, 0, 13 * 3600 + 60)));
    assert!(!s.detect(&mut st, &candle(101, 100, 900, 0, 12 * 3600)));
    assert!(!s.detect(&mut st, &candle(101, 100, 900, 0, 19 * 3600)));
    assert_eq!(st.candle_count, 4);
    assert_eq!(st.volume_sum, 500 + 499 + 900 + 900);
    assert!(s.detect(&mut st, &candle(101, 100, 500, 1, 14 * 3600)));
    assert_eq!(st.baseline, Some(699));
    assert_eq!(st.candle_count, 4);
    assert!(!s.detect(&mut st, &candle(101, 100, 3_494, 1, 14 * 3600 + 60)));
    assert!(s.detect(&mut st, &candle(101, 100, 3_495, 1, 14 * 3600 + 120)));
}
