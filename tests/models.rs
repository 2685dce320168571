use backtest::logger::init;
use backtest::models::{Candle, Frame, Moment, OperationType, SecuritiesStr};

#[test]
fn frame_names_round_trip() {
    assert_eq!(Frame::parse("m1"), Some(Frame::M1));
    assert_eq!(Frame::parse("h1"), Some(Frame::H1));
    assert_eq!(Frame::parse("d1"), Some(Frame::D1));
    assert_eq!(Frame::parse("w1"), None);
    assert_eq!(Frame::M1.to_string(), "m1");
    assert_eq!(Frame::H1.to_string(), "h1");
    assert_eq!(Frame::D1.to_string(), "d1");
}

#[test]
fn operation_type_names_round_trip() {
    assert_eq!(OperationType::parse("buy"), Some(OperationType::Buy));
    assert_eq!(OperationType::parse("sold"), Some(OperationType::Sold));
    assert_eq!(OperationType::parse("sell"), None);
    assert_eq!(OperationType::Buy.to_string(), "buy");
    assert_eq!(OperationType::Sold.to_string(), "sold");
}

#[test]
fn securities_code_as_string() {
    assert_eq!(SecuritiesStr("AFLT".to_string()).into_string(), "AFLT");
}

#[test]
fn moment_hour_and_order() {
    let m = Moment { day: 3, second: 17 * 3600 + 59 };
    assert_eq!(m.hour(), 17);
    assert!(Moment { day: 2, second: 86_399 }.is_before(&m));
    assert!(!m.is_before(&m));
}

#[test]
fn candle_validity() {
    let good = Candle {
        open: 100,
        close: 100,
        high: 100,
        low: 100,
        value: 0,
        volume: 0,
        begin: Moment { day: 0, second: 0 },
        end: Moment { day: 0, second: 60 },
    };
    assert!(good.is_valid());
    assert!(!Candle { open: 0, ..good }.is_valid());
    assert!(!Candle { close: 0, ..good }.is_valid());
    assert!(!Candle { end: good.begin, ..good }.is_valid());
    assert!(!Candle { begin: Moment { day: 0, second: 86_400 }, ..good }.is_valid());
}

#[test]
fn logger_init_raises_level_on_success() {
    assert!(init(Ok(())).is_ok());
    assert_eq!(log::max_level(), log::LevelFilter::Info);
}
