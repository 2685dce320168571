use backtest::engine::{
    buy_terms, commission, create_operation, strategy_logic, take_profit, CommissionBasis,
};
use backtest::models::{
    Attempt, Candle, ConfigError, Moment, OperationType, Packet, ReplayError, RATE_SCALE,
};

fn candle(open: u64, close: u64, volume: u64, day: i64, second: u32) -> Candle {
    Candle {
        open,
        close,
        high: open.max(close),
        low: open.min(close),
        value: 0,
        volume,
        begin: Moment { day, second },
        end: Moment { day, second: second + 60 },
    }
}

fn attempt(profit: u64, commission: u64) -> Attempt {
    Attempt { id: 7, profit, commission }
}

#[test]
fn buy_example_from_balance_and_price() {
    let mut packet = Packet::new("OZON", 1, 100_000).unwrap();
    let fill = candle(500, 500, 10, 0, 36_000);
    let a = attempt(2_500, 400);
    let op = strategy_logic(&mut packet, &fill, &a, None, CommissionBasis::RawCount, false, true).unwrap().unwrap();
    assert_eq!(op.operation_type, OperationType::Buy);
    assert_eq!(op.count, 199);
    assert_eq!(op.price, 500);
    assert_eq!(op.commission, 40);
    assert_eq!(op.sum_before, 100_000);
    assert_eq!(op.sum_after, 460);
    assert_eq!(op.prev, None);
    assert_eq!(op.attempt, 7);
    assert_eq!(op.security, "OZON");
    assert_eq!(packet.purchased, 199);
    assert_eq!(packet.balance, 460);
    assert_eq!(packet.profit, 501);
}

#[test]
fn buy_rounds_down_to_lot_size() {
    let mut packet = Packet::new("SBER", 10, 100_000).unwrap();
    let fill = candle(500, 500, 10, 0, 36_000);
    let a = attempt(2_500, 400);
    let op = strategy_logic(&mut packet, &fill, &a, Some(3), CommissionBasis::RawCount, false, true).unwrap().unwrap();
    assert_eq!(op.count, 190);
    assert_eq!(op.commission, 40);
    assert_eq!(op.sum_after, 100_000 - 95_000 - 40);
    assert_eq!(op.prev, Some(3));
    assert_eq!(op.count % 10, 0);
}

#[test]
fn buy_without_one_affordable_lot_is_a_no_op() {
    let mut packet = Packet::new("LKOH", 10, 4_000).unwrap();
    let fill = candle(500, 500, 10, 0, 36_000);
    let a = attempt(2_500, 400);
    let r = strategy_logic(&mut packet, &fill, &a, None, CommissionBasis::RawCount, false, true).unwrap();
    assert!(r.is_none());
    assert_eq!(packet.purchased, 0);
    assert_eq!(packet.balance, 4_000);
}

#[test]
fn sale_credits_notional_less_commission() {
    let mut packet = Packet::new("OZON", 1, 460).unwrap();
    packet.purchased = 199;
    packet.profit = 501;
    let fill = candle(510, 510, 10, 0, 36_060);
    let a = attempt(2_500, 400);
    let op = strategy_logic(&mut packet, &fill, &a, Some(11), CommissionBasis::RawCount, true, false).unwrap().unwrap();
    assert_eq!(op.operation_type, OperationType::Sold);
    assert_eq!(op.count, 199);
    assert_eq!(op.commission, 40);
    assert_eq!(op.sum_before, 460);
    assert_eq!(op.sum_after, 460 + 101_490 - 40);
    assert_eq!(op.prev, Some(11));
    assert_eq!(packet.purchased, 0);
    assert_eq!(packet.profit, 0);
    assert_eq!(packet.balance, 101_910);
}

#[test]
fn holding_packet_ignores_buy_and_flat_packet_ignores_sell() {
    let a = attempt(2_500, 400);
    let fill = candle(510, 510, 10, 0, 36_060);
    let mut holding = Packet::new("OZON", 1, 460).unwrap();
    holding.purchased = 5;
    assert!(strategy_logic(&mut holding, &fill, &a, None, CommissionBasis::RawCount, false, true).unwrap().is_none());
    assert_eq!(holding.purchased, 5);
    let mut flat = Packet::new("OZON", 1, 460).unwrap();
    assert!(strategy_logic(&mut flat, &fill, &a, None, CommissionBasis::RawCount, true, false).unwrap().is_none());
    assert_eq!(flat.balance, 460);
}

#[test]
fn sale_beyond_machine_range_is_refused() {
    let mut packet = Packet::new("OZON", 1, 0).unwrap();
    packet.purchased = u64::MAX;
    packet.profit = 1;
    let fill = candle(2, 2, 10, 0, 36_060);
    let a = attempt(2_500, 400);
    let r = strategy_logic(&mut packet, &fill, &a, None, CommissionBasis::RawCount, true, false);
    assert_eq!(r.unwrap_err(), ReplayError::BalanceOverflow);
    assert_eq!(packet.purchased, u64::MAX);
    assert_eq!(packet.balance, 0);
}

#[test]
fn commission_and_take_profit_values() {
    assert_eq!(commission(100_000, 400), 40);
    assert_eq!(commission(101_490, 400), 40);
    assert_eq!(commission(2_500_000, 400), 1_000);
    assert_eq!(commission(1_000, 0), 0);
    assert_eq!(take_profit(500, 2_500), 501);
    assert_eq!(take_profit(40_000, 2_500), 40_100);
    assert_eq!(take_profit(u64::MAX, RATE_SCALE), 2 * (u64::MAX as u128));
}

#[test]
fn create_operation_books_the_settlement() {
    let mut packet = Packet::new("MOEX", 1, 1_000).unwrap();
    packet.purchased = 3;
    let fill = candle(100, 100, 1, 2, 600);
    let a = attempt(2_500, 400);
    let op = create_operation(&a, OperationType::Buy, &mut packet, 5, None, &fill);
    assert_eq!(op.sum_after, 695);
    assert_eq!(packet.balance, 695);
    assert_eq!(op.time_at, Moment { day: 2, second: 600 });
}

#[test]
fn packet_and_attempt_refuse_bad_parameters() {
    assert_eq!(Packet::new("OZON", 0, 100).unwrap_err(), ConfigError::InvalidLotSize);
    assert_eq!(Attempt::new(0, 400).unwrap_err(), ConfigError::InvalidProfit);
    assert_eq!(Attempt::new(2_500, RATE_SCALE).unwrap_err(), ConfigError::InvalidCommission);
    let a = Attempt::new(2_500, 400).unwrap();
    assert_eq!(a.profit, 2_500);
    assert_eq!(a.commission, 400);
}

#[test]
fn attempts_get_distinct_random_ids() {
    let a = Attempt::new(2_500, 400).unwrap();
    let b = Attempt::new(2_500, 400).unwrap();
    assert_ne!(a.id, b.id);
    assert_eq!((a.id >> 76) & 0xF, 4);
}

#[test]
fn final_count_basis_charges_the_shares_bought() {
    let mut packet = Packet::new("OZON", 1, 100_000).unwrap();
    let fill = candle(500, 500, 10, 0, 36_000);
    let a = attempt(2_500, 400);
    let op = strategy_logic(&mut packet, &fill, &a, None, CommissionBasis::FinalCount, false, true)
        .unwrap()
        .unwrap();
    assert_eq!(op.count, 199);
    assert_eq!(op.commission, 39);
    assert_eq!(op.sum_after, 461);
    assert_eq!(packet.balance, 461);
}

#[test]
fn commission_bases_differ_on_a_steep_rate() {
    assert_eq!(buy_terms(1_000, 10, 1, 500_000, CommissionBasis::RawCount), (50, 500));
    assert_eq!(buy_terms(1_000, 10, 1, 500_000, CommissionBasis::FinalCount), (66, 330));
    assert_eq!(buy_terms(1_000, 10, 4, 500_000, CommissionBasis::FinalCount), (64, 320));
    assert_eq!(buy_terms(100_000, 500, 1, 400, CommissionBasis::RawCount), (199, 40));
    assert_eq!(buy_terms(0, 500, 1, 400, CommissionBasis::FinalCount), (0, 0));
    assert_eq!(buy_terms(u64::MAX, 1, 1, 0, CommissionBasis::FinalCount), (u64::MAX, 0));
}
