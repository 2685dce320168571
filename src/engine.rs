use vstd::arithmetic::div_mod::{
    lemma_div_by_multiple, lemma_mod_multiples_basic, lemma_multiply_divide_lt, lemma_div_is_ordered, lemma_fundamental_div_mod, lemma_mod_pos_bound,
};
use vstd::arithmetic::mul::{lemma_mul_inequality, lemma_mul_upper_bound};
use vstd::prelude::*;

use crate::models::{Attempt, Candle, Operation, OperationType, Packet, ReplayError, RATE_SCALE};

verus! {

/// The commission charged on a notional amount at `rate` parts per million,
/// rounded down.
pub open spec fn commission_of(notional: int, rate: int) -> int {
    notional * rate / RATE_SCALE as int
}

/// The take-profit price of a position opened at `price` with a margin of
/// `margin` parts per million, rounded down.
pub open spec fn take_profit_of(price: int, margin: int) -> int {
    price + price * margin / RATE_SCALE as int
}

/// The balance after a trade: a buy pays the notional and the commission, a
/// sale receives the notional and pays the commission.
pub open spec fn settled(
    kind: OperationType,
    balance: int,
    count: int,
    price: int,
    commission: int,
) -> int {
    match kind {
        OperationType::Buy => balance - count * price - commission,
        OperationType::Sold => balance + count * price - commission,
    }
}

/// How the commission of a buy is charged.
#[derive(Clone, Copy, Debug, PartialEq, Eq, Structural)]
pub enum CommissionBasis {
    /// On the largest whole number of shares that the balance pays for, before
    /// any are taken off for the commission itself or for the lot size. The
    /// amount is not recomputed for the shares actually bought, so it can
    /// exceed the commission on the trade.
    RawCount,
    /// On the shares actually bought: the most whole lots whose notional and
    /// commission together fit in the balance.
    FinalCount,
}

/// `n` shares at `price` can be paid for, commission included, out of
/// `balance`.
pub open spec fn fits(n: int, balance: int, price: int, rate: int) -> bool {
    n * price + commission_of(n * price, rate) <= balance
}

/// The commission on the largest whole number of shares that the balance pays
/// for at `price`, commission left aside.
pub open spec fn raw_commission(balance: int, price: int, rate: int) -> int {
    commission_of((balance / price) * price, rate)
}

/// The largest number of shares that `fits` (see `lemma_exact_count`).
pub open spec fn exact_count(balance: int, price: int, rate: int) -> int {
    ((balance + 1) * RATE_SCALE - 1) / (price * (RATE_SCALE + rate))
}

/// The number of shares a buy takes, rounded down to a whole number of lots:
/// on `RawCount`, the most that the balance pays for together with
/// `raw_commission`; on `FinalCount`, `exact_count`.
pub open spec fn buy_count(
    balance: int,
    price: int,
    lot: int,
    rate: int,
    basis: CommissionBasis,
) -> int {
    match basis {
        CommissionBasis::RawCount => (balance - raw_commission(balance, price, rate)) / price / lot
            * lot,
        CommissionBasis::FinalCount => exact_count(balance, price, rate) / lot * lot,
    }
}

/// The commission that a buy pays.
pub open spec fn buy_commission(
    balance: int,
    price: int,
    lot: int,
    rate: int,
    basis: CommissionBasis,
) -> int {
    match basis {
        CommissionBasis::RawCount => raw_commission(balance, price, rate),
        CommissionBasis::FinalCount => commission_of(
            buy_count(balance, price, lot, rate, basis) * price,
            rate,
        ),
    }
}

/// The ledger entry of a trade, without identifier and back-reference.
pub open spec fn entry(
    attempt: Attempt,
    kind: OperationType,
    packet: Packet,
    count: int,
    price: int,
    commission: int,
    fill: Candle,
) -> Operation {
    Operation {
        id: 0,
        attempt: attempt.id,
        operation_type: kind,
        security: packet.security,
        count: count as u64,
        price: price as u64,
        commission: commission as u64,
        time_at: fill.begin,
        sum_before: packet.balance,
        sum_after: settled(kind, packet.balance as int, count, price, commission) as u64,
        prev: None,
    }
}

/// Opening a position from a flat packet at the fill candle's open price: the
/// new packet and the entry, or the packet unchanged and no entry when not one
/// lot can be paid for.
pub open spec fn open_position(p: Packet, fill: Candle, a: Attempt, basis: CommissionBasis) -> (
    Packet,
    Option<Operation>,
) {
    let price = fill.open as int;
    let lot = p.min_count as int;
    let fee = buy_commission(p.balance as int, price, lot, a.commission as int, basis);
    let count = buy_count(p.balance as int, price, lot, a.commission as int, basis);
    if count == 0 {
        (p, None)
    } else {
        let op = entry(a, OperationType::Buy, p, count, price, fee, fill);
        (
            Packet {
                purchased: count as u64,
                profit: take_profit_of(price, a.profit as int) as u128,
                balance: op.sum_after,
                ..p
            },
            Some(op),
        )
    }
}

/// A sale of the whole position does not fit the machine: its notional or the
/// balance after it exceeds `u64::MAX`.
pub open spec fn close_overflows(p: Packet, fill: Candle, a: Attempt) -> bool {
    let notional = p.purchased * fill.open;
    notional > u64::MAX || p.balance + notional - commission_of(notional, a.commission as int)
        > u64::MAX
}

/// Closing the whole position at the fill candle's open price.
pub open spec fn close_position(p: Packet, fill: Candle, a: Attempt) -> (Packet, Option<Operation>) {
    let price = fill.open as int;
    let fee = commission_of(p.purchased * price, a.commission as int);
    let op = entry(a, OperationType::Sold, p, p.purchased as int, price, fee, fill);
    (Packet { purchased: 0, profit: 0, balance: op.sum_after, ..p }, Some(op))
}

/// One transition of the position state machine: a holding packet sells on
/// `sold` and ignores `buy`; a flat packet buys on `buy` and ignores `sold`.
/// `None` when the sale does not fit the machine.
pub open spec fn engine_step(
    p: Packet,
    fill: Candle,
    a: Attempt,
    basis: CommissionBasis,
    sold: bool,
    buy: bool,
) -> Option<(Packet, Option<Operation>)> {
    if p.purchased > 0 {
        if sold {
            if close_overflows(p, fill, a) {
                None
            } else {
                Some(close_position(p, fill, a))
            }
        } else {
            Some((p, None))
        }
    } else if buy {
        Some(open_position(p, fill, a, basis))
    } else {
        Some((p, None))
    }
}

proof fn lemma_floor_mul(x: int, d: int)
    requires
        x >= 0,
        d > 0,
    ensures
        0 <= x / d,
        (x / d) * d <= x,
{
    lemma_fundamental_div_mod(x, d);
    lemma_mod_pos_bound(x, d);
    lemma_div_is_ordered(0, x, d);
    assert((x / d) * d == d * (x / d)) by (nonlinear_arith);
}

proof fn lemma_commission_bounded(notional: int, rate: int)
    requires
        0 <= notional,
        0 <= rate < RATE_SCALE,
    ensures
        0 <= commission_of(notional, rate) <= notional,
{
    let s = RATE_SCALE as int;
    lemma_mul_inequality(rate, s, notional);
    assert(notional * rate == rate * notional) by (nonlinear_arith);
    assert(notional * s == s * notional) by (nonlinear_arith);
    assert(0 <= notional * rate) by (nonlinear_arith)
        requires
            0 <= notional,
            0 <= rate,
    ;
    lemma_div_is_ordered(notional * rate, notional * s, s);
    lemma_div_by_multiple(notional, s);
    lemma_div_is_ordered(0, notional * rate, s);
}

/// The commission on `notional` at `rate` parts per million.
pub fn commission(notional: u64, rate: u64) -> (r: u64)
    requires
        rate < RATE_SCALE,
    ensures
        r == commission_of(notional as int, rate as int),
        r <= notional,
{
    proof {
        lemma_commission_bounded(notional as int, rate as int);
        lemma_mul_upper_bound(notional as int, u64::MAX as int, rate as int, u64::MAX as int);
    }
    ((notional as u128) * (rate as u128) / (RATE_SCALE as u128)) as u64
}

/// The take-profit price of a position opened at `price` with `margin` parts
/// per million.
pub fn take_profit(price: u64, margin: u64) -> (r: u128)
    ensures
        r == take_profit_of(price as int, margin as int),
{
    proof {
        let m = price as int * margin as int;
        lemma_mul_upper_bound(price as int, u64::MAX as int, margin as int, u64::MAX as int);
        assert(0 <= m) by (nonlinear_arith)
            requires
                m == price as int * margin as int,
        ;
        lemma_div_is_ordered(m, u64::MAX as int * u64::MAX as int, RATE_SCALE as int);
        lemma_div_is_ordered(0, m, RATE_SCALE as int);
    }
    (price as u128) + (price as u128) * (margin as u128) / (RATE_SCALE as u128)
}

/// Appends the ledger entry of a trade of the packet's whole holding at the
/// candle's open price and books its settlement on the balance.
pub fn create_operation(
    attempt: &Attempt,
    operation_type: OperationType,
    packet: &mut Packet,
    commission: u64,
    prev: Option<u128>,
    candle: &Candle,
) -> (r: Operation)
    requires
        operation_type == OperationType::Buy ==> old(packet).purchased * candle.open + commission
            <= old(packet).balance,
        operation_type == OperationType::Sold ==> ({
            let notional = old(packet).purchased * candle.open;
            &&& notional <= u64::MAX
            &&& commission <= notional
            &&& old(packet).balance + notional - commission <= u64::MAX
        }),
    ensures
        r.unlinked() == entry(
            *attempt,
            operation_type,
            *old(packet),
            old(packet).purchased as int,
            candle.open as int,
            commission as int,
            *candle,
        ),
        r.prev == prev,
        *final(packet) == (Packet { balance: r.sum_after, ..*old(packet) }),
{
    let id = crate::models::new_id();
    let notional = (packet.purchased as u128) * (candle.open as u128);
    let sum_after: u64 = match operation_type {
        OperationType::Buy => (packet.balance as u128 - notional - commission as u128) as u64,
        OperationType::Sold => (packet.balance as u128 + notional - commission as u128) as u64,
    };
    let operation = Operation {
        id,
        attempt: attempt.id,
        operation_type,
        security: packet.security.clone(),
        count: packet.purchased,
        price: candle.open,
        commission,
        time_at: candle.begin,
        sum_before: packet.balance,
        sum_after,
        prev,
    };
    packet.balance = sum_after;
    operation
}


proof fn lemma_div_ge(a: int, x: int, d: int)
    requires
        0 <= a,
        0 < d,
        a * d <= x,
    ensures
        a <= x / d,
{
    lemma_div_is_ordered(a * d, x, d);
    lemma_div_by_multiple(a, d);
}

proof fn lemma_fits_iff(n: int, balance: int, price: int, rate: int)
    requires
        0 <= n,
        0 <= balance,
        0 < price,
        0 <= rate < RATE_SCALE,
    ensures
        fits(n, balance, price, rate) <==> n <= exact_count(balance, price, rate),
{
    let s = RATE_SCALE as int;
    let y = n * price;
    let d = price * (s + rate);
    let x = (balance + 1) * s - 1;
    assert(0 <= y) by (nonlinear_arith)
        requires
            0 <= n,
            0 < price,
            y == n * price,
    ;
    assert(0 < d) by (nonlinear_arith)
        requires
            0 < price,
            0 <= rate,
            s > 0,
            d == price * (s + rate),
    ;
    assert(n * d == y * s + y * rate) by (nonlinear_arith)
        requires
            y == n * price,
            d == price * (s + rate),
    ;
    let c = (y * rate) / s;
    lemma_fundamental_div_mod(y * rate, s);
    lemma_mod_pos_bound(y * rate, s);
    if fits(n, balance, price, rate) {
        assert(y + c <= balance);
        assert(y * rate < s * (c + 1));
        assert(s * (c + 1) <= s * (balance - y + 1)) by (nonlinear_arith)
            requires
                c + 1 <= balance - y + 1,
                s > 0,
        ;
        assert(y * s + s * (balance - y + 1) == (balance + 1) * s) by (nonlinear_arith);
        assert(n * d <= x);
        lemma_div_ge(n, x, d);
    }
    if n <= exact_count(balance, price, rate) {
        let q = x / d;
        lemma_floor_mul(x, d);
        lemma_mul_inequality(n, q, d);
        assert(n * d <= x);
        assert(y * rate < (balance + 1 - y) * s) by (nonlinear_arith)
            requires
                y * s + y * rate <= (balance + 1) * s - 1,
        ;
        if balance + 1 - y <= 0 {
            assert(y * rate >= 0) by (nonlinear_arith)
                requires
                    0 <= y,
                    0 <= rate,
            ;
            assert((balance + 1 - y) * s <= 0) by (nonlinear_arith)
                requires
                    balance + 1 - y <= 0,
                    s > 0,
            ;
        }
        assert(s * (balance + 1 - y) == (balance + 1 - y) * s) by (nonlinear_arith);
        lemma_multiply_divide_lt(y * rate, s, balance + 1 - y);
    }
}

/// `exact_count` is the largest number of shares that the balance pays for at
/// `price`, commission included: a number of shares fits exactly when it is
/// at most `exact_count`, which is itself at most the balance.
pub proof fn lemma_exact_count(balance: int, price: int, rate: int)
    requires
        0 <= balance,
        0 < price,
        0 <= rate < RATE_SCALE,
    ensures
        0 <= exact_count(balance, price, rate) <= balance,
        forall|n: int| 0 <= n ==> (#[trigger] fits(n, balance, price, rate) <==> n <= exact_count(
            balance,
            price,
            rate,
        )),
{
    let s = RATE_SCALE as int;
    let d = price * (s + rate);
    assert(0 < d) by (nonlinear_arith)
        requires
            0 < price,
            0 <= rate,
            s > 0,
            d == price * (s + rate),
    ;
    lemma_div_is_ordered(0, (balance + 1) * s - 1, d);
    let e = exact_count(balance, price, rate);
    assert forall|n: int| 0 <= n implies (#[trigger] fits(n, balance, price, rate) <==> n <= e) by {
        lemma_fits_iff(n, balance, price, rate);
    }
    lemma_fits_iff(e, balance, price, rate);
    lemma_commission_bounded(e * price, rate);
    assert(e <= e * price) by (nonlinear_arith)
        requires
            0 <= e,
            0 < price,
    ;
}

proof fn lemma_buy_fits(balance: int, price: int, lot: int, rate: int, basis: CommissionBasis)
    requires
        0 <= balance,
        0 < price,
        0 < lot,
        0 <= rate < RATE_SCALE,
    ensures
        ({
            let fee = buy_commission(balance, price, lot, rate, basis);
            let count = buy_count(balance, price, lot, rate, basis);
            &&& 0 <= fee
            &&& 0 <= count
            &&& count % lot == 0
            &&& count * price + fee <= balance
            &&& count <= balance
        }),
{
    lemma_buy_fits_basis(balance, price, lot, rate, basis);
    let count = buy_count(balance, price, lot, rate, basis);
    assert(count <= count * price) by (nonlinear_arith)
        requires
            0 <= count,
            0 < price,
    ;
}

proof fn lemma_buy_fits_basis(balance: int, price: int, lot: int, rate: int, basis: CommissionBasis)
    requires
        0 <= balance,
        0 < price,
        0 < lot,
        0 <= rate < RATE_SCALE,
    ensures
        ({
            let fee = buy_commission(balance, price, lot, rate, basis);
            let count = buy_count(balance, price, lot, rate, basis);
            &&& 0 <= fee
            &&& 0 <= count
            &&& count % lot == 0
            &&& count * price + fee <= balance
        }),
{
    match basis {
        CommissionBasis::RawCount => {
            let raw = balance / price;
            lemma_floor_mul(balance, price);
            assert(0 <= raw * price) by (nonlinear_arith)
                requires
                    0 <= raw,
                    0 < price,
            ;
            lemma_commission_bounded(raw * price, rate);
            let fee = raw_commission(balance, price, rate);
            let k = (balance - fee) / price;
            lemma_floor_mul(balance - fee, price);
            lemma_floor_mul(k, lot);
            let count = k / lot * lot;
            lemma_mul_inequality(count, k, price);
            lemma_mod_multiples_basic(k / lot, lot);
        },
        CommissionBasis::FinalCount => {
            let e = exact_count(balance, price, rate);
            lemma_exact_count(balance, price, rate);
            lemma_floor_mul(e, lot);
            let count = e / lot * lot;
            lemma_mod_multiples_basic(e / lot, lot);
            assert(fits(count, balance, price, rate));
            assert(0 <= count * price) by (nonlinear_arith)
                requires
                    0 <= count,
                    0 < price,
            ;
            lemma_commission_bounded(count * price, rate);
        },
    }
}

/// The number of shares a buy takes and the commission it pays (see
/// `buy_count` and `buy_commission`).
pub fn buy_terms(balance: u64, price: u64, lot: u64, rate: u64, basis: CommissionBasis) -> (r: (
    u64,
    u64,
))
    requires
        price > 0,
        lot > 0,
        rate < RATE_SCALE,
    ensures
        r.0 == buy_count(balance as int, price as int, lot as int, rate as int, basis),
        r.1 == buy_commission(balance as int, price as int, lot as int, rate as int, basis),
{
    proof {
        lemma_buy_fits(balance as int, price as int, lot as int, rate as int, basis);
    }
    match basis {
        CommissionBasis::RawCount => {
            let raw = balance / price;
            proof {
                lemma_floor_mul(balance as int, price as int);
            }
            let fee = commission(raw * price, rate);
            let affordable = (balance - fee) / price;
            proof {
                lemma_floor_mul(affordable as int, lot as int);
            }
            (affordable / lot * lot, fee)
        },
        CommissionBasis::FinalCount => {
            proof {
                lemma_exact_count(balance as int, price as int, rate as int);
                lemma_mul_upper_bound(
                    price as int,
                    u64::MAX as int,
                    (RATE_SCALE + rate) as int,
                    (2 * RATE_SCALE) as int,
                );
            }
            let numerator = ((balance as u128) + 1) * (RATE_SCALE as u128) - 1;
            let denominator = (price as u128) * ((RATE_SCALE + rate) as u128);
            proof {
                assert(denominator > 0) by (nonlinear_arith)
                    requires
                        price > 0,
                        denominator == price as int * (RATE_SCALE + rate) as int,
                ;
            }
            let exact = (numerator / denominator) as u64;
            proof {
                lemma_floor_mul(exact as int, lot as int);
                lemma_mul_inequality((exact / lot * lot) as int, exact as int, price as int);
                lemma_mul_inequality(exact as int, balance as int, price as int);
                assert(balance as int * price as int <= u64::MAX as int * u64::MAX as int)
                    by (nonlinear_arith)
                    requires
                        balance <= u64::MAX,
                        price <= u64::MAX,
                        0 <= balance,
                        0 <= price,
                ;
            }
            let count = exact / lot * lot;
            let fee = commission(count * price, rate);
            (count, fee)
        },
    }
}

/// Every transition keeps the ledger rules: an entry takes its balance before
/// from the packet and leaves the packet at its balance after; a flat packet
/// can only buy and a holding one only sell; a buy takes a positive whole
/// number of lots that the balance pays for together with the commission, and
/// the packet then holds exactly that many shares; a sale leaves it flat. With
/// no entry the packet is unchanged.
pub proof fn lemma_step_keeps_ledger_rules(
    p: Packet,
    fill: Candle,
    a: Attempt,
    basis: CommissionBasis,
    sold: bool,
    buy: bool,
)
    requires
        p.valid(),
        a.valid(),
        fill.open > 0,
    ensures
        engine_step(p, fill, a, basis, sold, buy) matches Some((q, op)) ==> {
            &&& q.security == p.security
            &&& q.min_count == p.min_count
            &&& op is None ==> q == p
            &&& op matches Some(o) ==> {
                &&& o.sum_before == p.balance
                &&& o.sum_after == q.balance
                &&& o.attempt == a.id
                &&& (o.operation_type == OperationType::Buy) == (p.purchased == 0)
                &&& o.operation_type == OperationType::Buy ==> {
                    &&& o.count > 0
                    &&& o.count % p.min_count == 0
                    &&& o.count * o.price + o.commission <= o.sum_before
                    &&& q.purchased == o.count
                }
                &&& o.operation_type == OperationType::Sold ==> q.purchased == 0
            }
        },
{
    if p.purchased == 0 && buy {
        lemma_buy_fits(
            p.balance as int,
            fill.open as int,
            p.min_count as int,
            a.commission as int,
            basis,
        );
    }
}

/// One transition of the position state machine on a fill candle (see
/// `engine_step`). A new entry points back to `prev`; the caller threads its
/// identifier into the next call.
pub fn strategy_logic(
    packet: &mut Packet,
    candle: &Candle,
    attempt: &Attempt,
    prev: Option<u128>,
    basis: CommissionBasis,
    sold: bool,
    buy: bool,
) -> (r: Result<Option<Operation>, ReplayError>)
    requires
        old(packet).valid(),
        attempt.valid(),
        candle.open > 0,
    ensures
        match engine_step(*old(packet), *candle, *attempt, basis, sold, buy) {
            None => r == Err::<Option<Operation>, ReplayError>(ReplayError::BalanceOverflow)
                && *final(packet) == *old(packet),
            Some((p, op)) => {
                &&& r is Ok
                &&& *final(packet) == p
                &&& r->Ok_0 is Some <==> op is Some
                &&& r->Ok_0 is Some ==> r->Ok_0->Some_0.unlinked() == op->Some_0
                    && r->Ok_0->Some_0.prev == prev
            },
        },
{
    if packet.purchased > 0 {
        if sold {
            proof {
                lemma_mul_upper_bound(
                    packet.purchased as int,
                    u64::MAX as int,
                    candle.open as int,
                    u64::MAX as int,
                );
            }
            let notional_wide = (packet.purchased as u128) * (candle.open as u128);
            if notional_wide > u64::MAX as u128 {
                return Err(ReplayError::BalanceOverflow);
            }
            let notional = notional_wide as u64;
            let fee = commission(notional, attempt.commission);
            if packet.balance as u128 + (notional - fee) as u128 > u64::MAX as u128 {
                return Err(ReplayError::BalanceOverflow);
            }
            let op = create_operation(attempt, OperationType::Sold, packet, fee, prev, candle);
            packet.purchased = 0;
            packet.profit = 0;
            return Ok(Some(op));
        }
        return Ok(None);
    }
    if buy {
        let price = candle.open;
        proof {
            lemma_buy_fits(
                packet.balance as int,
                price as int,
                packet.min_count as int,
                attempt.commission as int,
                basis,
            );
        }
        let (count, fee) = buy_terms(
            packet.balance,
            price,
            packet.min_count,
            attempt.commission,
            basis,
        );
        if count == 0 {
            return Ok(None);
        }
        packet.purchased = count;
        packet.profit = take_profit(price, attempt.profit);
        let op = create_operation(attempt, OperationType::Buy, packet, fee, prev, candle);
        return Ok(Some(op));
    }
    Ok(None)
}

} // verus!
