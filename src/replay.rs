use vstd::prelude::*;

use crate::engine::{engine_step, lemma_step_keeps_ledger_rules, strategy_logic, CommissionBasis};
use crate::models::{
    Attempt, Candle, ConfigError, Operation, OperationType, Packet, ReplayError, RATE_SCALE,
};
use crate::signal::{DaySignalState, StrategyKind};

verus! {

/// How a run turns candles into trades: the buy rule, whether a signal is
/// filled at the next candle's open (`fill_next`) or at its own, and how the
/// commission of a buy is charged.
#[derive(Clone, Debug)]
pub struct ReplayConfig {
    pub strategy: StrategyKind,
    pub fill_next: bool,
    pub commission_basis: CommissionBasis,
}

impl ReplayConfig {
    /// How many candles after the signal candle the fill candle comes.
    pub open spec fn lag(self) -> int {
        if self.fill_next {
            1
        } else {
            0
        }
    }
}

/// How many candles of a series of `n` act as signal candles.
pub open spec fn signal_count(n: int, config: ReplayConfig) -> int {
    if n >= config.lag() {
        n - config.lag()
    } else {
        0
    }
}

/// The entries with identifiers and back-references left out.
pub open spec fn unlinked_all(ops: Seq<Operation>) -> Seq<Operation> {
    ops.map_values(|o: Operation| o.unlinked())
}

/// The run after its first `k` signal candles: the rolling day state, the
/// packet and the entries written (without identifiers), or `None` when a
/// sale did not fit the machine.
pub open spec fn replay_upto(
    candles: Seq<Candle>,
    config: ReplayConfig,
    start: Packet,
    attempt: Attempt,
    k: nat,
) -> Option<(DaySignalState, Packet, Seq<Operation>)>
    decreases k,
{
    if k == 0 {
        Some((DaySignalState::fresh(), start, Seq::empty()))
    } else {
        match replay_upto(candles, config, start, attempt, (k - 1) as nat) {
            None => None,
            Some((state, packet, ops)) => {
                let signal = candles[k - 1];
                let fill = candles[k - 1 + config.lag()];
                let (next, buy) = config.strategy.detect_spec(state, signal);
                let sold = signal.close >= packet.profit;
                match engine_step(packet, fill, attempt, config.commission_basis, sold, buy) {
                    None => None,
                    Some((p, op)) => Some(
                        (
                            next,
                            p,
                            match op {
                                Some(o) => ops.push(o),
                                None => ops,
                            },
                        ),
                    ),
                }
            },
        }
    }
}

/// The candle at `i` is valid and begins after the one before it.
pub open spec fn candle_ok(candles: Seq<Candle>, i: int) -> bool {
    &&& candles[i].valid()
    &&& i > 0 ==> candles[i - 1].begin.before(candles[i].begin)
}

pub open spec fn candles_ok_upto(candles: Seq<Candle>, n: int) -> bool {
    forall|i: int| 0 <= i < n ==> #[trigger] candle_ok(candles, i)
}

/// The configuration error of a run, checked in this order.
pub open spec fn config_error(packet: Packet, attempt: Attempt) -> Option<ConfigError> {
    if !packet.valid() {
        Some(ConfigError::InvalidLotSize)
    } else if attempt.profit == 0 {
        Some(ConfigError::InvalidProfit)
    } else if attempt.commission >= RATE_SCALE {
        Some(ConfigError::InvalidCommission)
    } else {
        None
    }
}

/// Each entry's balance after is the next entry's balance before.
pub open spec fn balances_chained(ops: Seq<Operation>) -> bool {
    forall|i: int, j: int|
        0 <= i && j == i + 1 && j < ops.len() ==> #[trigger] ops[i].sum_after
            == #[trigger] ops[j].sum_before
}

/// Each buy takes a positive whole number of lots.
pub open spec fn lots_respected(ops: Seq<Operation>, lot: u64) -> bool {
    forall|i: int|
        0 <= i < ops.len() && #[trigger] ops[i].operation_type == OperationType::Buy ==> ops[i].count
            > 0 && ops[i].count % lot == 0
}

/// Each buy's notional and commission together fit in its balance before.
pub open spec fn buys_affordable(ops: Seq<Operation>) -> bool {
    forall|i: int|
        0 <= i < ops.len() && #[trigger] ops[i].operation_type == OperationType::Buy ==> ops[i].count
            * ops[i].price + ops[i].commission <= ops[i].sum_before
}

/// Buys and sales strictly alternate.
pub open spec fn sides_alternate(ops: Seq<Operation>) -> bool {
    forall|i: int, j: int|
        0 <= i && j == i + 1 && j < ops.len() ==> #[trigger] ops[i].operation_type
            != #[trigger] ops[j].operation_type
}

/// Every entry belongs to the run and points back to the entry before it.
pub open spec fn back_linked(ops: Seq<Operation>, attempt_id: u128) -> bool {
    &&& forall|i: int| 0 <= i < ops.len() ==> (#[trigger] ops[i]).attempt == attempt_id
    &&& ops.len() > 0 ==> ops[0].prev is None
    &&& forall|i: int, j: int|
        0 <= i && j == i + 1 && j < ops.len() ==> #[trigger] ops[j].prev == Some(
            #[trigger] ops[i].id,
        )
}

/// The rules that every ledger of a run written from `start` keeps.
pub open spec fn ledger_rules(ops: Seq<Operation>, start: Packet, attempt_id: u128) -> bool {
    &&& balances_chained(ops)
    &&& lots_respected(ops, start.min_count)
    &&& buys_affordable(ops)
    &&& sides_alternate(ops)
    &&& back_linked(ops, attempt_id)
    &&& ops.len() > 0 ==> ops[0].sum_before == start.balance && (ops[0].operation_type
        == OperationType::Buy) == (start.purchased == 0)
}

/// The packet `now` is where the ledger leaves the packet `start`.
pub open spec fn ledger_reaches(ops: Seq<Operation>, start: Packet, now: Packet) -> bool {
    &&& now.security == start.security
    &&& now.min_count == start.min_count
    &&& ops.len() == 0 ==> now == start
    &&& ops.len() > 0 ==> ops.last().sum_after == now.balance && (ops.last().operation_type
        == OperationType::Buy) == (now.purchased > 0)
}


/// The candle at `i` is the first one that breaks `candle_ok`.
pub open spec fn first_fault(candles: Seq<Candle>, i: int) -> bool {
    0 <= i < candles.len() && candles_ok_upto(candles, i) && !candle_ok(candles, i)
}

proof fn lemma_first_fault_unique(candles: Seq<Candle>, i: int)
    requires
        first_fault(candles, i),
    ensures
        forall|j: int| #[trigger] first_fault(candles, j) ==> j == i,
        !candles_ok_upto(candles, candles.len() as int),
{
    assert forall|j: int| #[trigger] first_fault(candles, j) implies j == i by {
        if j < i {
            assert(candle_ok(candles, j));
        } else if j > i {
            assert(candle_ok(candles, i));
        }
    }
    assert(!candle_ok(candles, i));
}

proof fn lemma_no_fault(candles: Seq<Candle>)
    requires
        candles_ok_upto(candles, candles.len() as int),
    ensures
        forall|j: int| !#[trigger] first_fault(candles, j),
{
    assert forall|j: int| !#[trigger] first_fault(candles, j) by {
        if 0 <= j < candles.len() {
            assert(candle_ok(candles, j));
        }
    }
}

/// Checks the candles in order and reports the first one that is invalid or
/// does not begin after the one before it.
pub fn check_candles(candles: &Vec<Candle>) -> (r: Result<(), ReplayError>)
    ensures
        r is Ok <==> candles_ok_upto(candles@, candles@.len() as int),
        forall|i: usize|
            r == Err::<(), ReplayError>(ReplayError::InvalidCandle(i)) <==> (first_fault(
                candles@,
                i as int,
            ) && !candles@[i as int].valid()),
        forall|i: usize|
            r == Err::<(), ReplayError>(ReplayError::OutOfOrder(i)) <==> (first_fault(
                candles@,
                i as int,
            ) && candles@[i as int].valid()),
        r matches Err(e) ==> (e is InvalidCandle || e is OutOfOrder),
{
    let mut i: usize = 0;
    while i < candles.len()
        invariant
            i <= candles@.len(),
            candles_ok_upto(candles@, i as int),
        decreases candles.len() - i,
    {
        if !candles[i].is_valid() {
            proof {
                assert(first_fault(candles@, i as int));
                lemma_first_fault_unique(candles@, i as int);
            }
            return Err(ReplayError::InvalidCandle(i));
        }
        if i > 0 && !candles[i - 1].begin.is_before(&candles[i].begin) {
            proof {
                assert(first_fault(candles@, i as int));
                lemma_first_fault_unique(candles@, i as int);
            }
            return Err(ReplayError::OutOfOrder(i));
        }
        proof {
            assert forall|j: int| 0 <= j < i + 1 implies #[trigger] candle_ok(candles@, j) by {
                if j < i {
                    assert(candle_ok(candles@, j));
                }
            }
        }
        i = i + 1;
    }
    proof {
        lemma_no_fault(candles@);
    }
    Ok(())
}

/// Appending the entry of one transition (see `lemma_step_keeps_ledger_rules`)
/// keeps the ledger rules and moves the ledger to the new packet.
#[verifier::spinoff_prover]
proof fn lemma_ledger_extend(
    ops: Seq<Operation>,
    start: Packet,
    attempt_id: u128,
    p: Packet,
    q: Packet,
    o: Operation,
)
    requires
        ledger_rules(ops, start, attempt_id),
        ledger_reaches(ops, start, p),
        q.security == p.security,
        q.min_count == p.min_count,
        o.sum_before == p.balance,
        o.sum_after == q.balance,
        o.attempt == attempt_id,
        (o.operation_type == OperationType::Buy) == (p.purchased == 0),
        o.operation_type == OperationType::Buy ==> {
            &&& o.count > 0
            &&& o.count % p.min_count == 0
            &&& o.count * o.price + o.commission <= o.sum_before
            &&& q.purchased == o.count
        },
        o.operation_type == OperationType::Sold ==> q.purchased == 0,
        o.prev == if ops.len() == 0 {
            None
        } else {
            Some(ops.last().id)
        },
    ensures
        ledger_rules(ops.push(o), start, attempt_id),
        ledger_reaches(ops.push(o), start, q),
{
    lemma_chained_push(ops, o);
    lemma_lots_push(ops, start.min_count, o);
    lemma_affordable_push(ops, o);
    lemma_alternate_push(ops, o);
    lemma_linked_push(ops, attempt_id, o);
    assert(ops.push(o)[ops.len() as int] == o);
    if ops.len() > 0 {
        assert(ops.push(o)[0] == ops[0]);
    }
}

proof fn lemma_chained_push(ops: Seq<Operation>, o: Operation)
    requires
        balances_chained(ops),
        ops.len() > 0 ==> ops.last().sum_after == o.sum_before,
    ensures
        balances_chained(ops.push(o)),
{
    let next = ops.push(o);
    assert forall|i: int, j: int|
        0 <= i && j == i + 1 && j < next.len() implies #[trigger] next[i].sum_after
        == #[trigger] next[j].sum_before by {
        assert(next[i] == ops[i]);
        if j < ops.len() {
            assert(next[j] == ops[j]);
        }
    }
}

proof fn lemma_lots_push(ops: Seq<Operation>, lot: u64, o: Operation)
    requires
        lots_respected(ops, lot),
        o.operation_type == OperationType::Buy ==> o.count > 0 && o.count % lot == 0,
    ensures
        lots_respected(ops.push(o), lot),
{
    let next = ops.push(o);
    assert forall|i: int|
        0 <= i < next.len() && #[trigger] next[i].operation_type
            == OperationType::Buy implies next[i].count > 0 && next[i].count % lot == 0 by {
        if i < ops.len() {
            assert(next[i] == ops[i]);
        }
    }
}

proof fn lemma_affordable_push(ops: Seq<Operation>, o: Operation)
    requires
        buys_affordable(ops),
        o.operation_type == OperationType::Buy ==> o.count * o.price + o.commission
            <= o.sum_before,
    ensures
        buys_affordable(ops.push(o)),
{
    let next = ops.push(o);
    assert forall|i: int|
        0 <= i < next.len() && #[trigger] next[i].operation_type
            == OperationType::Buy implies next[i].count * next[i].price + next[i].commission
        <= next[i].sum_before by {
        if i < ops.len() {
            assert(next[i] == ops[i]);
        }
    }
}

proof fn lemma_alternate_push(ops: Seq<Operation>, o: Operation)
    requires
        sides_alternate(ops),
        ops.len() > 0 ==> ops.last().operation_type != o.operation_type,
    ensures
        sides_alternate(ops.push(o)),
{
    let next = ops.push(o);
    assert forall|i: int, j: int|
        0 <= i && j == i + 1 && j < next.len() implies #[trigger] next[i].operation_type
        != #[trigger] next[j].operation_type by {
        assert(next[i] == ops[i]);
        if j < ops.len() {
            assert(next[j] == ops[j]);
        }
    }
}

proof fn lemma_linked_push(ops: Seq<Operation>, attempt_id: u128, o: Operation)
    requires
        back_linked(ops, attempt_id),
        o.attempt == attempt_id,
        o.prev == if ops.len() == 0 {
            None
        } else {
            Some(ops.last().id)
        },
    ensures
        back_linked(ops.push(o), attempt_id),
{
    let next = ops.push(o);
    assert forall|i: int| 0 <= i < next.len() implies (#[trigger] next[i]).attempt
        == attempt_id by {
        if i < ops.len() {
            assert(next[i] == ops[i]);
        }
    }
    assert forall|i: int, j: int|
        0 <= i && j == i + 1 && j < next.len() implies #[trigger] next[j].prev == Some(
        #[trigger] next[i].id,
    ) by {
        assert(next[i] == ops[i]);
        if j < ops.len() {
            assert(next[j] == ops[j]);
        }
    }
    if ops.len() > 0 {
        assert(next[0] == ops[0]);
    }
}

proof fn lemma_failure_persists(
    candles: Seq<Candle>,
    config: ReplayConfig,
    start: Packet,
    attempt: Attempt,
    k: nat,
    m: nat,
)
    requires
        k <= m,
        replay_upto(candles, config, start, attempt, k) is None,
    ensures
        replay_upto(candles, config, start, attempt, m) is None,
    decreases m - k,
{
    if k < m {
        lemma_failure_persists(candles, config, start, attempt, (k + 1) as nat, m);
    }
}

/// Replays the candles through the strategy and the position state machine,
/// starting from `packet`, and returns the final packet with the ledger of the
/// run. Each signal candle is filled at its own open, or at the next candle's
/// open when `fill_next` is set; the last candle is then a fill candle only.
pub fn replay(packet: Packet, attempt: &Attempt, candles: &Vec<Candle>, config: &ReplayConfig) -> (r:
    Result<(Packet, Vec<Operation>), ReplayError>)
    ensures
        config_error(packet, *attempt) matches Some(e) ==> r == Err::<
            (Packet, Vec<Operation>),
            ReplayError,
        >(ReplayError::Config(e)),
        config_error(packet, *attempt) is None ==> {
            &&& forall|i: usize|
                r == Err::<(Packet, Vec<Operation>), ReplayError>(ReplayError::InvalidCandle(i))
                    <==> (first_fault(candles@, i as int) && !candles@[i as int].valid())
            &&& forall|i: usize|
                r == Err::<(Packet, Vec<Operation>), ReplayError>(ReplayError::OutOfOrder(i))
                    <==> (first_fault(candles@, i as int) && candles@[i as int].valid())
        },
        config_error(packet, *attempt) is None && candles_ok_upto(
            candles@,
            candles@.len() as int,
        ) ==> match replay_upto(
            candles@,
            *config,
            packet,
            *attempt,
            signal_count(candles@.len() as int, *config) as nat,
        ) {
            None => r == Err::<(Packet, Vec<Operation>), ReplayError>(
                ReplayError::BalanceOverflow,
            ),
            Some((_, p, ops)) => r matches Ok((q, v)) && q == p && unlinked_all(v@) == ops
                && ledger_rules(v@, packet, attempt.id) && ledger_reaches(v@, packet, q),
        },
{
    if packet.min_count == 0 {
        return Err(ReplayError::Config(ConfigError::InvalidLotSize));
    }
    if attempt.profit == 0 {
        return Err(ReplayError::Config(ConfigError::InvalidProfit));
    }
    if attempt.commission >= RATE_SCALE {
        return Err(ReplayError::Config(ConfigError::InvalidCommission));
    }
    match check_candles(candles) {
        Err(e) => {
            return Err(e);
        },
        Ok(()) => {},
    }
    let ghost start = packet;
    let mut current = packet;
    let mut state = DaySignalState::new();
    let mut ops: Vec<Operation> = Vec::new();
    let mut prev: Option<u128> = None;
    let lag: usize = if config.fill_next {
        1
    } else {
        0
    };
    let count: usize = if candles.len() >= lag {
        candles.len() - lag
    } else {
        0
    };
    let mut i: usize = 0;
    while i < count
        invariant
            lag == config.lag(),
            count == signal_count(candles@.len() as int, *config),
            i <= count,
            count + lag <= candles@.len() || count == 0,
            start == packet,
            config_error(start, *attempt) is None,
            attempt.valid(),
            candles_ok_upto(candles@, candles@.len() as int),
            replay_upto(candles@, *config, start, *attempt, i as nat) == Some(
                (state, current, unlinked_all(ops@)),
            ),
            prev == if ops@.len() == 0 {
                None
            } else {
                Some(ops@.last().id)
            },
            ledger_rules(ops@, start, attempt.id),
            ledger_reaches(ops@, start, current),
        decreases count - i,
    {
        let signal = &candles[i];
        let fill = &candles[i + lag];
        proof {
            assert(candle_ok(candles@, i as int));
            assert(candle_ok(candles@, i + lag));
        }
        let buy = config.strategy.detect(&mut state, signal);
        let sold = signal.close as u128 >= current.profit;
        proof {
            lemma_step_keeps_ledger_rules(
                current,
                *fill,
                *attempt,
                config.commission_basis,
                sold,
                buy,
            );
        }
        let ghost before = ops@;
        let ghost old_current = current;
        let step = strategy_logic(
            &mut current,
            fill,
            attempt,
            prev,
            config.commission_basis,
            sold,
            buy,
        );
        match step {
            Err(e) => {
                proof {
                    lemma_failure_persists(
                        candles@,
                        *config,
                        start,
                        *attempt,
                        (i + 1) as nat,
                        count as nat,
                    );
                }
                return Err(e);
            },
            Ok(None) => {},
            Ok(Some(op)) => {
                proof {
                    lemma_ledger_extend(before, start, attempt.id, old_current, current, op);
                }
                prev = Some(op.id);
                ops.push(op);
                proof {
                    assert(unlinked_all(ops@) =~= unlinked_all(before).push(op.unlinked()));
                }
            },
        }
        i = i + 1;
    }
    Ok((current, ops))
}

} // verus!

verus! {

/// An entry with everything that names the run or the chain left out.
pub open spec fn detached(op: Operation) -> Operation {
    Operation { id: 0, attempt: 0, prev: None, ..op }
}

proof fn lemma_replay_upto_ignores_run_id(
    candles: Seq<Candle>,
    config: ReplayConfig,
    start: Packet,
    a1: Attempt,
    a2: Attempt,
    k: nat,
)
    requires
        a1.profit == a2.profit,
        a1.commission == a2.commission,
    ensures
        replay_upto(candles, config, start, a1, k) is None <==> replay_upto(
            candles,
            config,
            start,
            a2,
            k,
        ) is None,
        replay_upto(candles, config, start, a1, k) matches Some((s1, p1, o1)) ==> (
        replay_upto(candles, config, start, a2, k) matches Some((s2, p2, o2)) && s1 == s2 && p1
            == p2 && o1.len() == o2.len() && forall|i: int|
            0 <= i < o1.len() ==> detached(#[trigger] o1[i]) == detached(o2[i])),
    decreases k,
{
    if k > 0 {
        lemma_replay_upto_ignores_run_id(candles, config, start, a1, a2, (k - 1) as nat);
        if let Some((s1, p1, o1)) = replay_upto(candles, config, start, a1, (k - 1) as nat) {
            let (s2, p2, o2) = replay_upto(candles, config, start, a2, (k - 1) as nat).unwrap();
            let signal = candles[k - 1];
            let fill = candles[k - 1 + config.lag()];
            let (next, buy) = config.strategy.detect_spec(s1, signal);
            let sold = signal.close >= p1.profit;
            let r1 = engine_step(p1, fill, a1, config.commission_basis, sold, buy);
            let r2 = engine_step(p1, fill, a2, config.commission_basis, sold, buy);
            if let Some((q1, op1)) = r1 {
                let (q2, op2) = r2.unwrap();
                if let Some(e1) = op1 {
                    let e2 = op2.unwrap();
                    assert(detached(e1) == detached(e2));
                    let n1 = o1.push(e1);
                    let n2 = o2.push(e2);
                    assert forall|i: int| 0 <= i < n1.len() implies detached(#[trigger] n1[i])
                        == detached(n2[i]) by {
                        if i < o1.len() {
                            assert(n1[i] == o1[i]);
                            assert(n2[i] == o2[i]);
                        }
                    }
                }
            }
        }
    }
}

/// Replaying the same candles with the same strategy, the same starting packet
/// and the same take-profit margin and commission rate, under any two run
/// identifiers, ends in the same packet and writes the same entries: equal in
/// side, count, price, commission, time and balances, and differing at most in
/// the identifiers that name the run and the chain. The ledgers are given as
/// `replay` describes its successful results.
pub proof fn lemma_replay_deterministic(
    candles: Seq<Candle>,
    config: ReplayConfig,
    start: Packet,
    a1: Attempt,
    a2: Attempt,
    q1: Packet,
    v1: Seq<Operation>,
    q2: Packet,
    v2: Seq<Operation>,
)
    requires
        a1.profit == a2.profit,
        a1.commission == a2.commission,
        replay_upto(candles, config, start, a1, signal_count(candles.len() as int, config) as nat)
            matches Some((_, p, ops)) && q1 == p && unlinked_all(v1) == ops,
        replay_upto(candles, config, start, a2, signal_count(candles.len() as int, config) as nat)
            matches Some((_, p, ops)) && q2 == p && unlinked_all(v2) == ops,
    ensures
        q1 == q2,
        v1.len() == v2.len(),
        forall|i: int| 0 <= i < v1.len() ==> detached(#[trigger] v1[i]) == detached(v2[i]),
{
    let n = signal_count(candles.len() as int, config) as nat;
    lemma_replay_upto_ignores_run_id(candles, config, start, a1, a2, n);
    let o1 = unlinked_all(v1);
    let o2 = unlinked_all(v2);
    assert(o1.len() == v1.len());
    assert(o2.len() == v2.len());
    assert forall|i: int| 0 <= i < v1.len() implies detached(#[trigger] v1[i]) == detached(
        v2[i],
    ) by {
        assert(o1[i] == v1[i].unlinked());
        assert(o2[i] == v2[i].unlinked());
        assert(detached(o1[i]) == detached(o2[i]));
    }
}

} // verus!
