use vstd::arithmetic::mul::lemma_mul_upper_bound;
use vstd::prelude::*;

use crate::models::{Candle, RATE_SCALE};

verus! {

/// The rolling state of the detector: the day of the last candle (none before
/// the first one); for the breakout rule, the volume of the day's up and down
/// candles so far and the breakout flag; for the window rule, the volume
/// baseline (none until the first day has ended), and the total volume and
/// number of the candles that fed it. Sums stop at `u64::MAX` rather than wrap.
#[derive(Clone, Copy, Debug, PartialEq, Eq, Structural)]
pub struct DaySignalState {
    pub day: Option<i64>,
    pub volume_up: u64,
    pub volume_down: u64,
    pub volume_ok: bool,
    pub baseline: Option<u64>,
    pub volume_sum: u64,
    pub candle_count: u64,
}

/// `a + b`, or `u64::MAX` where the sum does not fit.
pub open spec fn capped_sum(a: u64, b: u64) -> u64 {
    if a + b > u64::MAX {
        u64::MAX
    } else {
        (a + b) as u64
    }
}

/// The signed percent move of a candle, `max/min * 100 - 100` taken negative
/// for a falling candle, lies in `[0, band / 10_000]`: the candle did not fall
/// and rose by at most `band` parts per million of its open price.
pub open spec fn in_buy_band(c: Candle, band: u64) -> bool {
    c.open <= c.close && (c.close - c.open) * RATE_SCALE <= c.open * band
}

impl DaySignalState {
    pub open spec fn fresh() -> DaySignalState {
        DaySignalState {
            day: None,
            volume_up: 0,
            volume_down: 0,
            volume_ok: false,
            baseline: None,
            volume_sum: 0,
            candle_count: 0,
        }
    }

    /// The state at the start of `day`: kept when it already belongs to that
    /// day, else reset.
    pub open spec fn on_day(self, day: i64) -> DaySignalState {
        if self.day == Some(day) {
            self
        } else {
            DaySignalState { day: Some(day), volume_up: 0, volume_down: 0, volume_ok: false, ..self }
        }
    }

    /// The state after adding a candle of the current day: an up candle adds
    /// to the up volume and, when at least `breakout_volume`, clears the flag;
    /// a down candle adds to the down volume and, when at least
    /// `breakout_volume`, sets it; an unchanged candle changes nothing.
    pub open spec fn absorbed(self, c: Candle, breakout_volume: u64) -> DaySignalState {
        if c.close > c.open {
            DaySignalState {
                volume_up: capped_sum(self.volume_up, c.volume),
                volume_ok: if c.volume >= breakout_volume {
                    false
                } else {
                    self.volume_ok
                },
                ..self
            }
        } else if c.close < c.open {
            DaySignalState {
                volume_down: capped_sum(self.volume_down, c.volume),
                volume_ok: if c.volume >= breakout_volume {
                    true
                } else {
                    self.volume_ok
                },
                ..self
            }
        } else {
            self
        }
    }

    pub open spec fn observed(self, c: Candle, breakout_volume: u64) -> DaySignalState {
        self.on_day(c.begin.day).absorbed(c, breakout_volume)
    }

    /// The state before any candle.
    pub fn new() -> (r: DaySignalState)
        ensures
            r == DaySignalState::fresh(),
    {
        DaySignalState {
            day: None,
            volume_up: 0,
            volume_down: 0,
            volume_ok: false,
            baseline: None,
            volume_sum: 0,
            candle_count: 0,
        }
    }

    /// Moves the state to `day`, resetting it when the day changes.
    pub fn on_new_day(&mut self, day: i64)
        ensures
            *final(self) == old(self).on_day(day),
    {
        let same = match self.day {
            Some(d) => d == day,
            None => false,
        };
        if !same {
            self.day = Some(day);
            self.volume_up = 0;
            self.volume_down = 0;
            self.volume_ok = false;
        }
    }

    /// Takes in one candle: first the day change, then its volume and the
    /// breakout flag. On the first candle of a new day the volume sums hold
    /// that candle's contribution alone.
    pub fn observe(&mut self, candle: &Candle, breakout_volume: u64)
        ensures
            *final(self) == old(self).observed(*candle, breakout_volume),
            old(self).day != Some(candle.begin.day) ==> {
                &&& final(self).volume_up == if candle.close > candle.open {
                    candle.volume
                } else {
                    0
                }
                &&& final(self).volume_down == if candle.close < candle.open {
                    candle.volume
                } else {
                    0
                }
            },
    {
        self.on_new_day(candle.begin.day);
        if candle.close > candle.open {
            self.volume_up = self.volume_up.saturating_add(candle.volume);
            if candle.volume >= breakout_volume {
                self.volume_ok = false;
            }
        }
        if candle.close < candle.open {
            self.volume_down = self.volume_down.saturating_add(candle.volume);
            if candle.volume >= breakout_volume {
                self.volume_ok = true;
            }
        }
    }
}

/// Whether `hour` is one of `hours`.
pub fn is_blackout(hours: &Vec<u32>, hour: u32) -> (r: bool)
    ensures
        r == hours@.contains(hour),
{
    let mut i: usize = 0;
    while i < hours.len()
        invariant
            i <= hours.len(),
            forall|j: int| 0 <= j < i ==> hours@[j] != hour,
        decreases hours.len() - i,
    {
        if hours[i] == hour {
            return true;
        }
        i = i + 1;
    }
    false
}

/// Whether the candle's signed percent move lies in the buy band (see
/// `in_buy_band`).
pub fn within_band(candle: &Candle, band: u64) -> (r: bool)
    ensures
        r == in_buy_band(*candle, band),
{
    if candle.close < candle.open {
        return false;
    }
    let rise = (candle.close - candle.open) as u128;
    proof {
        lemma_mul_upper_bound(rise as int, u64::MAX as int, RATE_SCALE as int, u64::MAX as int);
        lemma_mul_upper_bound(
            candle.open as int,
            u64::MAX as int,
            band as int,
            u64::MAX as int,
        );
    }
    rise * (RATE_SCALE as u128) <= (candle.open as u128) * (band as u128)
}

/// The rule that turns candles into buy signals. Sell signals come from the
/// take-profit price of the open position.
#[derive(Clone, Debug)]
pub enum StrategyKind {
    /// Buy on a flat or barely rising candle (within `band` parts per million)
    /// once a down candle of at least `breakout_volume` has armed the day and
    /// no up candle that large has disarmed it, outside `blackout_hours`.
    VolumeBreakout { breakout_volume: u64, band: u64, blackout_hours: Vec<u32> },
    /// Buy on a falling candle whose volume exceeds `average_volume`.
    AverageVolumeBaseline { average_volume: u64 },
    /// Buy on a falling candle that begins in an hour from `from_hour` up to,
    /// not including, `to_hour`, with a volume of at least `multiplier` times
    /// the baseline: the mean volume of the candles of the earlier days that
    /// fed it (`initial_baseline` until the first day has ended). The first
    /// candle of each later day sets the baseline and is not counted in it.
    FixedWindow { from_hour: u32, to_hour: u32, multiplier: u64, initial_baseline: u64 },
}

/// The window rule's state after `c`: at the first candle of a new day the
/// baseline becomes the mean volume so far; any other candle adds to the sums.
pub open spec fn window_absorbed(st: DaySignalState, c: Candle) -> DaySignalState {
    if st.day is Some && st.day != Some(c.begin.day) {
        DaySignalState {
            day: Some(c.begin.day),
            baseline: if st.candle_count > 0 {
                Some(st.volume_sum / st.candle_count)
            } else {
                st.baseline
            },
            ..st
        }
    } else {
        DaySignalState {
            day: Some(c.begin.day),
            volume_sum: capped_sum(st.volume_sum, c.volume),
            candle_count: capped_sum(st.candle_count, 1),
            ..st
        }
    }
}

impl DaySignalState {
    /// Takes in one candle for the window rule (see `window_absorbed`).
    pub fn absorb_window(&mut self, candle: &Candle)
        ensures
            *final(self) == window_absorbed(*old(self), *candle),
    {
        let new_day = match self.day {
            Some(d) => d != candle.begin.day,
            None => false,
        };
        if new_day {
            if self.candle_count > 0 {
                self.baseline = Some(self.volume_sum / self.candle_count);
            }
        } else {
            self.volume_sum = self.volume_sum.saturating_add(candle.volume);
            self.candle_count = self.candle_count.saturating_add(1);
        }
        self.day = Some(candle.begin.day);
    }
}

/// The baseline in force: the one set, else the initial one.
pub open spec fn baseline_or(st: DaySignalState, initial: u64) -> u64 {
    match st.baseline {
        Some(b) => b,
        None => initial,
    }
}

impl StrategyKind {
    /// The rolling state after `c` and whether `c` is a buy signal.
    pub open spec fn detect_spec(self, st: DaySignalState, c: Candle) -> (DaySignalState, bool) {
        match self {
            StrategyKind::VolumeBreakout { breakout_volume, band, blackout_hours } => {
                let next = st.observed(c, breakout_volume);
                (
                    next,
                    next.volume_ok && in_buy_band(c, band) && !blackout_hours@.contains(
                        c.begin.hour_spec(),
                    ),
                )
            },
            StrategyKind::AverageVolumeBaseline { average_volume } => (
                st,
                c.volume > average_volume && c.open > c.close,
            ),
            StrategyKind::FixedWindow { from_hour, to_hour, multiplier, initial_baseline } => (
                window_absorbed(st, c),
                from_hour <= c.begin.hour_spec() < to_hour && c.volume >= baseline_or(
                    st,
                    initial_baseline,
                ) * multiplier && c.open > c.close,
            ),
        }
    }

    /// Takes in one candle and says whether it is a buy signal.
    pub fn detect(&self, state: &mut DaySignalState, candle: &Candle) -> (buy: bool)
        requires
            candle.begin.valid(),
        ensures
            (*final(state), buy) == self.detect_spec(*old(state), *candle),
    {
        match self {
            StrategyKind::VolumeBreakout { breakout_volume, band, blackout_hours } => {
                state.observe(candle, *breakout_volume);
                state.volume_ok && within_band(candle, *band) && !is_blackout(
                    blackout_hours,
                    candle.begin.hour(),
                )
            },
            StrategyKind::AverageVolumeBaseline { average_volume } => {
                candle.volume > *average_volume && candle.open > candle.close
            },
            StrategyKind::FixedWindow { from_hour, to_hour, multiplier, initial_baseline } => {
                let base = match state.baseline {
                    Some(b) => b,
                    None => *initial_baseline,
                };
                proof {
                    lemma_mul_upper_bound(
                        base as int,
                        u64::MAX as int,
                        *multiplier as int,
                        u64::MAX as int,
                    );
                }
                let hour = candle.begin.hour();
                let buy = *from_hour <= hour && hour < *to_hour && (candle.volume as u128) >= (
                base as u128) * (*multiplier as u128) && candle.open > candle.close;
                state.absorb_window(candle);
                buy
            },
        }
    }
}

} // verus!
