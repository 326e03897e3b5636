//! The signal evaluator: a pure function of a history snapshot and the
//! strategy configuration, yielding the drift over the configured
//! lookback, whether its magnitude crosses the trigger threshold, and its
//! direction. Computed fresh on each evaluation, never cached.
use vstd::prelude::*;
use crate::dec::{Dec, abs_int, spec_parse_dec};
use crate::invoke::gui::{Setting, spec_speed_to_ms};
use crate::middleware::ticker::{TickerStats, spec_diff};

verus! {

/// The side a drift points at; a zero drift points nowhere.
#[derive(Debug, Clone, Copy, PartialEq, Eq, Structural)]
pub enum Direction {
    Buy,
    Sell,
    Flat,
}

pub open spec fn spec_direction(d: int) -> Direction {
    if d > 0 {
        Direction::Buy
    } else if d < 0 {
        Direction::Sell
    } else {
        Direction::Flat
    }
}

/// A derived, ephemeral signal: the directional drift, the threshold
/// test, and the direction. Never persisted.
#[derive(Debug, Clone, Copy, PartialEq, Eq, Structural)]
pub struct Signal {
    pub diff: Dec,
    pub exceeds: bool,
    pub direction: Direction,
}

/// Evaluates one cycle: the lookback window comes from the speed class,
/// the drift from the history, and the trigger compares the drift's
/// magnitude against the configured threshold. The direction is buy on a
/// strictly positive drift, sell on a strictly negative one; a drift of
/// exactly zero never triggers.
pub fn evaluate(tickers: &TickerStats, setting: &Setting) -> (r: Signal)
    requires
        setting.wf(),
        tickers.wf(),
    ensures
        ({
            let micros = spec_speed_to_ms(setting.speed@) * 1000;
            let thr = spec_parse_dec(setting.vol@).unwrap();
            let d = spec_diff(tickers@, micros);
            &&& r.diff.units == d
            &&& r.exceeds == (thr < abs_int(d))
            &&& r.direction == spec_direction(d)
        }),
{
    let (target_diff_micros, target_diff_ticks) = setting.get();
    let diff = tickers.diff(target_diff_micros);
    let exceeds = target_diff_ticks.lt(&diff.abs());
    let direction = if diff.units > 0 {
        Direction::Buy
    } else if diff.units < 0 {
        Direction::Sell
    } else {
        Direction::Flat
    };
    Signal { diff, exceeds, direction }
}

/// A zero drift is indistinguishable from "no signal": it never crosses a
/// non-negative threshold, so the no-data sentinel can never fire an
/// action.
pub proof fn lemma_zero_diff_never_triggers(thr: int)
    requires
        thr >= 0,
    ensures
        !(thr < abs_int(0)),
{
}

} // verus!
