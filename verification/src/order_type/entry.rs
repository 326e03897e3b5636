//! The single-direction entry strategy: fires one entry action when the
//! drift crosses the threshold *and* its sign matches the requested side;
//! a sign mismatch or an unknown side code is a logged skip, not an error.
use vstd::prelude::*;
use crate::dec::{abs_int, spec_parse_dec};
use crate::invoke::gui::{Data, Mouse, same_config, spec_speed_to_ms};
use crate::middleware::ticker::{TickerStats, spec_diff};
use crate::order_type::process;
use crate::signal;

verus! {

/// The entry action to fire for this cycle.
pub struct EntryPlan {
    pub entry_mouse: Mouse,
}

/// Whether an entry of type `t` acts on drift `d` against threshold
/// `thr`: the trigger must fire and the drift's sign must match the side
/// (1 buys on positive drift, 2 sells on negative).
pub open spec fn entry_acts(t: u8, d: int, thr: int) -> bool {
    &&& thr < abs_int(d)
    &&& ((t == 1 && d >= 0) || (t == 2 && d <= 0))
}

/// Evaluates the trigger for the requested side. When the side matches,
/// the execution gate is acquired and held while the plan's single entry action
/// runs (the runner releases it with `process::unlock`); every other
/// outcome releases the execution gate before returning and publishes the release
/// marker.
pub fn process(t: u8, logic_setting: &mut Data, tickers: &TickerStats) -> (r: Option<EntryPlan>)
    requires
        old(logic_setting).status.is_processing == false,
        old(logic_setting).setting.wf(),
        tickers.wf(),
    ensures
        same_config(*old(logic_setting), *final(logic_setting)),
        final(logic_setting).status.is_recived == old(logic_setting).status.is_recived,
        final(logic_setting).status.is_running == old(logic_setting).status.is_running,
        final(logic_setting).status.ltp == old(logic_setting).status.ltp,
        final(logic_setting).status.orders@ == old(logic_setting).status.orders@,
        final(logic_setting).status.updated_at == old(logic_setting).status.updated_at,
        ({
            let micros = spec_speed_to_ms(old(logic_setting).setting.speed@) * 1000;
            let thr = spec_parse_dec(old(logic_setting).setting.vol@).unwrap();
            let d = spec_diff(tickers@, micros);
            if entry_acts(t, d, thr) {
                &&& final(logic_setting).status.is_processing == true
                &&& final(logic_setting).status.message == old(logic_setting).status.message
                &&& (r matches Some(p) && p.entry_mouse == (if t == 1 {
                    old(logic_setting).mouse_entry_buy
                } else {
                    old(logic_setting).mouse_entry_sell
                }))
            } else {
                &&& final(logic_setting).status.is_processing == false
                &&& final(logic_setting).status.message@ == "undefined"@
                &&& (r matches None)
            }
        }),
{
    process::lock(logic_setting);
    let sig = signal::evaluate(tickers, &logic_setting.setting);
    if sig.exceeds {
        if t == 1 {
            if sig.diff.units < 0 {
                process::unlock(logic_setting, None);
                return None;
            }
            return Some(EntryPlan { entry_mouse: logic_setting.mouse_entry_buy });
        }
        if t == 2 {
            if sig.diff.units > 0 {
                process::unlock(logic_setting, None);
                return None;
            }
            return Some(EntryPlan { entry_mouse: logic_setting.mouse_entry_sell });
        }
        process::unlock(logic_setting, None);
        return None;
    }
    process::unlock(logic_setting, None);
    None
}

} // verus!
