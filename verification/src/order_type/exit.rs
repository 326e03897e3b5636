//! The settlement-only strategy: when the drift crosses the threshold it
//! fires the exit action the configured number of times, with the fixed
//! inter-click pause, and nothing else.
use vstd::prelude::*;
use crate::dec::{abs_int, spec_parse_dec};
use crate::invoke::gui::{Data, Mouse, same_config, spec_speed_to_ms};
use crate::middleware::ticker::{TickerStats, spec_diff};
use crate::order_type::process;
use crate::signal;

verus! {

/// The exit action to fire; its region carries the click count `n`.
pub struct ExitPlan {
    pub exit_mouse: Mouse,
}

/// Evaluates the drift-versus-threshold trigger. On a trigger the execution gate is
/// acquired and held while the plan's repeated exit actions run (the
/// runner releases it with `process::unlock`); otherwise the execution gate is
/// released before returning and the release marker published.
pub fn process(logic_setting: &mut Data, tickers: &TickerStats) -> (r: Option<ExitPlan>)
    requires
        old(logic_setting).status.is_processing == false,
        old(logic_setting).setting.wf(),
        tickers.wf(),
    ensures
        same_config(*old(logic_setting), *final(logic_setting)),
        final(logic_setting).status.is_recived == old(logic_setting).status.is_recived,
        final(logic_setting).status.is_running == old(logic_setting).status.is_running,
        final(logic_setting).status.ltp == old(logic_setting).status.ltp,
        final(logic_setting).status.orders@ == old(logic_setting).status.orders@,
        final(logic_setting).status.updated_at == old(logic_setting).status.updated_at,
        ({
            let micros = spec_speed_to_ms(old(logic_setting).setting.speed@) * 1000;
            let thr = spec_parse_dec(old(logic_setting).setting.vol@).unwrap();
            let d = spec_diff(tickers@, micros);
            if thr < abs_int(d) {
                &&& final(logic_setting).status.is_processing == true
                &&& final(logic_setting).status.message == old(logic_setting).status.message
                &&& (r matches Some(p) && p.exit_mouse == old(logic_setting).mouse_exit)
            } else {
                &&& final(logic_setting).status.is_processing == false
                &&& final(logic_setting).status.message@ == "undefined"@
                &&& (r matches None)
            }
        }),
{
    process::lock(logic_setting);
    let sig = signal::evaluate(tickers, &logic_setting.setting);
    if sig.exceeds {
        Some(ExitPlan { exit_mouse: logic_setting.mouse_exit })
    } else {
        process::unlock(logic_setting, None);
        None
    }
}

} // verus!
