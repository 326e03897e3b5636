//! The flag-driven strategy: the action is chosen by the directive flag
//! carried on the most recent tick, bypassing the drift/threshold test
//! entirely. Unmapped flags are no-ops.
use vstd::prelude::*;
use crate::invoke::gui::{Data, Mouse, same_config};
use crate::middleware::ticker::TickerStats;
use crate::order_type::process;

verus! {

/// The closed set of actions a directive flag can select.
#[derive(Debug, Clone, Copy, PartialEq, Eq, Structural)]
pub enum Flag {
    NoOp,
    EntryBuy,
    EntrySell,
    EntryBuyExit,
    EntrySellExit,
    ExitBuy,
    ExitSell,
}

/// The exhaustive wire mapping: 1 to 6 select an action, everything else
/// is the explicit no-op.
pub open spec fn spec_flag(value: u8) -> Flag {
    if value == 1 {
        Flag::EntryBuy
    } else if value == 2 {
        Flag::EntrySell
    } else if value == 3 {
        Flag::EntryBuyExit
    } else if value == 4 {
        Flag::EntrySellExit
    } else if value == 5 {
        Flag::ExitBuy
    } else if value == 6 {
        Flag::ExitSell
    } else {
        Flag::NoOp
    }
}

impl From<u8> for Flag {
    fn from(value: u8) -> (r: Flag) {
        match value {
            1 => Flag::EntryBuy,
            2 => Flag::EntrySell,
            3 => Flag::EntryBuyExit,
            4 => Flag::EntrySellExit,
            5 => Flag::ExitBuy,
            6 => Flag::ExitSell,
            _ => Flag::NoOp,
        }
    }
}

impl vstd::std_specs::convert::FromSpecImpl<u8> for Flag {
    open spec fn obeys_from_spec() -> bool {
        true
    }

    open spec fn from_spec(value: u8) -> Flag {
        spec_flag(value)
    }
}

/// What the flag selected for this cycle, with everything the action
/// runner needs.
pub enum OriginAction {
    Entry { entry_mouse: Mouse },
    EntryExit { entry_mouse: Mouse, exit_mouse: Mouse, sleep_ms: u64 },
    Exit { exit_mouse: Mouse },
}

/// Acquires the execution gate and plans one entry action on the requested side.
/// The runner fires it and releases the execution gate with `process::unlock`.
pub fn entry(is_buy: bool, logic_setting: &mut Data) -> (r: Mouse)
    requires
        old(logic_setting).status.is_processing == false,
    ensures
        final(logic_setting).status.is_processing == true,
        same_config(*old(logic_setting), *final(logic_setting)),
        final(logic_setting).status.is_recived == old(logic_setting).status.is_recived,
        final(logic_setting).status.is_running == old(logic_setting).status.is_running,
        final(logic_setting).status.message == old(logic_setting).status.message,
        final(logic_setting).status.ltp == old(logic_setting).status.ltp,
        final(logic_setting).status.orders@ == old(logic_setting).status.orders@,
        final(logic_setting).status.updated_at == old(logic_setting).status.updated_at,
        r == (if is_buy {
            old(logic_setting).mouse_entry_buy
        } else {
            old(logic_setting).mouse_entry_sell
        }),
{
    process::lock(logic_setting);
    if is_buy {
        logic_setting.mouse_entry_buy
    } else {
        logic_setting.mouse_entry_sell
    }
}

/// Acquires the execution gate and plans a full entry-dwell-exit cycle on the
/// requested side. The runner fires the entry, waits `sleep_ms`, fires
/// the exit actions, and releases the execution gate with `process::unlock`.
pub fn entry_and_exit(is_buy: bool, logic_setting: &mut Data) -> (r: (Mouse, Mouse, u64))
    requires
        old(logic_setting).status.is_processing == false,
        old(logic_setting).setting.interval_random ==> old(logic_setting).setting.interval >= 1,
    ensures
        final(logic_setting).status.is_processing == true,
        same_config(*old(logic_setting), *final(logic_setting)),
        final(logic_setting).status.is_recived == old(logic_setting).status.is_recived,
        final(logic_setting).status.is_running == old(logic_setting).status.is_running,
        final(logic_setting).status.message == old(logic_setting).status.message,
        final(logic_setting).status.ltp == old(logic_setting).status.ltp,
        final(logic_setting).status.orders@ == old(logic_setting).status.orders@,
        final(logic_setting).status.updated_at == old(logic_setting).status.updated_at,
        r.0 == (if is_buy {
            old(logic_setting).mouse_entry_buy
        } else {
            old(logic_setting).mouse_entry_sell
        }),
        r.1 == old(logic_setting).mouse_exit,
        !old(logic_setting).setting.interval_random ==> r.2 == old(
            logic_setting,
        ).setting.interval as u64 * 1000,
        old(logic_setting).setting.interval_random ==> old(logic_setting).setting.interval as u64
            * 500 <= r.2 < old(logic_setting).setting.interval as u64 * 1500,
{
    process::lock(logic_setting);
    let entry_mouse = if is_buy {
        logic_setting.mouse_entry_buy
    } else {
        logic_setting.mouse_entry_sell
    };
    let exit_mouse = logic_setting.mouse_exit;
    let sleep_ms = logic_setting.setting.get_sleep_ms();
    (entry_mouse, exit_mouse, sleep_ms)
}

/// Acquires the execution gate and plans the exit action; the side hint does not
/// change which region fires. The runner fires it once per configured
/// click and releases the execution gate with `process::unlock`.
pub fn exit(_is_buy: bool, logic_setting: &mut Data) -> (r: Mouse)
    requires
        old(logic_setting).status.is_processing == false,
    ensures
        final(logic_setting).status.is_processing == true,
        same_config(*old(logic_setting), *final(logic_setting)),
        final(logic_setting).status.is_recived == old(logic_setting).status.is_recived,
        final(logic_setting).status.is_running == old(logic_setting).status.is_running,
        final(logic_setting).status.message == old(logic_setting).status.message,
        final(logic_setting).status.ltp == old(logic_setting).status.ltp,
        final(logic_setting).status.orders@ == old(logic_setting).status.orders@,
        final(logic_setting).status.updated_at == old(logic_setting).status.updated_at,
        r == old(logic_setting).mouse_exit,
{
    process::lock(logic_setting);
    logic_setting.mouse_exit
}

/// Maps the most recent tick's directive flag to an action, acquiring the
/// gate exactly when an action is planned. No tick, a zero flag and
/// unmapped flags are no-ops that touch nothing.
pub fn process(logic_setting: &mut Data, tickers: &TickerStats) -> (r: Option<OriginAction>)
    requires
        old(logic_setting).status.is_processing == false,
        old(logic_setting).setting.interval_random ==> old(logic_setting).setting.interval >= 1,
    ensures
        same_config(*old(logic_setting), *final(logic_setting)),
        final(logic_setting).status.is_recived == old(logic_setting).status.is_recived,
        final(logic_setting).status.is_running == old(logic_setting).status.is_running,
        final(logic_setting).status.message == old(logic_setting).status.message,
        final(logic_setting).status.ltp == old(logic_setting).status.ltp,
        final(logic_setting).status.orders@ == old(logic_setting).status.orders@,
        final(logic_setting).status.updated_at == old(logic_setting).status.updated_at,
        ({
            let fv = if tickers@.len() == 0 {
                0u8
            } else {
                match tickers@.last().flag {
                    Some(f) => f,
                    None => 0u8,
                }
            };
            let buy_m = old(logic_setting).mouse_entry_buy;
            let sell_m = old(logic_setting).mouse_entry_sell;
            let exit_m = old(logic_setting).mouse_exit;
            match spec_flag(fv) {
                Flag::NoOp => final(logic_setting).status.is_processing == false && (
                r matches None),
                Flag::EntryBuy => final(logic_setting).status.is_processing == true && (
                r matches Some(OriginAction::Entry { entry_mouse }) && entry_mouse == buy_m),
                Flag::EntrySell => final(logic_setting).status.is_processing == true && (
                r matches Some(OriginAction::Entry { entry_mouse }) && entry_mouse == sell_m),
                Flag::EntryBuyExit => final(logic_setting).status.is_processing == true && (
                r matches Some(OriginAction::EntryExit { entry_mouse, exit_mouse, sleep_ms })
                    && entry_mouse == buy_m && exit_mouse == exit_m),
                Flag::EntrySellExit => final(logic_setting).status.is_processing == true && (
                r matches Some(OriginAction::EntryExit { entry_mouse, exit_mouse, sleep_ms })
                    && entry_mouse == sell_m && exit_mouse == exit_m),
                Flag::ExitBuy => final(logic_setting).status.is_processing == true && (
                r matches Some(OriginAction::Exit { exit_mouse }) && exit_mouse == exit_m),
                Flag::ExitSell => final(logic_setting).status.is_processing == true && (
                r matches Some(OriginAction::Exit { exit_mouse }) && exit_mouse == exit_m),
            }
        }),
{
    let flag_value: u8 = match tickers.last() {
        Some(ticker) => ticker.flag(),
        None => 0,
    };
    match Flag::from(flag_value) {
        Flag::NoOp => None,
        Flag::EntryBuy => {
            let m = entry(true, logic_setting);
            Some(OriginAction::Entry { entry_mouse: m })
        },
        Flag::EntrySell => {
            let m = entry(false, logic_setting);
            Some(OriginAction::Entry { entry_mouse: m })
        },
        Flag::EntryBuyExit => {
            let (em, xm, ms) = entry_and_exit(true, logic_setting);
            Some(OriginAction::EntryExit { entry_mouse: em, exit_mouse: xm, sleep_ms: ms })
        },
        Flag::EntrySellExit => {
            let (em, xm, ms) = entry_and_exit(false, logic_setting);
            Some(OriginAction::EntryExit { entry_mouse: em, exit_mouse: xm, sleep_ms: ms })
        },
        Flag::ExitBuy => {
            let m = exit(true, logic_setting);
            Some(OriginAction::Exit { exit_mouse: m })
        },
        Flag::ExitSell => {
            let m = exit(false, logic_setting);
            Some(OriginAction::Exit { exit_mouse: m })
        },
    }
}

} // verus!
