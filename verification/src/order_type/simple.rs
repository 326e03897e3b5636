//! The direction-agnostic strategy: when the drift over the configured
//! lookback exceeds the threshold in either direction, it opens an order
//! on the drift's side, plans the entry action, the dwell and the repeated
//! exit actions, and holds the execution gate until `finish` settles the record.
use vstd::prelude::*;
use vstd::pervasive::unreached;
use crate::dec::{abs_int, spec_parse_dec};
use crate::invoke::gui::{Data, Mouse, Order, same_config, spec_speed_to_ms};
use crate::middleware::ticker::{
    TickerStats, spec_diff, mid_units, lemma_older_index_in_range, spec_shrink,
};
use crate::order_type::process;
use crate::signal;

verus! {

/// Everything the action runner needs for one full cycle of this
/// strategy: the open order, where to fire the entry, where and how often
/// to fire the exit, and how long to dwell in between.
pub struct SimplePlan {
    pub order: Order,
    pub entry_mouse: Mouse,
    pub exit_mouse: Mouse,
    pub sleep_ms: u64,
}

/// Evaluates the drift-versus-threshold trigger. On a trigger it acquires
/// the execution gate, opens an order at the newest mid on the drift's side, and
/// hands back the plan; otherwise it is a no-op. The execution gate is held exactly
/// when a plan is returned, and `finish` releases it.
pub fn process(logic_setting: &mut Data, tickers: &TickerStats) -> (r: Option<SimplePlan>)
    requires
        old(logic_setting).status.is_processing == false,
        old(logic_setting).setting.wf(),
        tickers.wf(),
    ensures
        same_config(*old(logic_setting), *final(logic_setting)),
        final(logic_setting).status.is_recived == old(logic_setting).status.is_recived,
        final(logic_setting).status.is_running == old(logic_setting).status.is_running,
        final(logic_setting).status.message == old(logic_setting).status.message,
        final(logic_setting).status.ltp == old(logic_setting).status.ltp,
        final(logic_setting).status.orders@ == old(logic_setting).status.orders@,
        final(logic_setting).status.updated_at == old(logic_setting).status.updated_at,
        ({
            let micros = spec_speed_to_ms(old(logic_setting).setting.speed@) * 1000;
            let thr = spec_parse_dec(old(logic_setting).setting.vol@).unwrap();
            let d = spec_diff(tickers@, micros);
            let trig = thr < abs_int(d);
            &&& final(logic_setting).status.is_processing == trig
            &&& (!trig ==> r matches None)
            &&& (trig ==> tickers@.len() > 0 && (r matches Some(p)
                && p.entry_mouse == (if d > 0 {
                    old(logic_setting).mouse_entry_buy
                } else {
                    old(logic_setting).mouse_entry_sell
                })
                && p.exit_mouse == old(logic_setting).mouse_exit
                && (d > 0 ==> p.order.side@ == "buy"@)
                && (d <= 0 ==> p.order.side@ == "sell"@)
                && p.order.entry.units == mid_units(tickers@.last())
                && p.order.exit.units == 0
                && (!old(logic_setting).setting.interval_random ==> p.sleep_ms == old(
                    logic_setting,
                ).setting.interval as u64 * 1000)
                && (old(logic_setting).setting.interval_random ==> old(
                    logic_setting,
                ).setting.interval as u64 * 500 <= p.sleep_ms < old(
                    logic_setting,
                ).setting.interval as u64 * 1500)))
        }),
{
    let sig = signal::evaluate(tickers, &logic_setting.setting);
    proof {
        lemma_older_index_in_range(
            tickers@,
            spec_speed_to_ms(logic_setting.setting.speed@) * 1000,
        );
    }
    if sig.exceeds {
        process::lock(logic_setting);
        let entry_price = match tickers.last() {
            Some(t) => t.mid(),
            None => unreached(),
        };
        let mut order = Order::new(entry_price);
        let entry_mouse = if sig.diff.units > 0 {
            proof {
                reveal_strlit("buy");
            }
            order.side = String::from_str("buy");
            logic_setting.mouse_entry_buy
        } else {
            proof {
                reveal_strlit("sell");
            }
            order.side = String::from_str("sell");
            logic_setting.mouse_entry_sell
        };
        let exit_mouse = logic_setting.mouse_exit;
        let sleep_ms = logic_setting.setting.get_sleep_ms();
        Some(SimplePlan { order, entry_mouse, exit_mouse, sleep_ms })
    } else {
        None
    }
}

/// The settlement step after the action runner has fired the entry,
/// dwelt, and fired the exits: settles the order with no re-sampled exit
/// reference (the zero sentinel) and releases the execution gate, appending the
/// record to the bounded status log.
pub fn finish(logic_setting: &mut Data, order: Order)
    requires
        old(logic_setting).status.is_processing == true,
    ensures
        final(logic_setting).status.is_processing == false,
        same_config(*old(logic_setting), *final(logic_setting)),
        final(logic_setting).status.is_recived == old(logic_setting).status.is_recived,
        final(logic_setting).status.is_running == old(logic_setting).status.is_running,
        final(logic_setting).status.ltp == old(logic_setting).status.ltp,
        final(logic_setting).status.updated_at == old(logic_setting).status.updated_at,
        final(logic_setting).status.message@.len() > 0,
        ({
            let os0 = old(logic_setting).status.orders@;
            let os = final(logic_setting).status.orders@;
            &&& os.len() == (if os0.len() + 1 <= process::STATUS_LOG_CAP {
                os0.len() + 1
            } else {
                process::STATUS_LOG_CAP as nat
            })
            &&& os.last().side == order.side
            &&& os.last().entry == order.entry
            &&& os.last().exit.units == 0
            &&& os.last().entried_at == order.entried_at
            &&& os.drop_last() == (if os0.len() + 1 <= process::STATUS_LOG_CAP {
                os0
            } else {
                os0.skip(os0.len() + 1 - process::STATUS_LOG_CAP)
            })
        }),
{
    let ghost os0 = logic_setting.status.orders@;
    let mut order = order;
    let settled = order.done(None);
    process::unlock(logic_setting, Some(settled));
    proof {
        let pushed = os0.push(settled);
        let cap = process::STATUS_LOG_CAP as int;
        let os = logic_setting.status.orders@;
        assert(os == spec_shrink(pushed, cap));
        if pushed.len() <= cap {
            assert(os == pushed);
            assert(pushed.drop_last() =~= os0);
        } else {
            let k = pushed.len() - cap;
            assert(os == pushed.skip(k));
            assert(os.last() == pushed.last());
            assert(os.drop_last() =~= os0.skip(k));
        }
    }
}

} // verus!
