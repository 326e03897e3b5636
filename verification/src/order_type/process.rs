//! The execution gate: single-flight mutual exclusion around one strategy
//! execution, and the record-keeping done on release.
use vstd::prelude::*;
use crate::invoke::gui::{Data, Order, same_config};
use crate::middleware::ticker::spec_shrink;

verus! {

/// How many settled orders the status log keeps.
pub const STATUS_LOG_CAP: usize = 8;

/// Gate acquire: marks a strategy execution in flight. Legal only from
/// the idle state, so acquire/release pairs strictly alternate (see
/// `lemma_gate_alternates`).
pub fn lock(s: &mut Data)
    requires
        old(s).status.is_processing == false,
    ensures
        final(s).status.is_processing == true,
        same_config(*old(s), *final(s)),
        final(s).status.is_recived == old(s).status.is_recived,
        final(s).status.is_running == old(s).status.is_running,
        final(s).status.message == old(s).status.message,
        final(s).status.ltp == old(s).status.ltp,
        final(s).status.orders@ == old(s).status.orders@,
        final(s).status.updated_at == old(s).status.updated_at,
{
    s.status.processing();
}

/// Gate release: always reached after a successful acquire, on every
/// control path. With a settled order it appends the record to the
/// bounded status log and publishes its description; without one it
/// publishes the fixed "undefined" marker.
pub fn unlock(s: &mut Data, order: Option<Order>)
    requires
        old(s).status.is_processing == true,
    ensures
        final(s).status.is_processing == false,
        same_config(*old(s), *final(s)),
        final(s).status.is_recived == old(s).status.is_recived,
        final(s).status.is_running == old(s).status.is_running,
        final(s).status.ltp == old(s).status.ltp,
        final(s).status.updated_at == old(s).status.updated_at,
        match order {
            Some(o) => final(s).status.orders@ == spec_shrink(
                old(s).status.orders@.push(o),
                STATUS_LOG_CAP as int,
            ) && final(s).status.message@.len() > 0,
            None => final(s).status.orders@ == old(s).status.orders@
                && final(s).status.message@ == "undefined"@,
        },
{
    match order {
        Some(o) => {
            let msg = o.describe();
            s.status.push(o);
            s.status.shrink(STATUS_LOG_CAP);
            s.status.message = msg;
        },
        None => {
            proof {
                reveal_strlit("undefined");
            }
            s.status.message = String::from_str("undefined");
        },
    }
    s.status.processed();
}

// ---------------------------------------------------------------------------
// The execution gate as a state machine over its event trace
// ---------------------------------------------------------------------------
/// One observable gate transition.
#[derive(Debug, Clone, Copy, PartialEq, Eq, Structural)]
pub enum GateEvent {
    Acquire,
    Release,
}

/// Runs a trace of gate events from the idle state: `Some(state)` with the
/// final processing flag when every step was legal (acquire only from
/// idle, release only while processing), `None` otherwise. `lock` and
/// `unlock` admit exactly the legal steps, through their preconditions.
pub open spec fn gate_run(events: Seq<GateEvent>) -> Option<bool>
    decreases events.len(),
{
    if events.len() == 0 {
        Some(false)
    } else {
        match gate_run(events.drop_last()) {
            Some(st) => match events.last() {
                GateEvent::Acquire => if st {
                    None
                } else {
                    Some(true)
                },
                GateEvent::Release => if st {
                    Some(false)
                } else {
                    None
                },
            },
            None => None,
        }
    }
}

pub open spec fn gate_ok(events: Seq<GateEvent>) -> bool {
    gate_run(events).is_some()
}

/// The execution gate's Idle/Processing sequence is strictly alternating per
/// acquire/release pair: in any legal trace a release never occurs
/// without a preceding acquire, and two acquires never occur without an
/// intervening release — acquires sit at even positions, releases at odd.
pub proof fn lemma_gate_alternates(events: Seq<GateEvent>)
    requires
        gate_ok(events),
    ensures
        forall|i: int|
            0 <= i < events.len() ==> ((#[trigger] events[i] matches GateEvent::Acquire) <==> i % 2
                == 0),
        gate_run(events) == Some(events.len() % 2 == 1),
    decreases events.len(),
{
    if events.len() > 0 {
        let e0 = events.drop_last();
        assert(gate_ok(e0));
        lemma_gate_alternates(e0);
        let k = e0.len() as int;
        assert(forall|i: int| 0 <= i < k ==> events[i] == e0[i]);
        match events.last() {
            GateEvent::Acquire => {
                assert(gate_run(e0) == Some(false));
                assert(k % 2 == 0);
            },
            GateEvent::Release => {
                assert(gate_run(e0) == Some(true));
                assert(k % 2 == 1);
            },
        }
    }
}

} // verus!
