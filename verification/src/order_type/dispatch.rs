//! The dispatcher's decision: which strategy, if any, runs this cycle.
//! The precondition is checked once, here: the system must be running and
//! the execution gate idle, else the whole cycle is skipped silently — normal
//! backpressure, not an error.
use vstd::prelude::*;
use crate::dec::spec_parse_u8;
use crate::invoke::gui::Data;

verus! {

/// The dispatch decision for one evaluation cycle.
#[derive(Debug, Clone, Copy, PartialEq, Eq, Structural)]
pub enum Choice {
    NotRunning,
    Busy,
    Simple,
    Entry(u8),
    Exit,
    Origin,
}

/// The dispatch rule: skip while stopped or while an execution holds the
/// gate; otherwise select by the order-type code — 0 the simple strategy,
/// 1 and 2 single-sided entry, 3 settlement only, 99 the flag-driven one,
/// and anything else the simple strategy.
pub open spec fn spec_choice(d: Data) -> Choice {
    if !d.status.is_running {
        Choice::NotRunning
    } else if d.status.is_processing {
        Choice::Busy
    } else {
        let ot = spec_parse_u8(d.setting.order_type@).unwrap();
        if ot == 0 {
            Choice::Simple
        } else if 1 <= ot <= 2 {
            Choice::Entry(ot)
        } else if ot == 3 {
            Choice::Exit
        } else if ot == 99 {
            Choice::Origin
        } else {
            Choice::Simple
        }
    }
}

/// Reads the configuration and decides the cycle. Pure: running a
/// strategy, on its own task, is the caller's business.
pub fn decide(logic_setting: &Data) -> (r: Choice)
    requires
        logic_setting.setting.wf(),
    ensures
        r == spec_choice(*logic_setting),
{
    if !logic_setting.status.is_running {
        return Choice::NotRunning;
    }
    if logic_setting.status.is_processing {
        return Choice::Busy;
    }
    let ot = match crate::dec::parse_u8(logic_setting.setting.order_type.as_str()) {
        Some(v) => v,
        None => {
            proof {
                assert(false);
            }
            0
        },
    };
    if ot == 0 {
        Choice::Simple
    } else if ot <= 2 {
        Choice::Entry(ot)
    } else if ot == 3 {
        Choice::Exit
    } else if ot == 99 {
        Choice::Origin
    } else {
        Choice::Simple
    }
}

} // verus!
