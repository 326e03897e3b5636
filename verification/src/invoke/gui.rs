//! Shared application state: screen regions, strategy settings, run status,
//! order records, and the operations the control surface performs on them.
use vstd::prelude::*;
use crate::dec::{Dec, spec_parse_dec, parse_dec, dec_to_string};
use crate::text::str_eq;
use crate::middleware::ticker::{now_micros, shrink_vec, spec_shrink};

verus! {

/// A screen region for one action kind. An action point is drawn strictly
/// inside `[start_x, end_x) x [start_y, end_y)`; `n` is the click count
/// used by exit actions.
#[derive(Debug, Clone, Copy, PartialEq, Eq, Structural)]
pub struct Mouse {
    pub start_x: u32,
    pub start_y: u32,
    pub end_x: u32,
    pub end_y: u32,
    pub n: u8,
}

/// A region is valid only when its start corner is strictly less than its
/// end corner on both axes.
pub open spec fn mouse_ok(m: Mouse) -> bool {
    m.start_x < m.end_x && m.start_y < m.end_y
}

impl Default for Mouse {
    /// The all-zero (invalid) region.
    fn default() -> (r: Mouse)
        ensures
            r.start_x == 0 && r.start_y == 0 && r.end_x == 0 && r.end_y == 0 && r.n == 0,
    {
        Mouse { start_x: 0, start_y: 0, end_x: 0, end_y: 0, n: 0 }
    }
}

impl Mouse {
    /// The smallest valid region.
    pub fn new() -> (r: Mouse)
        ensures
            r.start_x == 1 && r.start_y == 1 && r.end_x == 2 && r.end_y == 2 && r.n == 1,
            mouse_ok(r),
    {
        Mouse { start_x: 1, start_y: 1, end_x: 2, end_y: 2, n: 1 }
    }

    /// Accepts exactly the valid regions; an inverted or empty region is
    /// reported as an error.
    pub fn ok(&self) -> (r: Result<(), String>)
        ensures
            r.is_ok() <==> mouse_ok(*self),
            r.is_err() ==> r.unwrap_err()@.len() > 0,
    {
        if self.start_x < self.end_x && self.start_y < self.end_y {
            Ok(())
        } else {
            proof {
                reveal_strlit("error: invalid mouse setting");
            }
            Err(String::from_str("error: invalid mouse setting"))
        }
    }
}

/// Relies on rand::Rng::gen_range over `lo..hi` (u64): a draw from
/// [lo, hi). It panics only on an empty range, which the precondition
/// excludes; nothing more is promised of the value.
#[verifier::external_body]
pub(crate) fn gen_range_u64(lo: u64, hi: u64) -> (r: u64)
    requires
        lo < hi,
    ensures
        lo <= r < hi,
{
    rand::Rng::gen_range(&mut rand::thread_rng(), lo..hi)
}

/// The lookback window, in milliseconds, for a speed-class selector.
pub open spec fn spec_speed_to_ms(s: Seq<char>) -> i64 {
    if s == "0"@ {
        1
    } else if s == "1"@ {
        100
    } else if s == "2"@ {
        1_000
    } else if s == "3"@ {
        3_000
    } else {
        10_000
    }
}

/// Strategy configuration as the operator edits it. String fields arrive
/// from the control surface; `vol` must parse as a fixed-point decimal
/// before a `Setting` is accepted into shared state.
#[derive(Debug, Clone)]
pub struct Setting {
    pub tcp: String,
    pub order_type: String,
    pub speed: String,
    pub vol: String,
    pub interval: u32,
    pub interval_random: bool,
}

impl Setting {
    /// The configuration invariant: the threshold text denotes a
    /// non-negative decimal, the order-type selector denotes a small
    /// integer, and a jitter dwell has at least one second to draw from.
    pub open spec fn wf(&self) -> bool {
        &&& spec_parse_dec(self.vol@).is_some()
        &&& spec_parse_dec(self.vol@).unwrap() >= 0
        &&& crate::dec::spec_parse_u8(self.order_type@).is_some()
        &&& (self.interval_random ==> self.interval >= 1)
    }

    pub fn new() -> (r: Setting)
        ensures
            r.tcp@ == "8080"@,
            r.order_type@ == "0"@,
            r.speed@ == "1"@,
            r.vol@ == "0.1"@,
            r.interval == 10,
            r.interval_random == false,
            r.wf(),
    {
        proof {
            reveal_strlit("8080");
            reveal_strlit("0");
            reveal_strlit("1");
            reveal_strlit("0.1");
            lemma_default_vol_parses();
            reveal_with_fuel(crate::dec::digits_to_int, 3);
            assert("0"@.len() == 1 && "0"@[0] == '0');
            assert(crate::dec::digits_to_int("0"@) == 0) by {
                assert("0"@.drop_last() =~= Seq::<char>::empty());
            }
        }
        Setting {
            tcp: String::from_str("8080"),
            order_type: String::from_str("0"),
            speed: String::from_str("1"),
            vol: String::from_str("0.1"),
            interval: 10,
            interval_random: false,
        }
    }

    /// Maps the speed class to its lookback window in milliseconds:
    /// fastest 1, fast 100, medium 1000, slow 3000, anything else 10000.
    pub fn speed_to_ms(&self) -> (r: i64)
        ensures
            r == spec_speed_to_ms(self.speed@),
            1 <= r <= 10_000,
    {
        if str_eq(self.speed.as_str(), "0") {
            1
        } else if str_eq(self.speed.as_str(), "1") {
            100
        } else if str_eq(self.speed.as_str(), "2") {
            1_000
        } else if str_eq(self.speed.as_str(), "3") {
            3_000
        } else {
            10_000
        }
    }

    /// The evaluation parameters: the lookback window in microseconds and
    /// the parsed trigger threshold.
    pub fn get(&self) -> (r: (i64, Dec))
        requires
            self.wf(),
        ensures
            r.0 == spec_speed_to_ms(self.speed@) * 1000,
            Some(r.1.units as int) == spec_parse_dec(self.vol@),
    {
        let target_diff_micros = self.speed_to_ms() * 1000;
        let target_diff_ticks = match parse_dec(self.vol.as_str()) {
            Some(d) => d,
            None => {
                proof {
                    assert(false);
                }
                Dec { units: 0 }
            },
        };
        (target_diff_micros, target_diff_ticks)
    }

    /// The dwell before settlement, in milliseconds: fixed
    /// `interval` seconds, or, in jitter mode, a random duration between
    /// half and one-and-a-half times that.
    pub fn get_sleep_ms(&self) -> (r: u64)
        requires
            self.interval_random ==> self.interval >= 1,
        ensures
            !self.interval_random ==> r == self.interval as u64 * 1000,
            self.interval_random ==> self.interval as u64 * 500 <= r < self.interval as u64
                * 1500,
    {
        if self.interval_random {
            let min_ms: u64 = self.interval as u64 * 500;
            let max_ms: u64 = self.interval as u64 * 1500;
            gen_range_u64(min_ms, max_ms)
        } else {
            self.interval as u64 * 1000
        }
    }
}

/// The default threshold text denotes a tenth.
proof fn lemma_default_vol_parses()
    ensures
        spec_parse_dec("0.1"@) == Some(100_000int),
{
    reveal_strlit("0.1");
    reveal_with_fuel(crate::dec::digits_to_int, 3);
    let s = "0.1"@;
    assert(s.len() == 3);
    assert(s[0] == '0' && s[1] == '.' && s[2] == '1');
    crate::dec::lemma_first_dot_at(s, 1);
    assert(crate::dec::first_dot(s) == 1);
    let ip = s.take(1);
    let fp = s.skip(2);
    assert(ip.len() == 1 && ip[0] == '0');
    assert(fp.len() == 1 && fp[0] == '1');
    assert(crate::dec::all_digits(ip));
    assert(crate::dec::all_digits(fp));
    assert(crate::dec::digits_to_int(ip) == 0) by {
        assert(ip.drop_last() =~= Seq::<char>::empty());
    }
    assert(crate::dec::digits_to_int(fp) == 1) by {
        assert(fp.drop_last() =~= Seq::<char>::empty());
    }
    assert(crate::dec::pow10(5nat) == 100_000) by {
        reveal_with_fuel(crate::dec::pow10, 7);
    }
    assert(spec_parse_dec(s) == Some(100_000int));
}

/// A selectable option shown by the control surface: a wire value and a
/// human label.
#[derive(Debug, Clone)]
pub struct Op {
    pub value: String,
    pub label: String,
}

impl Default for Op {
    fn default() -> (r: Op)
        ensures
            r.value@ == "0"@,
            r.label@ == "option"@,
    {
        proof {
            reveal_strlit("0");
            reveal_strlit("option");
        }
        Op { value: String::from_str("0"), label: String::from_str("option") }
    }
}

/// One completed or in-flight action. `exit` stays at the zero sentinel
/// until settlement; timestamps are microseconds since the Unix epoch.
#[derive(Debug)]
pub struct Order {
    pub side: String,
    pub entry: Dec,
    pub exit: Dec,
    pub entried_at: i64,
    pub exited_at: i64,
}

impl Clone for Order {
    fn clone(&self) -> (res: Order)
        ensures
            res == *self,
    {
        Order {
            side: self.side.clone(),
            entry: self.entry,
            exit: self.exit,
            entried_at: self.entried_at,
            exited_at: self.exited_at,
        }
    }
}

/// Renders a timestamp as `HH:MM:SS` of its UTC day; instants before the
/// epoch render as the epoch. Display-only.
fn fmt_hms(micros: i64) -> (r: String)
    ensures
        r@.len() > 0,
{
    let total: u64 = if micros < 0 {
        0
    } else {
        (micros as u64) / 1_000_000
    };
    let h: u64 = (total / 3600) % 24;
    let m: u64 = (total / 60) % 60;
    let sec: u64 = total % 60;
    let mut out = two_digits(h);
    out.append(":");
    out.append(two_digits(m).as_str());
    out.append(":");
    out.append(two_digits(sec).as_str());
    out
}

fn two_digits(v: u64) -> (r: String)
    requires
        v < 60,
    ensures
        r@.len() > 0,
{
    let mut out = String::from_str(crate::dec::digit_char_str(v / 10));
    out.append(crate::dec::digit_char_str(v % 10));
    out
}

impl Order {
    /// Opens an order at the given reference price; the entry time is
    /// stamped from the wall clock and the exit fields stay at the zero
    /// sentinel until settlement.
    pub fn new(entry: Dec) -> (r: Order)
        ensures
            r.side@.len() == 0,
            r.entry == entry,
            r.exit.units == 0,
    {
        proof {
            reveal_strlit("");
        }
        let now = now_micros();
        Order {
            side: String::from_str(""),
            entry,
            exit: Dec { units: 0 },
            entried_at: now,
            exited_at: now,
        }
    }

    /// Settles the order once: records the exit reference (the zero
    /// sentinel when none is supplied), stamps the exit time, and hands
    /// back a copy of the settled record.
    pub fn done(&mut self, exit: Option<Dec>) -> (r: Order)
        ensures
            final(self).exit == (match exit {
                Some(e) => e,
                None => (Dec { units: 0 }),
            }),
            final(self).side == old(self).side,
            final(self).entry == old(self).entry,
            final(self).entried_at == old(self).entried_at,
            r == *final(self),
    {
        self.exit = match exit {
            Some(e) => e,
            None => Dec { units: 0 },
        };
        self.exited_at = now_micros();
        self.clone()
    }

    /// A one-line human summary of the record; only its presence is
    /// load-bearing, never its exact shape.
    pub fn describe(&self) -> (r: String)
        ensures
            r@.len() > 0,
    {
        proof {
            reveal_strlit("side: ");
        }
        let mut out = String::from_str("side: ");
        out.append(self.side.as_str());
        out.append(", ref entry: ");
        out.append(dec_to_string(&self.entry).as_str());
        out.append(", ref exit: ");
        out.append(dec_to_string(&self.exit).as_str());
        out.append(", entried_at: ");
        out.append(fmt_hms(self.entried_at).as_str());
        out.append(" UTC, exited_at: ");
        out.append(fmt_hms(self.exited_at).as_str());
        out.append(" UTC");
        out
    }
}

/// Running state visible to the control surface: the operational flag, the
/// single-flight processing flag, the last message, the latest price, and
/// the bounded order log.
#[derive(Debug)]
pub struct Status {
    pub is_recived: bool,
    pub is_running: bool,
    pub is_processing: bool,
    pub message: String,
    pub ltp: Dec,
    pub orders: Vec<Order>,
    pub updated_at: i64,
}

/// Field-wise equality of two statuses (order logs compared by content).
pub open spec fn same_status(a: Status, b: Status) -> bool {
    &&& a.is_recived == b.is_recived
    &&& a.is_running == b.is_running
    &&& a.is_processing == b.is_processing
    &&& a.message == b.message
    &&& a.ltp == b.ltp
    &&& a.orders@ == b.orders@
    &&& a.updated_at == b.updated_at
}

fn clone_orders(v: &Vec<Order>) -> (r: Vec<Order>)
    ensures
        r@ == v@,
{
    let mut out: Vec<Order> = Vec::new();
    let mut i: usize = 0;
    while i < v.len()
        invariant
            0 <= i <= v.len(),
            out@ =~= v@.take(i as int),
        decreases v.len() - i,
    {
        out.push(v[i].clone());
        proof {
            assert(out@ =~= v@.take(i as int + 1));
        }
        i += 1;
    }
    proof {
        assert(v@.take(v.len() as int) =~= v@);
    }
    out
}

impl Clone for Status {
    fn clone(&self) -> (res: Status)
        ensures
            same_status(res, *self),
    {
        Status {
            is_recived: self.is_recived,
            is_running: self.is_running,
            is_processing: self.is_processing,
            message: self.message.clone(),
            ltp: self.ltp,
            orders: clone_orders(&self.orders),
            updated_at: self.updated_at,
        }
    }
}

impl Default for Status {
    fn default() -> (r: Status)
        ensures
            r.is_recived == false,
            r.is_running == false,
            r.is_processing == false,
            r.message@ == "off"@,
            r.ltp.units == 0,
            r.orders@.len() == 0,
    {
        Status::new()
    }
}

impl Status {
    pub fn new() -> (r: Status)
        ensures
            r.is_recived == false,
            r.is_running == false,
            r.is_processing == false,
            r.message@ == "off"@,
            r.ltp.units == 0,
            r.orders@.len() == 0,
    {
        proof {
            reveal_strlit("off");
        }
        Status {
            is_recived: false,
            is_running: false,
            is_processing: false,
            message: String::from_str("off"),
            ltp: Dec { units: 0 },
            orders: Vec::new(),
            updated_at: now_micros(),
        }
    }

    /// Gate acquire: marks one strategy execution in flight. Only legal
    /// from the idle state, so acquires and releases strictly alternate.
    pub fn processing(&mut self)
        requires
            old(self).is_processing == false,
        ensures
            final(self).is_processing == true,
            final(self).is_recived == old(self).is_recived,
            final(self).is_running == old(self).is_running,
            final(self).message == old(self).message,
            final(self).ltp == old(self).ltp,
            final(self).orders@ == old(self).orders@,
            final(self).updated_at == old(self).updated_at,
    {
        self.is_processing = true;
    }

    /// Gate release: marks the execution finished. Only legal while one
    /// is in flight.
    pub fn processed(&mut self)
        requires
            old(self).is_processing == true,
        ensures
            final(self).is_processing == false,
            final(self).is_recived == old(self).is_recived,
            final(self).is_running == old(self).is_running,
            final(self).message == old(self).message,
            final(self).ltp == old(self).ltp,
            final(self).orders@ == old(self).orders@,
            final(self).updated_at == old(self).updated_at,
    {
        self.is_processing = false;
    }

    /// Records the latest traded price: a changed price marks fresh data
    /// and stamps the update time; an unchanged one only clears the
    /// freshness flag.
    pub fn update_ltp(&mut self, ltp: Dec)
        ensures
            final(self).ltp == ltp,
            final(self).is_recived == (old(self).ltp != ltp),
            old(self).ltp == ltp ==> final(self).updated_at == old(self).updated_at,
            final(self).is_running == old(self).is_running,
            final(self).is_processing == old(self).is_processing,
            final(self).message == old(self).message,
            final(self).orders@ == old(self).orders@,
    {
        if self.ltp != ltp {
            self.is_recived = true;
            self.ltp = ltp;
            self.updated_at = now_micros();
        } else {
            self.is_recived = false;
        }
    }

    /// Appends an order record to the status log.
    pub fn push(&mut self, order: Order)
        ensures
            final(self).orders@ == old(self).orders@.push(order),
            final(self).is_recived == old(self).is_recived,
            final(self).is_running == old(self).is_running,
            final(self).is_processing == old(self).is_processing,
            final(self).message == old(self).message,
            final(self).ltp == old(self).ltp,
            final(self).updated_at == old(self).updated_at,
    {
        self.orders.push(order);
    }

    /// Evicts the oldest order records beyond `limit_length`.
    pub fn shrink(&mut self, limit_length: usize)
        ensures
            final(self).orders@ == spec_shrink(old(self).orders@, limit_length as int),
            final(self).orders@.len() <= limit_length,
            final(self).is_recived == old(self).is_recived,
            final(self).is_running == old(self).is_running,
            final(self).is_processing == old(self).is_processing,
            final(self).message == old(self).message,
            final(self).ltp == old(self).ltp,
            final(self).updated_at == old(self).updated_at,
    {
        shrink_vec(&mut self.orders, limit_length);
    }
}


/// The one shared application-state object: identity strings, status, the
/// three action regions, the strategy settings, and the selectable option
/// lists the control surface shows.
#[derive(Debug)]
pub struct Data {
    pub version: String,
    pub description: String,
    pub host: String,
    pub status: Status,
    pub mouse_entry_buy: Mouse,
    pub mouse_entry_sell: Mouse,
    pub mouse_exit: Mouse,
    pub setting: Setting,
    pub order_type: Vec<Op>,
    pub speed: Vec<Op>,
}

/// Field-wise equality of everything but the status.
pub open spec fn same_config(a: Data, b: Data) -> bool {
    &&& a.version == b.version
    &&& a.description == b.description
    &&& a.host == b.host
    &&& a.mouse_entry_buy == b.mouse_entry_buy
    &&& a.mouse_entry_sell == b.mouse_entry_sell
    &&& a.mouse_exit == b.mouse_exit
    &&& a.setting == b.setting
    &&& a.order_type@ == b.order_type@
    &&& a.speed@ == b.speed@
}

/// The default order-type option list: the four evaluator strategies and
/// the flag-driven one, by wire value.
pub open spec fn default_order_ops(s: Seq<Op>) -> bool {
    &&& s.len() == 5
    &&& s[0].value@ == "0"@
    &&& s[1].value@ == "1"@
    &&& s[2].value@ == "2"@
    &&& s[3].value@ == "3"@
    &&& s[4].value@ == "99"@
}

/// The default speed-class option list.
pub open spec fn default_speed_ops(s: Seq<Op>) -> bool {
    &&& s.len() == 4
    &&& s[0].value@ == "0"@
    &&& s[1].value@ == "1"@
    &&& s[2].value@ == "2"@
    &&& s[3].value@ == "3"@
}

fn op(value: &str, label: &str) -> (r: Op)
    ensures
        r.value@ == value@,
        r.label@ == label@,
{
    Op { value: String::from_str(value), label: String::from_str(label) }
}

impl Default for Data {
    fn default() -> (r: Data)
        ensures
            data_defaults(r),
            default_order_ops(r.order_type@),
            default_speed_ops(r.speed@),
    {
        Data::new(None, None)
    }
}

/// What a freshly built `Data` guarantees regardless of the option lists.
pub open spec fn data_defaults(r: Data) -> bool {
    &&& r.host@ == "localhost"@
    &&& r.status.is_recived == false
    &&& r.status.is_running == false
    &&& r.status.is_processing == false
    &&& r.status.message@ == "off"@
    &&& r.status.ltp.units == 0
    &&& r.status.orders@.len() == 0
    &&& r.mouse_entry_buy == (Mouse { start_x: 1, start_y: 1, end_x: 2, end_y: 2, n: 1 })
    &&& r.mouse_entry_sell == (Mouse { start_x: 1, start_y: 1, end_x: 2, end_y: 2, n: 1 })
    &&& r.mouse_exit == (Mouse { start_x: 1, start_y: 1, end_x: 2, end_y: 2, n: 1 })
    &&& r.setting.wf()
    &&& r.setting.tcp@ == "8080"@
    &&& r.setting.order_type@ == "0"@
    &&& r.setting.speed@ == "1"@
    &&& r.setting.vol@ == "0.1"@
    &&& r.setting.interval == 10
    &&& r.setting.interval_random == false
}

impl Data {
    /// Builds the initial state; explicit option lists replace the
    /// defaults when given.
    pub fn new(order_types: Option<Vec<Op>>, speeds: Option<Vec<Op>>) -> (r: Data)
        ensures
            data_defaults(r),
            (match order_types {
                Some(v) => r.order_type@ == v@,
                None => default_order_ops(r.order_type@),
            }),
            (match speeds {
                Some(v) => r.speed@ == v@,
                None => default_speed_ops(r.speed@),
            }),
    {
        let order_types = if let Some(values) = order_types {
            values
        } else {
            let mut v: Vec<Op> = Vec::new();
            v.push(op("0", "any direction"));
            v.push(op("1", "buy entry only"));
            v.push(op("2", "sell entry only"));
            v.push(op("3", "exit order only"));
            v.push(op("99", "custom flag"));
            v
        };
        let speeds = if let Some(values) = speeds {
            values
        } else {
            let mut v: Vec<Op> = Vec::new();
            v.push(op("0", "fastest"));
            v.push(op("1", "fast"));
            v.push(op("2", "medium"));
            v.push(op("3", "slow"));
            v
        };
        proof {
            reveal_strlit("0.1.0");
            reveal_strlit("signal-driven order trigger");
            reveal_strlit("localhost");
        }
        Data {
            version: String::from_str("0.1.0"),
            description: String::from_str("signal-driven order trigger"),
            host: String::from_str("localhost"),
            status: Status::new(),
            mouse_entry_buy: Mouse::new(),
            mouse_entry_sell: Mouse::new(),
            mouse_exit: Mouse::new(),
            setting: Setting::new(),
            order_type: order_types,
            speed: speeds,
        }
    }

    /// Records the latest price and, when asked, settles the still-open
    /// last order at that price: its exit reference is written once, the
    /// exit time stamped, and the status message describes the record.
    pub fn update(&mut self, update_exit_price: bool, ltp: Dec)
        ensures
            ({
                let st0 = old(self).status;
                let st1 = final(self).status;
                &&& st1.ltp == ltp
                &&& st1.is_recived == (st0.ltp != ltp)
                &&& st1.is_running == st0.is_running
                &&& st1.is_processing == st0.is_processing
                &&& same_config(*old(self), *final(self))
                &&& if update_exit_price && st0.orders@.len() > 0 && st0.orders@.last().exit.units
                    == 0 {
                    &&& st1.orders@.len() == st0.orders@.len()
                    &&& st1.orders@.last().exit == ltp
                    &&& st1.orders@.last().side == st0.orders@.last().side
                    &&& st1.orders@.last().entry == st0.orders@.last().entry
                    &&& st1.orders@.last().entried_at == st0.orders@.last().entried_at
                    &&& st1.orders@.take(st1.orders@.len() - 1) == st0.orders@.take(
                        st0.orders@.len() - 1,
                    )
                    &&& st1.message@.len() > 0
                } else {
                    &&& st1.orders@ == st0.orders@
                    &&& st1.message == st0.message
                }
            }),
    {
        self.status.update_ltp(ltp);
        if !update_exit_price {
            return ;
        }
        if self.status.orders.len() == 0 {
            return ;
        }
        let ghost orders0 = self.status.orders@;
        let mut last_order = match self.status.orders.pop() {
            Some(o) => o,
            None => {
                proof {
                    assert(false);
                }
                return ;
            },
        };
        if last_order.exit.units != 0 {
            self.status.orders.push(last_order);
            proof {
                assert(self.status.orders@ =~= orders0);
            }
            return ;
        }
        last_order.exit = ltp;
        last_order.exited_at = now_micros();
        proof {
            reveal_strlit("order update: ");
        }
        let mut msg = String::from_str("order update: ");
        msg.append(last_order.describe().as_str());
        self.status.message = msg;
        self.status.orders.push(last_order);
        proof {
            assert(self.status.orders@.take(self.status.orders@.len() - 1) =~= orders0.take(
                orders0.len() - 1,
            ));
        }
    }
}

/// What a run command hands back: a short message, or a snapshot of the
/// current status for the control surface to render.
#[derive(Debug)]
pub enum RunOutcome {
    Message(String),
    Snapshot(Status),
}

/// The operating command: 0 stops (clearing both flags), 1 starts, 2
/// reports a snapshot of the status, anything else is an error; only the
/// commanded fields change.
pub fn run(data: &mut Data, t: u8) -> (r: Result<RunOutcome, String>)
    ensures
        same_config(*old(data), *final(data)),
        ({
            let st0 = old(data).status;
            let st1 = final(data).status;
            match t {
                0u8 => {
                    &&& st1.is_running == false
                    &&& st1.is_processing == false
                    &&& st1.message@ == "off"@
                    &&& st1.is_recived == st0.is_recived
                    &&& st1.ltp == st0.ltp
                    &&& st1.orders@ == st0.orders@
                    &&& st1.updated_at == st0.updated_at
                    &&& (r matches Ok(RunOutcome::Message(m)) && m@ == "off"@)
                },
                1u8 => {
                    &&& st1.is_running == true
                    &&& st1.is_processing == st0.is_processing
                    &&& st1.message@ == "on"@
                    &&& st1.is_recived == st0.is_recived
                    &&& st1.ltp == st0.ltp
                    &&& st1.orders@ == st0.orders@
                    &&& st1.updated_at == st0.updated_at
                    &&& (r matches Ok(RunOutcome::Message(m)) && m@ == "on"@)
                },
                2u8 => {
                    &&& same_status(st1, st0)
                    &&& (r matches Ok(RunOutcome::Snapshot(s)) && same_status(s, st0))
                },
                _ => {
                    &&& same_status(st1, st0)
                    &&& (r matches Err(e) && e@ == "error: undefined"@)
                },
            }
        }),
{
    match t {
        0 => {
            proof {
                reveal_strlit("off");
            }
            data.status.is_running = false;
            data.status.is_processing = false;
            data.status.message = String::from_str("off");
            Ok(RunOutcome::Message(data.status.message.clone()))
        },
        1 => {
            proof {
                reveal_strlit("on");
            }
            data.status.is_running = true;
            data.status.message = String::from_str("on");
            Ok(RunOutcome::Message(data.status.message.clone()))
        },
        2 => Ok(RunOutcome::Snapshot(data.status.clone())),
        _ => {
            proof {
                reveal_strlit("error: undefined");
            }
            Err(String::from_str("error: undefined"))
        },
    }
}

/// Replaces the strategy settings, rejecting a configuration whose
/// threshold or order-type text does not parse, or whose randomized dwell
/// has a zero interval; an invalid configuration never reaches shared
/// state.
pub fn set_setting(data: &mut Data, recived: Setting) -> (r: Result<(), String>)
    ensures
        same_status(final(data).status, old(data).status),
        final(data).mouse_entry_buy == old(data).mouse_entry_buy,
        final(data).mouse_entry_sell == old(data).mouse_entry_sell,
        final(data).mouse_exit == old(data).mouse_exit,
        final(data).order_type@ == old(data).order_type@,
        final(data).speed@ == old(data).speed@,
        match r {
            Ok(()) => recived.wf() && final(data).setting == recived,
            Err(e) => !recived.wf() && final(data).setting == old(data).setting && e@.len() > 0,
        },
{
    let vol_ok = match parse_dec(recived.vol.as_str()) {
        Some(d) => d.units >= 0,
        None => false,
    };
    let ot_ok = crate::dec::parse_u8(recived.order_type.as_str()).is_some();
    let dwell_ok = !recived.interval_random || recived.interval >= 1;
    if vol_ok && ot_ok && dwell_ok {
        data.setting = recived;
        Ok(())
    } else {
        proof {
            reveal_strlit("error: invalid setting");
        }
        Err(String::from_str("error: invalid setting"))
    }
}

/// Sets how many times the exit action fires per settlement.
pub fn set_exit_clicks(data: &mut Data, n: u8)
    ensures
        final(data).mouse_exit == (Mouse { n, ..old(data).mouse_exit }),
        final(data).mouse_entry_buy == old(data).mouse_entry_buy,
        final(data).mouse_entry_sell == old(data).mouse_entry_sell,
        final(data).setting == old(data).setting,
        final(data).order_type@ == old(data).order_type@,
        final(data).speed@ == old(data).speed@,
        same_status(final(data).status, old(data).status),
{
    data.mouse_exit.n = n;
}

/// Which stored region a set or confirm command addresses.
#[derive(Debug, Clone, Copy, PartialEq, Eq, Structural)]
pub enum RegionKind {
    EntryBuy,
    EntrySell,
    Exit,
}

/// The stored region a kind addresses.
pub open spec fn region_of(d: Data, kind: RegionKind) -> Mouse {
    match kind {
        RegionKind::EntryBuy => d.mouse_entry_buy,
        RegionKind::EntrySell => d.mouse_entry_sell,
        RegionKind::Exit => d.mouse_exit,
    }
}

/// Stores an action region after validating it: a region whose start is
/// not strictly inside its end on both axes is rejected and shared state
/// is left untouched.
pub fn set_mouse(data: &mut Data, kind: RegionKind, mouse: Mouse) -> (r: Result<(), String>)
    ensures
        same_status(final(data).status, old(data).status),
        final(data).setting == old(data).setting,
        final(data).order_type@ == old(data).order_type@,
        final(data).speed@ == old(data).speed@,
        match r {
            Ok(()) => mouse_ok(mouse) && region_of(*final(data), kind) == mouse && (forall|
                k: RegionKind,
            |
                k != kind ==> region_of(*final(data), k) == region_of(*old(data), k)),
            Err(e) => !mouse_ok(mouse) && same_config(*old(data), *final(data)) && e@.len() > 0,
        },
{
    match mouse.ok() {
        Ok(()) => {
            match kind {
                RegionKind::EntryBuy => data.mouse_entry_buy = mouse,
                RegionKind::EntrySell => data.mouse_entry_sell = mouse,
                RegionKind::Exit => data.mouse_exit = mouse,
            }
            Ok(())
        },
        Err(e) => Err(e),
    }
}

/// The region a confirm command exercises: 3 the buy entry, 4 the sell
/// entry, 5 the exit region, anything else the all-zero region.
pub fn confirm_target(data: &Data, t: u8) -> (r: Mouse)
    ensures
        r == (match t {
            3u8 => data.mouse_entry_buy,
            4u8 => data.mouse_entry_sell,
            5u8 => data.mouse_exit,
            _ => (Mouse { start_x: 0, start_y: 0, end_x: 0, end_y: 0, n: 0 }),
        }),
{
    match t {
        3 => data.mouse_entry_buy,
        4 => data.mouse_entry_sell,
        5 => data.mouse_exit,
        _ => Mouse::default(),
    }
}

} // verus!
