//! The bounded tick history and the statistics derived from it: mid-price,
//! time-windowed drift and z-score, all in exact fixed-point arithmetic.
use vstd::prelude::*;
use vstd::arithmetic::div_mod::{
    lemma_div_is_ordered, lemma_div_pos_is_pos, lemma_multiply_divide_le,
    lemma_fundamental_div_mod,
};
use crate::dec::{Dec, SCALE, MAX_UNITS, spec_isqrt, lemma_isqrt_bounds, isqrt_u128};
use crate::text::str_eq;

verus! {

/// One observed quote. Prices are fixed-point `Dec`s, timestamps are
/// microseconds since the Unix epoch.
#[derive(Clone, Debug)]
pub struct Ticker {
    pub symbol: String,
    pub bid: Dec,
    pub ask: Dec,
    pub flag: Option<u8>,
    pub side: Option<u8>,
    pub server_at: Option<i64>,
    pub recived_at: Option<i64>,
    pub diff_micros: Option<i64>,
}

/// The tick invariant: bid and ask are non-negative and within the range
/// the library stores.
pub open spec fn tick_wf(t: Ticker) -> bool {
    &&& 0 <= t.bid.units <= MAX_UNITS
    &&& 0 <= t.ask.units <= MAX_UNITS
}

/// Mid price of one tick, in units: the average of bid and ask, rounded
/// toward zero (both are non-negative for well-formed ticks).
pub open spec fn mid_units(t: Ticker) -> int {
    (t.bid.units + t.ask.units) / 2
}

/// Latency derived at ingestion: receipt minus server time, or zero when
/// the server time is missing or the difference does not fit.
pub open spec fn spec_latency(server_at: Option<i64>, received: i64) -> i64 {
    match server_at {
        Some(s) => if i64::MIN <= received - s <= i64::MAX {
            (received - s) as i64
        } else {
            0
        },
        None => 0,
    }
}

impl Default for Ticker {
    /// An empty tick: no symbol, zero prices, nothing optional set.
    fn default() -> (r: Ticker)
        ensures
            r.symbol@.len() == 0,
            r.bid.units == 0,
            r.ask.units == 0,
            r.flag == None::<u8>,
            r.side == None::<u8>,
            r.server_at == None::<i64>,
            r.recived_at == None::<i64>,
            r.diff_micros == None::<i64>,
            tick_wf(r),
    {
        proof {
            reveal_strlit("");
        }
        Ticker {
            symbol: String::from_str(""),
            bid: Dec { units: 0 },
            ask: Dec { units: 0 },
            flag: None,
            side: None,
            server_at: None,
            recived_at: None,
            diff_micros: None,
        }
    }
}

/// Relies on chrono::Utc::now: the current wall-clock instant, converted
/// to microseconds since the Unix epoch. Nothing is promised of the value.
#[verifier::external_body]
pub(crate) fn now_micros() -> i64 {
    chrono::Utc::now().timestamp_micros()
}

impl Ticker {
    /// The directive flag, zero when absent.
    pub fn flag(&self) -> (r: u8)
        ensures
            r == (match self.flag {
                Some(f) => f,
                None => 0u8,
            }),
    {
        match self.flag {
            Some(f) => f,
            None => 0,
        }
    }

    /// Instantaneous mid price of this tick.
    pub fn mid(&self) -> (r: Dec)
        requires
            tick_wf(*self),
        ensures
            r.units == mid_units(*self),
    {
        let sum: i64 = self.bid.units + self.ask.units;
        Dec { units: ((sum as u64) / 2) as i64 }
    }

    /// Stamps the receipt time from the wall clock and derives the one-way
    /// latency, once, at ingestion; every other field is left alone.
    pub fn culc_diff_micros(&mut self)
        ensures
            final(self).recived_at.is_some(),
            final(self).diff_micros == Some(
                spec_latency(old(self).server_at, final(self).recived_at.unwrap()),
            ),
            final(self).symbol == old(self).symbol,
            final(self).bid == old(self).bid,
            final(self).ask == old(self).ask,
            final(self).flag == old(self).flag,
            final(self).side == old(self).side,
            final(self).server_at == old(self).server_at,
    {
        let now = now_micros();
        self.recived_at = Some(now);
        let d: i64 = match self.server_at {
            Some(s) => {
                let wide: i128 = (now as i128) - (s as i128);
                if i64::MIN as i128 <= wide && wide <= i64::MAX as i128 {
                    wide as i64
                } else {
                    0
                }
            },
            None => 0,
        };
        self.diff_micros = Some(d);
    }
}

/// All ticks in a history are well-formed.
pub open spec fn all_wf(s: Seq<Ticker>) -> bool {
    forall|i: int| 0 <= i < s.len() ==> tick_wf(#[trigger] s[i])
}

/// Sum of mid prices over a history, in units.
pub open spec fn sum_mids(s: Seq<Ticker>) -> int
    decreases s.len(),
{
    if s.len() == 0 {
        0
    } else {
        sum_mids(s.drop_last()) + mid_units(s.last())
    }
}

/// The bid or ask of one tick, chosen by `bid`.
pub open spec fn field_units(t: Ticker, bid: bool) -> int {
    if bid {
        t.bid.units as int
    } else {
        t.ask.units as int
    }
}

pub open spec fn sum_field(s: Seq<Ticker>, bid: bool) -> int
    decreases s.len(),
{
    if s.len() == 0 {
        0
    } else {
        sum_field(s.drop_last(), bid) + field_units(s.last(), bid)
    }
}

pub open spec fn sum_field_sq(s: Seq<Ticker>, bid: bool) -> int
    decreases s.len(),
{
    if s.len() == 0 {
        0
    } else {
        sum_field_sq(s.drop_last(), bid) + field_units(s.last(), bid) * field_units(s.last(), bid)
    }
}

/// Bessel-corrected variance of the chosen field over `s`, floored at each
/// division exactly as the executable computation floors.
pub open spec fn spec_variance(s: Seq<Ticker>, bid: bool) -> int {
    let n = s.len() as int;
    (sum_field_sq(s, bid) - (sum_field(s, bid) * sum_field(s, bid)) / n) / (n - 1)
}

/// The z-score of the latest value of the chosen field: its distance from
/// the mean, in standard deviations, scaled to `Dec` units.
pub open spec fn spec_zscore(s: Seq<Ticker>, bid: bool) -> int {
    let n = s.len() as int;
    let mean = sum_field(s, bid) / n;
    let sd = spec_isqrt(spec_variance(s, bid));
    let last = field_units(s.last(), bid);
    if last >= mean {
        ((last - mean) * SCALE) / sd
    } else {
        -(((mean - last) * SCALE) / sd)
    }
}

/// Does entry `i` qualify as "older than `micros`" relative to the newest
/// entry? Entries without a receipt time never qualify.
pub open spec fn qualifies(s: Seq<Ticker>, i: int, micros: int) -> bool {
    &&& s.last().recived_at.is_some()
    &&& s[i].recived_at.is_some()
    &&& s.last().recived_at.unwrap() - s[i].recived_at.unwrap() > micros
}

/// The newest entry older than `micros`, scanning from index `from` down.
pub open spec fn older_index_from(s: Seq<Ticker>, micros: int, from: int) -> Option<int>
    decreases from + 1,
{
    if from < 0 {
        None
    } else if qualifies(s, from, micros) {
        Some(from)
    } else {
        older_index_from(s, micros, from - 1)
    }
}

/// The newest entry older than `micros` relative to the newest entry,
/// or `None` when the history is too short or too young.
pub open spec fn spec_older_index(s: Seq<Ticker>, micros: int) -> Option<int> {
    older_index_from(s, micros, s.len() - 1)
}

/// Drift: the newest mid minus the mid of the newest sufficiently old
/// entry; exactly zero when no such entry exists.
pub open spec fn spec_diff(s: Seq<Ticker>, micros: int) -> int {
    match spec_older_index(s, micros) {
        Some(i) => mid_units(s.last()) - mid_units(s[i]),
        None => 0,
    }
}

/// A sequence shrunk to at most `limit` entries, oldest evicted first.
pub open spec fn spec_shrink<T>(s: Seq<T>, limit: int) -> Seq<T> {
    if s.len() > limit {
        s.skip(s.len() - limit)
    } else {
        s
    }
}

/// Evicts the oldest entries of a vector until at most `limit` remain.
pub(crate) fn shrink_vec<T>(v: &mut Vec<T>, limit: usize)
    ensures
        final(v)@ == spec_shrink(old(v)@, limit as int),
        final(v)@.len() <= limit,
        final(v)@.len() <= old(v)@.len(),
    {
    let ghost orig = v@;
    proof {
        assert(orig.skip(0) =~= orig);
    }
    while v.len() > limit
        invariant
            v@ == spec_shrink(orig, v@.len() as int),
            v@ == orig.skip(orig.len() - v@.len()),
            v@.len() <= orig.len(),
            orig.len() > limit ==> v@.len() >= limit,
            orig.len() <= limit ==> v@ == orig,
        decreases v@.len(),
    {
        let ghost before = v@;
        v.remove(0);
        proof {
            assert(v@ =~= before.skip(1));
            assert(before.skip(1) =~= orig.skip(orig.len() - before.len() + 1));
        }
    }
}

/// Time-ordered bounded history of ticks, append-only except for eviction
/// of the oldest entries.
#[derive(Clone, Debug)]
pub struct TickerStats {
    pub data: Vec<Ticker>,
}

impl View for TickerStats {
    type V = Seq<Ticker>;

    open spec fn view(&self) -> Seq<Ticker> {
        self.data@
    }
}

impl Default for TickerStats {
    /// An empty history.
    fn default() -> (r: TickerStats)
        ensures
            r@.len() == 0,
    {
        TickerStats { data: Vec::new() }
    }
}

impl From<Vec<Ticker>> for TickerStats {
    fn from(tickers: Vec<Ticker>) -> (r: TickerStats) {
        TickerStats { data: tickers }
    }
}

impl vstd::std_specs::convert::FromSpecImpl<Vec<Ticker>> for TickerStats {
    open spec fn obeys_from_spec() -> bool {
        true
    }

    open spec fn from_spec(v: Vec<Ticker>) -> TickerStats {
        TickerStats { data: v }
    }
}

impl TickerStats {
    /// The history invariant: every stored tick is well-formed.
    pub open spec fn wf(&self) -> bool {
        all_wf(self@)
    }

    pub fn new() -> (r: TickerStats)
        ensures
            r@.len() == 0,
    {
        TickerStats { data: Vec::new() }
    }

    /// Appends one tick; eviction is the caller's business (`shrink`).
    pub fn push(&mut self, t: Ticker)
        requires
            tick_wf(t),
        ensures
            final(self)@ == old(self)@.push(t),
            old(self).wf() ==> final(self).wf(),
    {
        self.data.push(t);
        proof {
            if old(self).wf() {
                assert forall|i: int| 0 <= i < self@.len() implies tick_wf(#[trigger] self@[i]) by {
                    if i < self@.len() - 1 {
                        assert(self@[i] == old(self)@[i]);
                    }
                }
            }
        }
    }

    /// The most recently pushed tick, the canonical current reference.
    pub fn last(&self) -> (r: Option<&Ticker>)
        ensures
            match r {
                Some(t) => self@.len() > 0 && *t == self@.last(),
                None => self@.len() == 0,
            },
    {
        if self.data.len() == 0 {
            None
        } else {
            Some(&self.data[self.data.len() - 1])
        }
    }

    pub fn len(&self) -> (r: usize)
        ensures
            r == self@.len(),
    {
        self.data.len()
    }

    pub fn is_empty(&self) -> (r: bool)
        ensures
            r == (self@.len() == 0),
    {
        self.data.len() == 0
    }

    /// Smoothed reference price: the average of mid prices over the whole
    /// buffer, or `None` while the buffer is empty ("no signal yet").
    pub fn mid(&self) -> (r: Option<Dec>)
        requires
            self.wf(),
            self@.len() <= 1_000_000,
        ensures
            match r {
                Some(m) => self@.len() > 0 && m.units == sum_mids(self@) / self@.len() as int,
                None => self@.len() == 0,
            },
    {
        let n = self.data.len();
        if n == 0 {
            return None;
        }
        let mut acc: i128 = 0;
        let mut i: usize = 0;
        while i < n
            invariant
                0 <= i <= n,
                n == self.data.len(),
                all_wf(self.data@),
                n <= 1_000_000,
                acc == sum_mids(self.data@.take(i as int)),
                0 <= acc <= i * (MAX_UNITS as i128),
            decreases n - i,
        {
            proof {
                assert(tick_wf(self.data@[i as int]));
                assert(self.data@.take(i as int + 1).drop_last() =~= self.data@.take(i as int));
                assert(self.data@.take(i as int + 1).last() == self.data@[i as int]);
                assert((i as i128 + 1) * (MAX_UNITS as i128) == i as i128 * (MAX_UNITS as i128)
                    + (MAX_UNITS as i128)) by (nonlinear_arith);
            }
            let t = &self.data[i];
            let sum: i64 = t.bid.units + t.ask.units;
            let m: i64 = ((sum as u64) / 2) as i64;
            acc = acc + m as i128;
            i += 1;
        }
        proof {
            assert(self.data@.take(n as int) =~= self.data@);
            lemma_div_pos_is_pos(acc as int, n as int);
            lemma_multiply_divide_le(acc as int, n as int, MAX_UNITS as int);
            assert(n as int * (MAX_UNITS as int) == (MAX_UNITS as int) * (n as int))
                by (nonlinear_arith);
        }
        let avg: i128 = acc / (n as i128);
        Some(Dec { units: avg as i64 })
    }

    /// Z-score of the latest bid or ask against the whole buffer.
    pub fn zscore(&self, field: &str) -> (r: Result<Dec, String>)
        requires
            self.wf(),
            self@.len() <= 1_000_000,
        ensures
            match r {
                Err(e) => !(field@ == "bid"@ || field@ == "ask"@) && e@.len() > 0,
                Ok(z) => (field@ == "bid"@ || field@ == "ask"@) && (self@.len() < 2 ==> z.units
                    == 0) && (self@.len() >= 2 && spec_variance(self@, field@ == "bid"@) == 0
                    ==> z.units == 0) && (self@.len() >= 2 && spec_variance(
                    self@,
                    field@ == "bid"@,
                ) != 0 ==> z.units == spec_zscore(self@, field@ == "bid"@)),
            },
    {
        calculate_zscore_last(&self.data, field)
    }

    /// The newest entry older than `micros` relative to the newest entry;
    /// `None` while the history is too short or too young, which is the
    /// normal state at startup, not an error.
    pub fn filter_micros(&self, micros: i64) -> (r: Option<&Ticker>)
        ensures
            match r {
                Some(t) => {
                    &&& spec_older_index(self@, micros as int) matches Some(i)
                    &&& 0 <= i < self@.len()
                    &&& *t == self@[spec_older_index(self@, micros as int).unwrap()]
                },
                None => spec_older_index(self@, micros as int) == None::<int>,
            },
    {
        let n = self.data.len();
        if n == 0 {
            return None;
        }
        let last_recv: i64 = match &self.data[n - 1].recived_at {
            Some(v) => *v,
            None => {
                proof {
                    lemma_older_none_when_unqualified(self.data@, micros as int, n as int - 1);
                }
                return None;
            },
        };
        let mut j: usize = n;
        while j > 0
            invariant
                0 <= j <= n,
                n == self.data.len(),
                n > 0,
                self.data@.last().recived_at == Some(last_recv),
                spec_older_index(self.data@, micros as int) == older_index_from(
                    self.data@,
                    micros as int,
                    j - 1,
                ),
            decreases j,
        {
            let idx = j - 1;
            let q: bool = match &self.data[idx].recived_at {
                Some(v) => (last_recv as i128) - (*v as i128) > micros as i128,
                None => false,
            };
            if q {
                return Some(&self.data[idx]);
            }
            j = idx;
        }
        None
    }

    /// Drift of the newest mid against the newest sufficiently old mid;
    /// exactly zero when no sufficiently old entry exists, so a zero drift
    /// never crosses a positive threshold.
    pub fn diff(&self, micros: i64) -> (r: Dec)
        requires
            self.wf(),
        ensures
            r.units == spec_diff(self@, micros as int),
    {
        let target = self.filter_micros(micros);
        if let Some(t) = target {
            proof {
                let i = spec_older_index(self@, micros as int).unwrap();
                assert(tick_wf(self@[i]));
                assert(tick_wf(self@[self@.len() - 1]));
            }
            let t_sum: i64 = t.bid.units + t.ask.units;
            let target_mid: i64 = ((t_sum as u64) / 2) as i64;
            let n = self.data.len();
            let l = &self.data[n - 1];
            let l_sum: i64 = l.bid.units + l.ask.units;
            let last_mid: i64 = ((l_sum as u64) / 2) as i64;
            Dec { units: last_mid - target_mid }
        } else {
            Dec { units: 0 }
        }
    }

    /// Evicts the oldest entries until at most `limit_length` remain;
    /// does nothing when already at or under the limit.
    pub fn shrink(&mut self, limit_length: usize)
        ensures
            final(self)@ == spec_shrink(old(self)@, limit_length as int),
            final(self)@.len() <= old(self)@.len(),
            final(self)@.len() <= limit_length,
            old(self).wf() ==> final(self).wf(),
    {
        let ghost orig = self.data@;
        shrink_vec(&mut self.data, limit_length);
        proof {
            if old(self).wf() {
                assert forall|i: int| 0 <= i < self@.len() implies tick_wf(#[trigger] self@[i]) by {
                    if orig.len() > limit_length {
                        assert(self@[i] == orig[i + orig.len() - limit_length]);
                    }
                }
            }
        }
    }
}

impl TickerStats {
    /// The pump's whole history step for one received tick: stamp its
    /// receipt time and latency, append it, and evict down to the
    /// configured capacity.
    pub fn ingest(&mut self, t: Ticker, limit_length: usize)
        requires
            tick_wf(t),
        ensures
            final(self)@.len() <= limit_length,
            old(self).wf() ==> final(self).wf(),
            exists|st: Ticker|
                #[trigger] stamped_from(st, t) && final(self)@ == spec_shrink(
                    old(self)@.push(st),
                    limit_length as int,
                ),
    {
        let ghost t0 = t;
        let mut t = t;
        t.culc_diff_micros();
        let ghost st = t;
        self.push(t);
        self.shrink(limit_length);
        proof {
            assert(stamped_from(st, t0));
            assert(self@ == spec_shrink(old(self)@.push(st), limit_length as int));
        }
    }
}

proof fn lemma_older_none_when_unqualified(s: Seq<Ticker>, micros: int, from: int)
    requires
        s.len() > 0,
        s.last().recived_at == None::<i64>,
        from < s.len(),
    ensures
        older_index_from(s, micros, from) == None::<int>,
    decreases from + 1,
{
    if from >= 0 {
        assert(!qualifies(s, from, micros));
        lemma_older_none_when_unqualified(s, micros, from - 1);
    }
}

// ---------------------------------------------------------------------------
// Statistics over a plain vector of ticks
// ---------------------------------------------------------------------------
/// For any point `x`, the sum of squared distances from the samples is
/// non-negative: `n*x^2 - 2*sum*x + sumsq >= 0`.
proof fn lemma_point_spread(s: Seq<Ticker>, bid: bool, x: int)
    ensures
        s.len() as int * x * x - 2 * sum_field(s, bid) * x + sum_field_sq(s, bid) >= 0,
    decreases s.len(),
{
    if s.len() == 0 {
    } else {
        let t = s.drop_last();
        let v = field_units(s.last(), bid);
        lemma_point_spread(t, bid, x);
        assert(s.len() as int * x * x - 2 * sum_field(s, bid) * x + sum_field_sq(s, bid) >= 0)
            by (nonlinear_arith)
            requires
                t.len() as int * x * x - 2 * sum_field(t, bid) * x + sum_field_sq(t, bid) >= 0,
                s.len() as int == t.len() as int + 1,
                sum_field(s, bid) == sum_field(t, bid) + v,
                sum_field_sq(s, bid) == sum_field_sq(t, bid) + v * v,
        ;
    }
}

/// Cauchy–Schwarz for equal weights: `n * sumsq >= sum^2`.
proof fn lemma_cauchy_schwarz(s: Seq<Ticker>, bid: bool)
    ensures
        s.len() as int * sum_field_sq(s, bid) >= sum_field(s, bid) * sum_field(s, bid),
    decreases s.len(),
{
    if s.len() == 0 {
    } else {
        let t = s.drop_last();
        let v = field_units(s.last(), bid);
        lemma_cauchy_schwarz(t, bid);
        lemma_point_spread(t, bid, v);
        assert(s.len() as int * sum_field_sq(s, bid) >= sum_field(s, bid) * sum_field(s, bid))
            by (nonlinear_arith)
            requires
                t.len() as int * sum_field_sq(t, bid) >= sum_field(t, bid) * sum_field(t, bid),
                t.len() as int * v * v - 2 * sum_field(t, bid) * v + sum_field_sq(t, bid) >= 0,
                s.len() as int == t.len() as int + 1,
                sum_field(s, bid) == sum_field(t, bid) + v,
                sum_field_sq(s, bid) == sum_field_sq(t, bid) + v * v,
        ;
    }
}

/// Bounds on the field sums of a well-formed history.
proof fn lemma_sum_field_bounds(s: Seq<Ticker>, bid: bool)
    requires
        all_wf(s),
    ensures
        0 <= sum_field(s, bid) <= s.len() as int * MAX_UNITS,
        0 <= sum_field_sq(s, bid) <= s.len() as int * MAX_UNITS * MAX_UNITS,
    decreases s.len(),
{
    if s.len() > 0 {
        let t = s.drop_last();
        assert(all_wf(t));
        lemma_sum_field_bounds(t, bid);
        let v = field_units(s.last(), bid);
        assert(tick_wf(s.last()));
        assert(0 <= v <= MAX_UNITS);
        assert(sum_field_sq(s, bid) <= s.len() as int * MAX_UNITS * MAX_UNITS)
            by (nonlinear_arith)
            requires
                sum_field_sq(s, bid) == sum_field_sq(t, bid) + v * v,
                0 <= sum_field_sq(t, bid) <= t.len() as int * MAX_UNITS * MAX_UNITS,
                0 <= v <= MAX_UNITS,
                s.len() as int == t.len() as int + 1,
                MAX_UNITS == 1_000_000_000_000,
        ;
        assert(sum_field(s, bid) <= s.len() as int * MAX_UNITS) by (nonlinear_arith)
            requires
                sum_field(s, bid) == sum_field(t, bid) + v,
                0 <= sum_field(t, bid) <= t.len() as int * MAX_UNITS,
                0 <= v <= MAX_UNITS,
                s.len() as int == t.len() as int + 1,
        ;
    }
}

/// Z-score of the latest bid or ask over a run of ticks: distance of the
/// latest value from the mean in (Bessel-corrected) standard deviations.
/// Fewer than two samples give exactly zero, and so does a history whose
/// (floored) variance is zero — a flat market is "no signal", never a
/// division failure; an unknown field name gives an explicit error, never
/// a numeric default.
pub fn calculate_zscore_last(data: &Vec<Ticker>, field: &str) -> (r: Result<Dec, String>)
    requires
        all_wf(data@),
        data@.len() <= 1_000_000,
    ensures
        match r {
            Err(e) => !(field@ == "bid"@ || field@ == "ask"@) && e@.len() > 0,
            Ok(z) => (field@ == "bid"@ || field@ == "ask"@) && (data@.len() < 2 ==> z.units == 0)
                && (data@.len() >= 2 && spec_variance(data@, field@ == "bid"@) == 0 ==> z.units
                == 0) && (data@.len() >= 2 && spec_variance(data@, field@ == "bid"@) != 0
                ==> z.units == spec_zscore(data@, field@ == "bid"@)),
        },
{
    let is_bid = str_eq(field, "bid");
    let is_ask = str_eq(field, "ask");
    if !is_bid && !is_ask {
        proof {
            reveal_strlit("invalid field name");
        }
        return Err(String::from_str("invalid field name"));
    }
    if data.len() < 2 {
        return Ok(Dec { units: 0 });
    }
    proof {
        if is_bid {
            reveal_strlit("bid");
            reveal_strlit("ask");
            assert(field@ != "ask"@) by {
                assert(field@ == "bid"@);
                assert("bid"@.len() == 3 && "ask"@.len() == 3);
                assert("bid"@[0] == 'b' && "ask"@[0] == 'a');
            }
        }
    }
    let ghost bid = is_bid;
    let n = data.len();
    // One pass for the sum and the sum of squares.
    let mut sum: i128 = 0;
    let mut sumsq: i128 = 0;
    let mut i: usize = 0;
    while i < n
        invariant
            0 <= i <= n,
            n == data.len(),
            all_wf(data@),
            n <= 1_000_000,
            sum == sum_field(data@.take(i as int), bid),
            sumsq == sum_field_sq(data@.take(i as int), bid),
            0 <= sum <= i * (MAX_UNITS as i128),
            0 <= sumsq <= (i as i128) * (MAX_UNITS as i128) * (MAX_UNITS as i128),
            bid == is_bid,
            is_bid || is_ask,
        decreases n - i,
    {
        proof {
            assert(tick_wf(data@[i as int]));
            assert(data@.take(i as int + 1).drop_last() =~= data@.take(i as int));
            assert(data@.take(i as int + 1).last() == data@[i as int]);
            assert((i as i128 + 1) * (MAX_UNITS as i128) * (MAX_UNITS as i128) == (i as i128) * (
            MAX_UNITS as i128) * (MAX_UNITS as i128) + (MAX_UNITS as i128) * (MAX_UNITS as i128))
                by (nonlinear_arith);
            assert((i as i128 + 1) * (MAX_UNITS as i128) == i as i128 * (MAX_UNITS as i128)
                + (MAX_UNITS as i128)) by (nonlinear_arith);
            assert(0 <= (data@[i as int].bid.units as i128) * (data@[i as int].bid.units as i128)
                <= (MAX_UNITS as i128) * (MAX_UNITS as i128)) by (nonlinear_arith)
                requires
                    0 <= data@[i as int].bid.units <= MAX_UNITS,
            ;
            assert(0 <= (data@[i as int].ask.units as i128) * (data@[i as int].ask.units as i128)
                <= (MAX_UNITS as i128) * (MAX_UNITS as i128)) by (nonlinear_arith)
                requires
                    0 <= data@[i as int].ask.units <= MAX_UNITS,
            ;
        }
        let v: i64 = if is_bid {
            data[i].bid.units
        } else {
            data[i].ask.units
        };
        sum = sum + v as i128;
        sumsq = sumsq + (v as i128) * (v as i128);
        i += 1;
    }
    proof {
        assert(data@.take(n as int) =~= data@);
        lemma_sum_field_bounds(data@, bid);
        lemma_cauchy_schwarz(data@, bid);
    }
    let ni: i128 = n as i128;
    proof {
        // sum <= n * MAX_UNITS <= 10^18; sumsq <= n * MAX^2 <= 10^30.
        assert(sum <= 1_000_000_000_000_000_000i128 && sumsq
            <= 1_000_000_000_000_000_000_000_000_000_000i128) by (nonlinear_arith)
            requires
                sum <= ni * (MAX_UNITS as i128),
                sumsq <= ni * (MAX_UNITS as i128) * (MAX_UNITS as i128),
                2 <= ni <= 1_000_000,
                MAX_UNITS == 1_000_000_000_000,
        ;
        // sum * sum fits in i128: (10^18)^2 = 10^36 < i128::MAX.
        assert(sum * sum <= 1_000_000_000_000_000_000i128 * 1_000_000_000_000_000_000i128)
            by (nonlinear_arith)
            requires
                0 <= sum <= 1_000_000_000_000_000_000i128,
        ;
    }
    let mean: i128 = sum / ni;
    let q: i128 = (sum * sum) / ni;
    proof {
        lemma_div_pos_is_pos(sum as int, ni as int);
        lemma_div_pos_is_pos((sum * sum) as int, ni as int);
        // q <= sumsq from Cauchy-Schwarz.
        assert(sum as int * sum as int <= ni as int * sumsq as int);
        lemma_multiply_divide_le((sum * sum) as int, ni as int, sumsq as int);
        // mean <= MAX_UNITS.
        lemma_multiply_divide_le(sum as int, ni as int, MAX_UNITS as int);
        assert(ni as int * (MAX_UNITS as int) == (MAX_UNITS as int) * (ni as int))
            by (nonlinear_arith);
    }
    let varn: i128 = sumsq - q;
    let var: i128 = varn / (ni - 1);
    proof {
        lemma_div_pos_is_pos(varn as int, ni as int - 1);
        lemma_varn_div_le(varn as int, ni as int - 1);
        assert((1u128 << 126) == 0x4000_0000_0000_0000_0000_0000_0000_0000u128) by (bit_vector);
    }
    let sd_u: u64 = isqrt_u128(var as u128);
    proof {
        assert(var == spec_variance(data@, bid));
        lemma_isqrt_bounds(var as int);
        let rt = spec_isqrt(var as int);
        assert((var as int) < (rt + 1) * (rt + 1));
        if rt == 0 {
            assert((rt + 1) * (rt + 1) == 1) by (nonlinear_arith)
                requires
                    rt == 0,
            ;
            assert(var == 0);
        }
    }
    if sd_u == 0 {
        // A flat history: zero deviation, defined as a zero score.
        return Ok(Dec { units: 0 });
    }
    let sd: i128 = sd_u as i128;
    let lastv: i64 = if is_bid {
        data[n - 1].bid.units
    } else {
        data[n - 1].ask.units
    };
    proof {
        assert(tick_wf(data@[n - 1]));
        assert(data@.last() == data@[n - 1]);
    }
    let lv: i128 = lastv as i128;
    let z: i128 = if lv >= mean {
        proof {
            lemma_zdiv_bound((lv - mean) as int, sd as int);
        }
        ((lv - mean) * (SCALE as i128)) / sd
    } else {
        proof {
            lemma_zdiv_bound((mean - lv) as int, sd as int);
        }
        -(((mean - lv) * (SCALE as i128)) / sd)
    };
    Ok(Dec { units: z as i64 })
}

/// Dividing a non-negative quantity bounded by `10^12` scaled by `SCALE`
/// by a positive divisor stays within `i64`.
proof fn lemma_zdiv_bound(delta: int, sd: int)
    requires
        0 <= delta <= MAX_UNITS,
        sd >= 1,
    ensures
        0 <= (delta * SCALE) / sd <= 1_000_000_000_000_000_000,
{
    assert(delta * SCALE <= 1_000_000_000_000_000_000) by (nonlinear_arith)
        requires
            0 <= delta <= MAX_UNITS,
            MAX_UNITS == 1_000_000_000_000,
            SCALE == 1_000_000,
    ;
    assert(delta * SCALE >= 0) by (nonlinear_arith)
        requires
            delta >= 0,
            SCALE == 1_000_000,
    ;
    lemma_div_pos_is_pos(delta * SCALE, sd);
    lemma_div_is_ordered(delta * SCALE, 1_000_000_000_000_000_000, sd);
    lemma_varn_div_le(1_000_000_000_000_000_000, sd);
}

/// `x / d <= x` for non-negative `x` and positive `d`.
proof fn lemma_varn_div_le(x: int, d: int)
    requires
        x >= 0,
        d >= 1,
    ensures
        x / d <= x,
{
    lemma_fundamental_div_mod(x, d);
    assert(x == d * (x / d) + x % d);
    lemma_div_pos_is_pos(x, d);
    assert(d * (x / d) >= x / d) by (nonlinear_arith)
        requires
            d >= 1,
            x / d >= 0,
    ;
}

/// A qualifying index, when one exists, lies inside the history.
pub proof fn lemma_older_index_in_range(s: Seq<Ticker>, micros: int)
    ensures
        spec_older_index(s, micros) matches Some(i) ==> 0 <= i < s.len(),
{
    lemma_older_from_in_range(s, micros, s.len() - 1);
}

proof fn lemma_older_from_in_range(s: Seq<Ticker>, micros: int, from: int)
    requires
        from < s.len(),
    ensures
        older_index_from(s, micros, from) matches Some(i) ==> 0 <= i <= from,
    decreases from + 1,
{
    if from >= 0 && !qualifies(s, from, micros) {
        lemma_older_from_in_range(s, micros, from - 1);
    }
}

/// The tick a pump stores: the received tick with its receipt time and
/// latency stamped, everything else untouched.
pub open spec fn stamped_from(st: Ticker, t: Ticker) -> bool {
    &&& st.symbol == t.symbol
    &&& st.bid == t.bid
    &&& st.ask == t.ask
    &&& st.flag == t.flag
    &&& st.side == t.side
    &&& st.server_at == t.server_at
    &&& st.recived_at.is_some()
    &&& st.diff_micros == Some(spec_latency(t.server_at, st.recived_at.unwrap()))
}


/// Sum of squared distances of each mid from `m`, in units squared.
pub open spec fn sum_sq_dev(s: Seq<Ticker>, m: int) -> int
    decreases s.len(),
{
    if s.len() == 0 {
        0
    } else {
        sum_sq_dev(s.drop_last(), m) + (mid_units(s.last()) - m) * (mid_units(s.last()) - m)
    }
}

/// Population standard deviation of the mid prices: the floor square root
/// of the mean squared deviation from the (floored) mean mid.
pub open spec fn spec_std_units(s: Seq<Ticker>) -> int {
    spec_isqrt(sum_sq_dev(s, sum_mids(s) / s.len() as int) / s.len() as int)
}

proof fn lemma_mid_units_range(t: Ticker)
    requires
        tick_wf(t),
    ensures
        0 <= mid_units(t) <= MAX_UNITS,
{
    lemma_div_pos_is_pos(t.bid.units + t.ask.units, 2);
    lemma_div_is_ordered(t.bid.units + t.ask.units, 2 * MAX_UNITS, 2);
}

proof fn lemma_sum_mids_bounds(s: Seq<Ticker>)
    requires
        all_wf(s),
    ensures
        0 <= sum_mids(s) <= s.len() as int * MAX_UNITS,
    decreases s.len(),
{
    if s.len() > 0 {
        let t = s.drop_last();
        assert(all_wf(t));
        lemma_sum_mids_bounds(t);
        assert(tick_wf(s.last()));
        lemma_mid_units_range(s.last());
        assert(sum_mids(s) <= s.len() as int * MAX_UNITS) by (nonlinear_arith)
            requires
                sum_mids(s) == sum_mids(t) + mid_units(s.last()),
                0 <= sum_mids(t) <= t.len() as int * MAX_UNITS,
                0 <= mid_units(s.last()) <= MAX_UNITS,
                s.len() as int == t.len() as int + 1,
        ;
    }
}

/// Mean mid price over a run of ticks, or `None` when there are none.
pub fn mean(data: &Vec<Ticker>) -> (r: Option<Dec>)
    requires
        all_wf(data@),
        data@.len() <= 1_000_000,
    ensures
        match r {
            Some(m) => data@.len() > 0 && m.units == sum_mids(data@) / data@.len() as int,
            None => data@.len() == 0,
        },
{
    let n = data.len();
    if n == 0 {
        return None;
    }
    let mut acc: i128 = 0;
    let mut i: usize = 0;
    while i < n
        invariant
            0 <= i <= n,
            n == data.len(),
            all_wf(data@),
            n <= 1_000_000,
            acc == sum_mids(data@.take(i as int)),
            0 <= acc <= i * (MAX_UNITS as i128),
        decreases n - i,
    {
        proof {
            assert(tick_wf(data@[i as int]));
            assert(data@.take(i as int + 1).drop_last() =~= data@.take(i as int));
            assert(data@.take(i as int + 1).last() == data@[i as int]);
            assert((i as i128 + 1) * (MAX_UNITS as i128) == i as i128 * (MAX_UNITS as i128) + (
            MAX_UNITS as i128)) by (nonlinear_arith);
        }
        let t = &data[i];
        let sum: i64 = t.bid.units + t.ask.units;
        let m: i64 = ((sum as u64) / 2) as i64;
        acc = acc + m as i128;
        i += 1;
    }
    proof {
        assert(data@.take(n as int) =~= data@);
        lemma_div_pos_is_pos(acc as int, n as int);
        lemma_multiply_divide_le(acc as int, n as int, MAX_UNITS as int);
        assert(n as int * (MAX_UNITS as int) == (MAX_UNITS as int) * (n as int))
            by (nonlinear_arith);
    }
    let avg: i128 = acc / (n as i128);
    Some(Dec { units: avg as i64 })
}

/// Population standard deviation of the mid prices over a run of ticks,
/// or `None` when there are none.
pub fn std_dev(data: &Vec<Ticker>) -> (r: Option<Dec>)
    requires
        all_wf(data@),
        data@.len() <= 1_000_000,
    ensures
        match r {
            Some(sd) => data@.len() > 0 && sd.units == spec_std_units(data@),
            None => data@.len() == 0,
        },
{
    let m = match mean(data) {
        Some(m) => m,
        None => {
            return None;
        },
    };
    let n = data.len();
    let ghost gm = m.units as int;
    proof {
        lemma_sum_mids_bounds(data@);
        lemma_div_pos_is_pos(sum_mids(data@), n as int);
        lemma_multiply_divide_le(sum_mids(data@), n as int, MAX_UNITS as int);
        assert(n as int * (MAX_UNITS as int) == (MAX_UNITS as int) * (n as int))
            by (nonlinear_arith);
    }
    let mut acc: i128 = 0;
    let mut i: usize = 0;
    while i < n
        invariant
            0 <= i <= n,
            n == data.len(),
            all_wf(data@),
            n <= 1_000_000,
            0 <= m.units <= MAX_UNITS,
            gm == m.units as int,
            acc == sum_sq_dev(data@.take(i as int), gm),
            0 <= acc <= (i as i128) * (MAX_UNITS as i128) * (MAX_UNITS as i128),
        decreases n - i,
    {
        proof {
            assert(tick_wf(data@[i as int]));
            assert(data@.take(i as int + 1).drop_last() =~= data@.take(i as int));
            assert(data@.take(i as int + 1).last() == data@[i as int]);
            lemma_mid_units_range(data@[i as int]);
            assert((i as i128 + 1) * (MAX_UNITS as i128) * (MAX_UNITS as i128) == (i as i128) * (
            MAX_UNITS as i128) * (MAX_UNITS as i128) + (MAX_UNITS as i128) * (MAX_UNITS as i128))
                by (nonlinear_arith);
        }
        let t = &data[i];
        let sum: i64 = t.bid.units + t.ask.units;
        let mid: i64 = ((sum as u64) / 2) as i64;
        let dev: i128 = (mid as i128) - (m.units as i128);
        proof {
            assert(0 <= dev * dev <= (MAX_UNITS as i128) * (MAX_UNITS as i128))
                by (nonlinear_arith)
                requires
                    -(MAX_UNITS as i128) <= dev <= (MAX_UNITS as i128),
                    MAX_UNITS == 1_000_000_000_000,
            ;
        }
        acc = acc + dev * dev;
        i += 1;
    }
    proof {
        assert(data@.take(n as int) =~= data@);
        assert(acc <= 1_000_000_000_000_000_000_000_000_000_000i128) by (nonlinear_arith)
            requires
                0 <= acc <= (n as i128) * (MAX_UNITS as i128) * (MAX_UNITS as i128),
                1 <= (n as i128) <= 1_000_000,
                MAX_UNITS == 1_000_000_000_000,
        ;
    }
    let var: i128 = acc / (n as i128);
    proof {
        lemma_div_pos_is_pos(acc as int, n as int);
        lemma_varn_div_le(acc as int, n as int);
        assert((1u128 << 126) == 0x4000_0000_0000_0000_0000_0000_0000_0000u128) by (bit_vector);
    }
    let sd = isqrt_u128(var as u128);
    proof {
        lemma_isqrt_bounds(var as int);
        assert(spec_isqrt(var as int) <= 1_000_000_000_000_000int) by (nonlinear_arith)
            requires
                spec_isqrt(var as int) >= 0,
                spec_isqrt(var as int) * spec_isqrt(var as int) <= var as int,
                (var as int) <= 1_000_000_000_000_000_000_000_000_000_000int,
        ;
    }
    Some(Dec { units: sd as i64 })
}

// ---------------------------------------------------------------------------
// Laws
// ---------------------------------------------------------------------------
/// The drift is zero exactly when no sufficiently old entry exists or the
/// newest and reference mid-prices are numerically equal.
pub proof fn lemma_diff_zero_iff(s: Seq<Ticker>, micros: int)
    ensures
        (spec_diff(s, micros) == 0) <==> (spec_older_index(s, micros) == None::<int>
            || mid_units(s.last()) == mid_units(s[spec_older_index(s, micros).unwrap()])),
{
}

/// Shrinking is idempotent: shrinking twice with the same limit is the
/// same as shrinking once, and the resulting length never exceeds the
/// limit (nor the length it started with).
pub proof fn lemma_shrink_idempotent<T>(s: Seq<T>, limit: int)
    requires
        limit >= 0,
    ensures
        spec_shrink(spec_shrink(s, limit), limit) == spec_shrink(s, limit),
        spec_shrink(s, limit).len() <= limit,
        spec_shrink(s, limit).len() <= s.len(),
{
}

} // verus!
