//! Fixed-point decimal numbers.
//!
//! Every price, threshold, drift and z-score in this crate is a `Dec`: a
//! signed count of millionths (`SCALE` units per whole). All arithmetic on
//! them is exact integer arithmetic, so statistics over long histories do
//! not accumulate binary rounding error.
use vstd::prelude::*;

verus! {

/// Units per 1.0: a `Dec` stores millionths.
pub const SCALE: i64 = 1_000_000;

/// Largest magnitude (in units) the library stores for a quote or threshold.
pub const MAX_UNITS: i64 = 1_000_000_000_000;

/// Absolute value of a mathematical integer.
pub open spec fn abs_int(x: int) -> int {
    if x < 0 {
        -x
    } else {
        x
    }
}

/// A fixed-point decimal: `units` millionths.
#[derive(Clone, Copy, Debug, PartialEq, Eq, Structural, Hash)]
pub struct Dec {
    pub units: i64,
}

impl Dec {
    /// The mathematical absolute value of this number, in units.
    pub open spec fn spec_abs(self) -> int {
        if self.units < 0 {
            -(self.units as int)
        } else {
            self.units as int
        }
    }

    pub fn zero() -> (r: Dec)
        ensures
            r.units == 0,
    {
        Dec { units: 0 }
    }

    pub fn new(units: i64) -> (r: Dec)
        ensures
            r.units == units,
    {
        Dec { units }
    }

    pub fn is_zero(&self) -> (r: bool)
        ensures
            r == (self.units == 0),
    {
        self.units == 0
    }

    pub fn abs(&self) -> (r: Dec)
        requires
            self.units > i64::MIN,
        ensures
            r.units == self.spec_abs(),
    {
        if self.units < 0 {
            Dec { units: -self.units }
        } else {
            Dec { units: self.units }
        }
    }

    pub fn lt(&self, other: &Dec) -> (r: bool)
        ensures
            r == (self.units < other.units),
    {
        self.units < other.units
    }
}

// ---------------------------------------------------------------------------
// Parsing decimal strings
// ---------------------------------------------------------------------------
pub open spec fn is_digit(c: char) -> bool {
    '0' <= c && c <= '9'
}

pub open spec fn digit_val(c: char) -> int {
    c as int - '0' as int
}

pub open spec fn all_digits(s: Seq<char>) -> bool {
    forall|i: int| 0 <= i < s.len() ==> is_digit(#[trigger] s[i])
}

/// Value of a digit string, most significant digit first.
pub open spec fn digits_to_int(s: Seq<char>) -> int
    decreases s.len(),
{
    if s.len() == 0 {
        0
    } else {
        digits_to_int(s.drop_last()) * 10 + digit_val(s.last())
    }
}

/// Index of the first `'.'` in `s`, or `s.len()` if there is none.
pub open spec fn first_dot(s: Seq<char>) -> int
    decreases s.len(),
{
    if s.len() == 0 {
        0
    } else if s[0] == '.' {
        0
    } else {
        1 + first_dot(s.skip(1))
    }
}

pub open spec fn pow10(n: nat) -> int
    decreases n,
{
    if n == 0 {
        1
    } else {
        10 * pow10((n - 1) as nat)
    }
}

/// Value in units of an unsigned decimal literal: digits, optionally
/// followed by a point and one to six fractional digits.
pub open spec fn spec_parse_unsigned(s: Seq<char>) -> Option<int> {
    let d = first_dot(s);
    if d == s.len() {
        if s.len() >= 1 && all_digits(s) {
            Some(digits_to_int(s) * SCALE)
        } else {
            None
        }
    } else {
        let ip = s.take(d);
        let fp = s.skip(d + 1);
        if ip.len() >= 1 && all_digits(ip) && 1 <= fp.len() <= 6 && all_digits(fp) {
            Some(digits_to_int(ip) * SCALE + digits_to_int(fp) * pow10((6 - fp.len()) as nat))
        } else {
            None
        }
    }
}

/// Value in units of a decimal literal with an optional leading minus,
/// rejected when its magnitude exceeds `MAX_UNITS`.
pub open spec fn spec_parse_dec(s: Seq<char>) -> Option<int> {
    if s.len() > 0 && s[0] == '-' {
        match spec_parse_unsigned(s.skip(1)) {
            Some(v) => if v <= MAX_UNITS {
                Some(-v)
            } else {
                None
            },
            None => None,
        }
    } else {
        match spec_parse_unsigned(s) {
            Some(v) => if v <= MAX_UNITS {
                Some(v)
            } else {
                None
            },
            None => None,
        }
    }
}

proof fn lemma_digits_nonneg(s: Seq<char>)
    requires
        all_digits(s),
    ensures
        digits_to_int(s) >= 0,
    decreases s.len(),
{
    if s.len() > 0 {
        assert(all_digits(s.drop_last()));
        lemma_digits_nonneg(s.drop_last());
    }
}

proof fn lemma_digits_push(s: Seq<char>, c: char)
    ensures
        digits_to_int(s.push(c)) == digits_to_int(s) * 10 + digit_val(c),
{
    assert(s.push(c).drop_last() =~= s);
    assert(s.push(c).last() == c);
}

/// If no character before `k` is a dot, and `k` is a dot or the end,
/// then `k` is the first dot position.
pub proof fn lemma_first_dot_at(s: Seq<char>, k: int)
    requires
        0 <= k <= s.len(),
        forall|j: int| 0 <= j < k ==> #[trigger] s[j] != '.',
        k < s.len() ==> s[k] == '.',
        k == s.len() ==> forall|j: int| 0 <= j < s.len() ==> #[trigger] s[j] != '.',
    ensures
        first_dot(s) == k,
    decreases k,
{
    if s.len() == 0 {
    } else if k == 0 {
    } else {
        assert(s[0] != '.');
        let t = s.skip(1);
        assert(forall|j: int| 0 <= j < k - 1 ==> #[trigger] t[j] != '.');
        assert(k - 1 < t.len() ==> t[k - 1] == '.');
        lemma_first_dot_at(t, k - 1);
    }
}

/// The sign/skip bookkeeping shared by all the parse lemmas: the unsigned
/// tail of `whole` begins at `start`.
pub open spec fn sign_split(whole: Seq<char>, start: int, neg: bool) -> bool {
    &&& start == if neg {
        1int
    } else {
        0int
    }
    &&& start <= whole.len()
    &&& (neg ==> whole.len() > 0 && whole[0] == '-')
    &&& (!neg ==> !(whole.len() > 0 && whole[0] == '-'))
}

proof fn lemma_dec_from_unsigned(whole: Seq<char>, start: int, neg: bool)
    requires
        sign_split(whole, start, neg),
    ensures
        !neg ==> whole.skip(start) == whole,
        spec_parse_dec(whole) == ({
            match spec_parse_unsigned(whole.skip(start)) {
                Some(v) => if v <= MAX_UNITS {
                    Some(if neg { -v } else { v })
                } else {
                    None
                },
                None => None::<int>,
            }
        }),
{
    if !neg {
        assert(whole.skip(0) =~= whole);
    }
}

/// Parses a decimal string ("110.05", "-3", "0.1") into units,
/// exactly as `spec_parse_dec` describes; anything else yields `None`.
pub fn parse_dec(s: &str) -> (r: Option<Dec>)
    ensures
        match r {
            Some(d) => spec_parse_dec(s@) == Some(d.units as int),
            None => spec_parse_dec(s@) == None::<int>,
        },
{
    let len = s.unicode_len();
    let ghost whole = s@;
    let mut start: usize = 0;
    let mut neg = false;
    if len > 0 && s.get_char(0) == '-' {
        neg = true;
        start = 1;
    }
    proof {
        assert(sign_split(whole, start as int, neg));
    }
    // Scan the integer part.
    let mut i: usize = start;
    let mut acc: u64 = 0;
    let mut big = false;
    while i < len && s.get_char(i) != '.'
        invariant
            s@ == whole,
            len == whole.len(),
            sign_split(whole, start as int, neg),
            start <= i <= len,
            forall|j: int| start <= j < i ==> is_digit(#[trigger] whole[j]) && whole[j] != '.',
            !big ==> acc <= 1_000_000 && acc == digits_to_int(
                whole.subrange(start as int, i as int),
            ),
            big ==> digits_to_int(whole.subrange(start as int, i as int)) > 1_000_000,
            all_digits(whole.subrange(start as int, i as int)),
        decreases len - i,
    {
        let c = s.get_char(i);
        if c < '0' || c > '9' {
            proof {
                lemma_reject_nondigit(whole, start as int, i as int, neg);
            }
            return None;
        }
        let d: u64 = (c as u32 as u64) - ('0' as u32 as u64);
        proof {
            let pre = whole.subrange(start as int, i as int);
            assert(whole.subrange(start as int, i as int + 1) =~= pre.push(whole[i as int]));
            lemma_digits_push(pre, whole[i as int]);
            lemma_digits_nonneg(pre);
            if big {
                assert(digits_to_int(pre) * 10 + digit_val(whole[i as int]) > 1_000_000)
                    by (nonlinear_arith)
                    requires
                        digits_to_int(pre) > 1_000_000,
                        digit_val(whole[i as int]) >= 0,
                ;
            }
        }
        if !big {
            let next = acc * 10 + d;
            if next > 1_000_000 {
                big = true;
            } else {
                acc = next;
            }
        }
        i += 1;
    }
    if i == start {
        proof {
            lemma_reject_no_int_digits(whole, start as int, neg);
        }
        return None;
    }
    if i == len {
        // No fractional part.
        proof {
            let t = whole.skip(start as int);
            assert(forall|j: int|
                0 <= j < t.len() ==> #[trigger] t[j] == whole[j + start as int]);
            lemma_first_dot_at(t, t.len() as int);
            assert(t =~= whole.subrange(start as int, len as int));
            lemma_dec_from_unsigned(whole, start as int, neg);
            if big {
                lemma_scale_too_big(digits_to_int(t));
            }
        }
        if big {
            return None;
        }
        // acc <= 1_000_000, so acc * SCALE <= MAX_UNITS fits easily.
        let units_u: u64 = acc * 1_000_000;
        return finish_parse(units_u, neg, Ghost(whole), Ghost(start as int));
    }
    // whole[i] == '.', scan the fractional part.
    let dot = i;
    i += 1;
    let mut facc: u64 = 0;
    let mut n_frac: usize = 0;
    while i < len
        invariant
            s@ == whole,
            len == whole.len(),
            sign_split(whole, start as int, neg),
            start < dot < len,
            whole[dot as int] == '.',
            forall|j: int| start <= j < dot ==> is_digit(#[trigger] whole[j]) && whole[j] != '.',
            !big ==> acc <= 1_000_000 && acc == digits_to_int(
                whole.subrange(start as int, dot as int),
            ),
            big ==> digits_to_int(whole.subrange(start as int, dot as int)) > 1_000_000,
            all_digits(whole.subrange(start as int, dot as int)),
            dot + 1 <= i <= len,
            n_frac == i - dot - 1,
            n_frac <= 6,
            facc < 1_000_000,
            facc < pow10(n_frac as nat),
            facc == digits_to_int(whole.subrange(dot + 1, i as int)),
            all_digits(whole.subrange(dot + 1, i as int)),
        decreases len - i,
    {
        let c = s.get_char(i);
        if c < '0' || c > '9' {
            proof {
                lemma_reject_frac_nondigit(whole, start as int, dot as int, i as int, neg);
            }
            return None;
        }
        if n_frac == 6 {
            proof {
                lemma_reject_frac_too_long(whole, start as int, dot as int, neg);
            }
            return None;
        }
        proof {
            let pre = whole.subrange(dot + 1, i as int);
            assert(whole.subrange(dot + 1, i as int + 1) =~= pre.push(whole[i as int]));
            lemma_digits_push(pre, whole[i as int]);
            lemma_digits_nonneg(pre);
            lemma_pow10_mono(n_frac as nat);
            assert(pow10((n_frac + 1) as nat) == 10 * pow10(n_frac as nat));
        }
        let d: u64 = (c as u32 as u64) - ('0' as u32 as u64);
        facc = facc * 10 + d;
        n_frac += 1;
        i += 1;
    }
    if n_frac == 0 {
        proof {
            lemma_reject_frac_empty(whole, start as int, dot as int, neg);
        }
        return None;
    }
    proof {
        lemma_frac_split(whole, start as int, dot as int);
        lemma_digits_nonneg(whole.subrange(dot + 1, whole.len() as int));
        if big {
            lemma_reject_big_with_frac(whole, start as int, dot as int, neg);
        }
    }
    if big {
        return None;
    }
    let mult: u64 = pow10_exec(6 - n_frac);
    proof {
        lemma_pow10_mono(((6 - n_frac) as usize) as nat);
        assert(facc * mult <= 999_999 * 100_000) by (nonlinear_arith)
            requires
                facc <= 999_999,
                0 <= mult <= 100_000,
        ;
        lemma_parse_with_frac(
            whole,
            start as int,
            dot as int,
            neg,
            acc as int,
            facc as int,
            n_frac as int,
        );
    }
    let units_u: u64 = acc * 1_000_000 + facc * mult;
    finish_parse(units_u, neg, Ghost(whole), Ghost(start as int))
}

fn pow10_exec(n: usize) -> (r: u64)
    requires
        n <= 6,
    ensures
        r as int == pow10(n as nat),
        1 <= r <= 1_000_000,
{
    let table: [u64; 7] = [1, 10, 100, 1_000, 10_000, 100_000, 1_000_000];
    proof {
        reveal_with_fuel(pow10, 8);
    }
    table[n]
}

proof fn lemma_pow10_mono(n: nat)
    requires
        n <= 5,
    ensures
        pow10(n) <= 100_000,
{
    reveal_with_fuel(pow10, 8);
    if n == 0 {
        assert(pow10(0nat) == 1);
    } else if n == 1 {
        assert(pow10(1nat) == 10);
    } else if n == 2 {
        assert(pow10(2nat) == 100);
    } else if n == 3 {
        assert(pow10(3nat) == 1_000);
    } else if n == 4 {
        assert(pow10(4nat) == 10_000);
    } else {
        assert(pow10(5nat) == 100_000);
    }
}

/// Applies the sign and range check shared by both parse paths.
fn finish_parse(units_u: u64, neg: bool, Ghost(whole): Ghost<Seq<char>>, Ghost(start): Ghost<
    int,
>) -> (r: Option<Dec>)
    requires
        units_u <= 1_100_000_000_000u64,
        sign_split(whole, start, neg),
        spec_parse_unsigned(whole.skip(start)) == Some(units_u as int),
    ensures
        match r {
            Some(d) => spec_parse_dec(whole) == Some(d.units as int),
            None => spec_parse_dec(whole) == None::<int>,
        },
{
    proof {
        lemma_dec_from_unsigned(whole, start, neg);
    }
    if units_u > 1_000_000_000_000u64 {
        return None;
    }
    let v: i64 = units_u as i64;
    if neg {
        Some(Dec { units: -v })
    } else {
        Some(Dec { units: v })
    }
}

// Helper lemmas that conclude `spec_parse_dec(whole) == None` on the
// various rejection paths of `parse_dec`.
proof fn lemma_unsigned_none_nondigit(t: Seq<char>, i: int)
    requires
        0 <= i < t.len(),
        !is_digit(t[i]),
        t[i] != '.',
        forall|j: int| 0 <= j < i ==> is_digit(#[trigger] t[j]) && t[j] != '.',
    ensures
        spec_parse_unsigned(t) == None::<int>,
{
    let d = first_dot(t);
    lemma_first_dot_range(t);
    if d == t.len() {
        assert(!all_digits(t)) by { assert(!is_digit(t[i])) }
    } else {
        assert(t[d] == '.');
        if d < i {
            assert(t[d] != '.');
            assert(false);
        } else {
            assert(i < d);
            let ip = t.take(d);
            assert(ip[i] == t[i]);
            assert(!all_digits(ip)) by { assert(!is_digit(ip[i])) }
        }
    }
}

/// `first_dot` lies between 0 and `len`, points at a dot when not `len`,
/// and no dot comes before it.
proof fn lemma_first_dot_range(s: Seq<char>)
    ensures
        0 <= first_dot(s) <= s.len(),
        first_dot(s) < s.len() ==> s[first_dot(s)] == '.',
        forall|j: int| 0 <= j < first_dot(s) ==> #[trigger] s[j] != '.',
    decreases s.len(),
{
    if s.len() == 0 {
    } else if s[0] == '.' {
    } else {
        lemma_first_dot_range(s.skip(1));
        let t = s.skip(1);
        assert(forall|j: int| 1 <= j < first_dot(s) ==> s[j] == t[j - 1] && #[trigger] s[j] != '.');
        assert(forall|j: int| 0 <= j < first_dot(s) ==> #[trigger] s[j] != '.');
    }
}

proof fn lemma_reject_nondigit(whole: Seq<char>, start: int, i: int, neg: bool)
    requires
        sign_split(whole, start, neg),
        start <= i < whole.len(),
        !is_digit(whole[i]),
        whole[i] != '.',
        forall|j: int| start <= j < i ==> is_digit(#[trigger] whole[j]) && whole[j] != '.',
    ensures
        spec_parse_dec(whole) == None::<int>,
{
    let t = whole.skip(start);
    assert(t[i - start] == whole[i]);
    assert(forall|j: int| 0 <= j < i - start ==> #[trigger] t[j] == whole[j + start]);
    lemma_unsigned_none_nondigit(t, i - start);
    lemma_dec_from_unsigned(whole, start, neg);
}

proof fn lemma_reject_no_int_digits(whole: Seq<char>, start: int, neg: bool)
    requires
        sign_split(whole, start, neg),
        whole.len() == start || whole[start] == '.',
    ensures
        spec_parse_dec(whole) == None::<int>,
{
    let t = whole.skip(start);
    if t.len() == 0 {
        assert(spec_parse_unsigned(t) == None::<int>);
    } else {
        assert(t[0] == whole[start]);
        assert(first_dot(t) == 0);
        assert(t.take(0).len() == 0);
        assert(spec_parse_unsigned(t) == None::<int>);
    }
    lemma_dec_from_unsigned(whole, start, neg);
}

proof fn lemma_scale_too_big(v: int)
    requires
        v > 1_000_000,
    ensures
        v * SCALE > MAX_UNITS,
{
    assert(v * SCALE > MAX_UNITS) by (nonlinear_arith)
        requires
            v > 1_000_000,
            SCALE == 1_000_000,
            MAX_UNITS == 1_000_000_000_000,
    ;
}

/// Splitting `whole` at the first dot after the sign gives the scanned
/// integer and fractional parts.
proof fn lemma_frac_split(whole: Seq<char>, start: int, dot: int)
    requires
        0 <= start <= dot < whole.len(),
        whole[dot] == '.',
        forall|j: int| start <= j < dot ==> is_digit(#[trigger] whole[j]) && whole[j] != '.',
    ensures
        first_dot(whole.skip(start)) == dot - start,
        whole.skip(start).take(dot - start) =~= whole.subrange(start, dot),
        whole.skip(start).skip(dot - start + 1) =~= whole.subrange(dot + 1, whole.len() as int),
{
    let t = whole.skip(start);
    assert(forall|j: int| 0 <= j < dot - start ==> #[trigger] t[j] == whole[j + start]);
    lemma_first_dot_at(t, dot - start);
}

proof fn lemma_reject_frac_nondigit(whole: Seq<char>, start: int, dot: int, i: int, neg: bool)
    requires
        sign_split(whole, start, neg),
        start <= dot < i < whole.len(),
        whole[dot] == '.',
        forall|j: int| start <= j < dot ==> is_digit(#[trigger] whole[j]) && whole[j] != '.',
        !is_digit(whole[i]),
        all_digits(whole.subrange(dot + 1, i)),
    ensures
        spec_parse_dec(whole) == None::<int>,
{
    let t = whole.skip(start);
    lemma_frac_split(whole, start, dot);
    let fp = t.skip(dot - start + 1);
    assert(fp == whole.subrange(dot + 1, whole.len() as int));
    assert(fp[i - dot - 1] == whole[i]);
    assert(!all_digits(fp)) by { assert(!is_digit(fp[i - dot - 1])) }
    lemma_dec_from_unsigned(whole, start, neg);
}

proof fn lemma_reject_frac_too_long(whole: Seq<char>, start: int, dot: int, neg: bool)
    requires
        sign_split(whole, start, neg),
        start <= dot < whole.len(),
        whole[dot] == '.',
        forall|j: int| start <= j < dot ==> is_digit(#[trigger] whole[j]) && whole[j] != '.',
        whole.len() - dot - 1 > 6,
    ensures
        spec_parse_dec(whole) == None::<int>,
{
    let t = whole.skip(start);
    lemma_frac_split(whole, start, dot);
    let fp = t.skip(dot - start + 1);
    assert(fp.len() > 6);
    lemma_dec_from_unsigned(whole, start, neg);
}

proof fn lemma_reject_frac_empty(whole: Seq<char>, start: int, dot: int, neg: bool)
    requires
        sign_split(whole, start, neg),
        start <= dot < whole.len(),
        dot == whole.len() - 1,
        whole[dot] == '.',
        forall|j: int| start <= j < dot ==> is_digit(#[trigger] whole[j]) && whole[j] != '.',
    ensures
        spec_parse_dec(whole) == None::<int>,
{
    let t = whole.skip(start);
    lemma_frac_split(whole, start, dot);
    let fp = t.skip(dot - start + 1);
    assert(fp.len() == 0);
    lemma_dec_from_unsigned(whole, start, neg);
}

proof fn lemma_reject_big_with_frac(whole: Seq<char>, start: int, dot: int, neg: bool)
    requires
        sign_split(whole, start, neg),
        start <= dot < whole.len(),
        whole[dot] == '.',
        forall|j: int| start <= j < dot ==> is_digit(#[trigger] whole[j]) && whole[j] != '.',
        all_digits(whole.subrange(start, dot)),
        digits_to_int(whole.subrange(start, dot)) > 1_000_000,
        all_digits(whole.subrange(dot + 1, whole.len() as int)),
        1 <= whole.len() - dot - 1 <= 6,
    ensures
        spec_parse_dec(whole) == None::<int>,
{
    let t = whole.skip(start);
    lemma_frac_split(whole, start, dot);
    let ip = t.take(dot - start);
    let fp = t.skip(dot - start + 1);
    assert(ip == whole.subrange(start, dot));
    assert(fp == whole.subrange(dot + 1, whole.len() as int));
    lemma_digits_nonneg(fp);
    lemma_pow10_pos((6 - fp.len()) as nat);
    lemma_scale_too_big(digits_to_int(ip));
    assert(digits_to_int(fp) * pow10((6 - fp.len()) as nat) >= 0) by (nonlinear_arith)
        requires
            digits_to_int(fp) >= 0,
            pow10((6 - fp.len()) as nat) >= 1,
    ;
    lemma_dec_from_unsigned(whole, start, neg);
}

proof fn lemma_pow10_pos(n: nat)
    ensures
        pow10(n) >= 1,
    decreases n,
{
    if n > 0 {
        lemma_pow10_pos((n - 1) as nat);
    }
}

proof fn lemma_parse_with_frac(
    whole: Seq<char>,
    start: int,
    dot: int,
    neg: bool,
    acc: int,
    facc: int,
    n_frac: int,
)
    requires
        sign_split(whole, start, neg),
        start <= dot < whole.len(),
        whole[dot] == '.',
        forall|j: int| start <= j < dot ==> is_digit(#[trigger] whole[j]) && whole[j] != '.',
        dot > start,
        all_digits(whole.subrange(start, dot)),
        acc == digits_to_int(whole.subrange(start, dot)),
        0 <= acc <= 1_000_000,
        all_digits(whole.subrange(dot + 1, whole.len() as int)),
        facc == digits_to_int(whole.subrange(dot + 1, whole.len() as int)),
        n_frac == whole.len() - dot - 1,
        1 <= n_frac <= 6,
    ensures
        spec_parse_unsigned(whole.skip(start)) == Some(
            acc * SCALE + facc * pow10((6 - n_frac) as nat),
        ),
{
    let t = whole.skip(start);
    lemma_frac_split(whole, start, dot);
    let ip = t.take(dot - start);
    let fp = t.skip(dot - start + 1);
    assert(ip == whole.subrange(start, dot));
    assert(fp == whole.subrange(dot + 1, whole.len() as int));
    assert(fp.len() == n_frac);
}

/// Value of a small unsigned integer literal: one or more digits whose
/// value is at most 255.
pub open spec fn spec_parse_u8(s: Seq<char>) -> Option<u8> {
    if s.len() >= 1 && all_digits(s) && digits_to_int(s) <= 255 {
        Some(digits_to_int(s) as u8)
    } else {
        None
    }
}

/// Parses a small unsigned integer ("0" to "255"), exactly as
/// `spec_parse_u8` describes; anything else yields `None`.
pub fn parse_u8(s: &str) -> (r: Option<u8>)
    ensures
        match r {
            Some(v) => spec_parse_u8(s@) == Some(v),
            None => spec_parse_u8(s@) == None::<u8>,
        },
{
    let len = s.unicode_len();
    if len == 0 {
        return None;
    }
    let mut i: usize = 0;
    let mut acc: u32 = 0;
    let mut big = false;
    while i < len
        invariant
            0 <= i <= len,
            len == s@.len(),
            all_digits(s@.subrange(0, i as int)),
            !big ==> acc <= 255 && acc == digits_to_int(s@.subrange(0, i as int)),
            big ==> digits_to_int(s@.subrange(0, i as int)) > 255,
        decreases len - i,
    {
        let c = s.get_char(i);
        if c < '0' || c > '9' {
            proof {
                assert(!is_digit(s@[i as int]));
                assert(!all_digits(s@));
            }
            return None;
        }
        let d: u32 = (c as u32) - ('0' as u32);
        proof {
            let pre = s@.subrange(0, i as int);
            assert(s@.subrange(0, i as int + 1) =~= pre.push(s@[i as int]));
            lemma_digits_push(pre, s@[i as int]);
            lemma_digits_nonneg(pre);
            if big {
                assert(digits_to_int(pre) * 10 + digit_val(s@[i as int]) > 255)
                    by (nonlinear_arith)
                    requires
                        digits_to_int(pre) > 255,
                        digit_val(s@[i as int]) >= 0,
                ;
            }
        }
        if !big {
            let next = acc * 10 + d;
            if next > 255 {
                big = true;
            } else {
                acc = next;
            }
        }
        i += 1;
    }
    proof {
        assert(s@.subrange(0, len as int) =~= s@);
    }
    if big {
        None
    } else {
        Some(acc as u8)
    }
}

// ---------------------------------------------------------------------------
// Integer square root
// ---------------------------------------------------------------------------
/// Floor of the square root of `n` (0 for negative arguments).
pub open spec fn spec_isqrt(n: int) -> int
    decreases n,
{
    if n <= 0 {
        0
    } else {
        let r = spec_isqrt(n - 1);
        if (r + 1) * (r + 1) <= n {
            r + 1
        } else {
            r
        }
    }
}

pub proof fn lemma_isqrt_bounds(n: int)
    requires
        n >= 0,
    ensures
        spec_isqrt(n) >= 0,
        spec_isqrt(n) * spec_isqrt(n) <= n,
        n < (spec_isqrt(n) + 1) * (spec_isqrt(n) + 1),
    decreases n,
{
    if n == 0 {
    } else {
        lemma_isqrt_bounds(n - 1);
        let r = spec_isqrt(n - 1);
        if (r + 1) * (r + 1) <= n {
            assert(n < (r + 2) * (r + 2)) by (nonlinear_arith)
                requires
                    n - 1 < (r + 1) * (r + 1),
                    r >= 0,
            ;
        }
    }
}

pub proof fn lemma_isqrt_unique(n: int, a: int)
    requires
        n >= 0,
        a >= 0,
        a * a <= n,
        n < (a + 1) * (a + 1),
    ensures
        a == spec_isqrt(n),
{
    lemma_isqrt_bounds(n);
    let b = spec_isqrt(n);
    if a < b {
        assert(false) by (nonlinear_arith)
            requires
                0 <= a < b,
                b * b <= n,
                n < (a + 1) * (a + 1),
        ;
    }
    if b < a {
        assert(false) by (nonlinear_arith)
            requires
                0 <= b < a,
                a * a <= n,
                n < (b + 1) * (b + 1),
        ;
    }
}

/// Floor square root by bisection.
pub fn isqrt_u128(n: u128) -> (r: u64)
    requires
        n < (1u128 << 126),
    ensures
        r as int == spec_isqrt(n as int),
{
    let mut lo: u128 = 0;
    let mut hi: u128 = if n < (1u128 << 63) {
        n
    } else {
        1u128 << 63
    };
    proof {
        assert((1u128 << 63) == 0x8000_0000_0000_0000u128) by (bit_vector);
        assert((1u128 << 126) == 0x4000_0000_0000_0000_0000_0000_0000_0000u128) by (bit_vector);
        if n < (1u128 << 63) {
            assert((n as int) < (n + 1) * (n + 1)) by (nonlinear_arith)
                requires
                    n >= 0,
            ;
        } else {
            assert((n as int) < (0x8000_0000_0000_0000 + 1) * (0x8000_0000_0000_0000 + 1))
                by (nonlinear_arith)
                requires
                    (n as int) < 0x4000_0000_0000_0000_0000_0000_0000_0000,
            ;
        }
    }
    while lo < hi
        invariant
            0 <= lo <= hi <= 0x8000_0000_0000_0000u128,
            (lo * lo) as int <= n as int,
            (n as int) < ((hi + 1) * (hi + 1)) as int,
        decreases hi - lo,
    {
        let mid: u128 = lo + (hi - lo + 1) / 2;
        proof {
            assert(mid * mid <= 0x8000_0000_0000_0000u128 * 0x8000_0000_0000_0000u128)
                by (nonlinear_arith)
                requires
                    0 <= mid <= 0x8000_0000_0000_0000u128,
            ;
        }
        if mid * mid <= n {
            lo = mid;
        } else {
            hi = mid - 1;
        }
    }
    proof {
        lemma_isqrt_unique(n as int, lo as int);
    }
    lo as u64
}

// ---------------------------------------------------------------------------
// Rendering
// ---------------------------------------------------------------------------
/// Renders a `Dec` as text: optional minus, whole part, and the fractional
/// digits with trailing zeros removed. The exact shape is display-only;
/// callers rely only on the string being non-empty.
pub fn dec_to_string(d: &Dec) -> (r: String)
    ensures
        r@.len() > 0,
{
    let mag: u64 = if d.units < 0 {
        (-(d.units as i128)) as u64
    } else {
        d.units as u64
    };
    let whole: u64 = mag / 1_000_000;
    let mut frac: u64 = mag % 1_000_000;
    let mut s = if d.units < 0 {
        let mut t = String::from_str("-");
        proof {
            reveal_strlit("-");
        }
        t.append(crate::text::u64_to_string(whole).as_str());
        t
    } else {
        crate::text::u64_to_string(whole)
    };
    proof {
        crate::text::lemma_spec_digits_len(whole as nat);
    }
    if frac > 0 {
        let mut n_digits: usize = 6;
        while frac % 10 == 0 && n_digits > 1
            invariant
                1 <= n_digits <= 6,
                frac < 1_000_000,
            decreases n_digits,
        {
            frac = frac / 10;
            n_digits -= 1;
        }
        s.append(".");
        let mut k: usize = n_digits;
        while k > 0
            invariant
                k <= n_digits <= 6,
                frac < 1_000_000,
                s@.len() > 0,
            decreases k,
        {
            let p: u64 = pow10_exec(k - 1);
            let digit: u64 = (frac / p) % 10;
            s.append(digit_char_str(digit));
            k -= 1;
        }
    }
    s
}

/// The single-character string for a decimal digit.
pub fn digit_char_str(d: u64) -> (r: &'static str)
    requires
        d < 10,
    ensures
        r@.len() == 1,
{
    let s: &'static str = match d {
        0 => "0",
        1 => "1",
        2 => "2",
        3 => "3",
        4 => "4",
        5 => "5",
        6 => "6",
        7 => "7",
        8 => "8",
        _ => "9",
    };
    proof {
        reveal_strlit("0");
        reveal_strlit("1");
        reveal_strlit("2");
        reveal_strlit("3");
        reveal_strlit("4");
        reveal_strlit("5");
        reveal_strlit("6");
        reveal_strlit("7");
        reveal_strlit("8");
        reveal_strlit("9");
    }
    s
}

} // verus!
