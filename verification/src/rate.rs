//! Frame rates as fractions with 64-bit terms, read from the `num/den` text
//! that a stream prober prints, and the timings derived from them.

use vstd::prelude::*;
use crate::bytes::{find_byte, find_in};
use crate::number::{
    digits_value, is_digit, lower_byte, parse_number, pow10, pow10_facts, read_number,
    strip_zeros, Number,
};

verus! {

/// Whether `b` is an ASCII whitespace byte (tab, line feed, vertical tab,
/// form feed, carriage return or space).
pub open spec fn is_space(b: u8) -> bool {
    b == 9 || b == 10 || b == 11 || b == 12 || b == 13 || b == 32
}

/// `s` without its leading whitespace.
pub open spec fn trim_start(s: Seq<u8>) -> Seq<u8>
    decreases s.len(),
{
    if s.len() > 0 && is_space(s[0]) {
        trim_start(s.drop_first())
    } else {
        s
    }
}

/// `s` without its trailing whitespace.
pub open spec fn trim_end(s: Seq<u8>) -> Seq<u8>
    decreases s.len(),
{
    if s.len() > 0 && is_space(s.last()) {
        trim_end(s.drop_last())
    } else {
        s
    }
}

/// The `num/den` pair in a prober's output: after trimming whitespace, the
/// text before the first comma must be two numbers (see `read_number`)
/// separated by a single `/`.
pub open spec fn probe_fraction(out: Seq<u8>) -> Option<(Number, Number)> {
    let t = trim_end(trim_start(out));
    let field = t.take(find_byte(t, 44) as int);
    let k = find_byte(field, 47) as int;
    if k < field.len() {
        match (read_number(field.take(k)), read_number(field.skip(k + 1))) {
            (Some(a), Some(b)) => Some((a, b)),
            _ => None,
        }
    } else {
        None
    }
}

/// The unit a rate is rounded to when its exact terms do not fit in 64
/// bits: `2^-56` frames per second.
pub open spec fn fixed_unit() -> nat {
    0x100_0000_0000_0000
}

/// The rate `(ma · 10^ea) / (mb · 10^eb)` as a fraction, for `k = ea - eb`.
pub open spec fn ratio(ma: nat, mb: nat, k: int) -> (nat, nat) {
    if k >= 0 {
        (ma * pow10(k as nat), mb)
    } else {
        (ma, mb * pow10((-k) as nat))
    }
}

/// The rate `q` held in 64-bit terms: `q` itself when its terms fit;
/// otherwise `q` rounded down to a multiple of `fixed_unit()`, or the
/// slowest rate `1 / u64::MAX` when that rounds to zero.
pub open spec fn held_rate(q: (nat, nat)) -> (nat, nat) {
    if q.0 <= u64::MAX && q.1 <= u64::MAX {
        q
    } else {
        let num = q.0 * fixed_unit() / q.1;
        if num == 0 {
            (1, u64::MAX as nat)
        } else {
            (num, fixed_unit())
        }
    }
}

/// The frame rate kept after probing, as a `(numer, denom)` pair, for the
/// probed rate `a / b`. A denominator `b` that is not a positive number
/// (zero, negative, negative infinity or not a number) leaves the previous
/// rate. A positive infinite `b`, or an `a` that is zero, negative, infinite
/// or not a number, gives 30 frames per second, and so does a rate above
/// 120. Otherwise the probed rate is kept, held as `held_rate` says.
pub open spec fn chosen_rate(prev: (nat, nat), probed: Option<(Number, Number)>) -> (nat, nat) {
    match probed {
        Some((a, b)) => match b {
            Number::Finite { negative: b_neg, mantissa: mb, exponent: eb } => if b_neg || mb == 0 {
                prev
            } else {
                match a {
                    Number::Finite { negative: a_neg, mantissa: ma, exponent: ea } => if a_neg || ma
                        == 0 {
                        (30, 1)
                    } else {
                        let q = ratio(ma as nat, mb as nat, ea - eb);
                        if q.0 > 120 * q.1 {
                            (30, 1)
                        } else {
                            held_rate(q)
                        }
                    },
                    _ => (30, 1),
                }
            },
            Number::Infinite { negative } => if negative {
                prev
            } else {
                (30, 1)
            },
            Number::NotANumber => prev,
        },
        None => prev,
    }
}

/// A rate of at most 120 frames per second, held in 64-bit terms, stays
/// positive and at most 120.
pub proof fn held_rate_in_range(q: (nat, nat))
    requires
        q.0 > 0,
        q.1 > 0,
        q.0 <= 120 * q.1,
    ensures
        ({
            let r = held_rate(q);
            &&& 0 < r.0 <= u64::MAX
            &&& 0 < r.1 <= u64::MAX
            &&& r.0 <= 120 * r.1
        }),
{
    let f = fixed_unit();
    assert(q.0 * f <= 120 * f * q.1) by (nonlinear_arith)
        requires
            q.0 <= 120 * q.1,
    ;
    vstd::arithmetic::div_mod::lemma_div_is_ordered((q.0 * f) as int, (120 * f * q.1) as int, q.1 as int);
    vstd::arithmetic::div_mod::lemma_div_multiples_vanish(120 * f as int, q.1 as int);
    assert(120 * f * q.1 == q.1 * (120 * f)) by (nonlinear_arith);
}

proof fn ratio_positive(ma: nat, mb: nat, k: int)
    requires
        ma > 0,
        mb > 0,
    ensures
        ratio(ma, mb, k).0 > 0,
        ratio(ma, mb, k).1 > 0,
{
    if k >= 0 {
        pow10_facts(0, k as nat);
        assert(ma * pow10(k as nat) > 0) by (nonlinear_arith)
            requires
                ma > 0,
                pow10(k as nat) >= 1,
        ;
    } else {
        pow10_facts(0, (-k) as nat);
        assert(mb * pow10((-k) as nat) > 0) by (nonlinear_arith)
            requires
                mb > 0,
                pow10((-k) as nat) >= 1,
        ;
    }
}

/// `m · 10^j` when it is at most `limit`.
fn times_pow10(m: u128, j: u64, limit: u128) -> (r: Option<u128>)
    requires
        limit <= 0x1000_0000_0000_0000_0000_0000_0000_0000,
    ensures
        r == if m * pow10(j as nat) <= limit {
            Some((m * pow10(j as nat)) as u128)
        } else {
            None::<u128>
        },
{
    let mut x: u128 = m;
    let mut i: u64 = 0;
    assert(pow10(0) == 1);
    assert(m * pow10(0) == m);
    while i < j
        invariant
            i <= j,
            limit <= 0x1000_0000_0000_0000_0000_0000_0000_0000,
            x == m * pow10(i as nat),
        decreases j - i,
    {
        if x > limit {
            proof {
                pow10_facts(i as nat, j as nat);
                assert(m * pow10(i as nat) <= m * pow10(j as nat)) by (nonlinear_arith)
                    requires
                        pow10(i as nat) <= pow10(j as nat),
                ;
            }
            return None;
        }
        proof {
            assert(m * pow10((i + 1) as nat) == x * 10) by (nonlinear_arith)
                requires
                    x == m * pow10(i as nat),
                    pow10((i + 1) as nat) == 10 * pow10(i as nat),
            ;
        }
        x = x * 10;
        i = i + 1;
    }
    if x > limit {
        None
    } else {
        Some(x)
    }
}

/// For a positive rate `(ma · 10^ea) / (mb · 10^eb)` with `k = ea - eb`:
/// `None` when it is above 120, and otherwise the rate held in 64-bit
/// terms (see `held_rate`).
fn probed_rate(ma: u64, mb: u64, k: i64) -> (r: Option<(u64, u64)>)
    requires
        ma > 0,
        mb > 0,
    ensures
        ({
            let q = ratio(ma as nat, mb as nat, k as int);
            &&& r is None <==> q.0 > 120 * q.1
            &&& r matches Some(p) ==> (p.0 as nat, p.1 as nat) == held_rate(q) && 0 < p.0 && 0
                < p.1 && p.0 <= 120 * p.1
        }),
{
    let ghost q = ratio(ma as nat, mb as nat, k as int);
    let bound: u128 = 120 * mb as u128;
    proof {
        ratio_positive(ma as nat, mb as nat, k as int);
    }
    if k >= 0 {
        let j = k as u64;
        let scaled = match times_pow10(ma as u128, j, bound) {
            None => {
                return None;
            },
            Some(p) => p,
        };
        proof {
            held_rate_in_range(q);
        }
        if scaled <= u64::MAX as u128 {
            return Some((scaled as u64, mb));
        }
        assert(scaled * 0x100_0000_0000_0000 <= 120 * 0xffff_ffff_ffff_ffff * 0x100_0000_0000_0000)
            by (nonlinear_arith)
            requires
                scaled <= 120 * mb,
                mb <= 0xffff_ffff_ffff_ffff,
        ;
        let num = scaled * 0x100_0000_0000_0000 / mb as u128;
        if num == 0 {
            Some((1, u64::MAX))
        } else {
            Some((num as u64, 0x100_0000_0000_0000))
        }
    } else {
        let j: u64 = (-(k as i128)) as u64;
        assert(ma - 1 <= 0x1000_0000_0000_0000_0000_0000_0000_0000);
        assert(q.0 == ma && q.1 == mb * pow10(j as nat));
        assert(bound * pow10(j as nat) == 120 * q.1) by (nonlinear_arith)
            requires
                bound == 120 * mb,
                q.1 == mb * pow10(j as nat),
        ;
        match times_pow10(bound, j, (ma - 1) as u128) {
            Some(_) => {
                return None;
            },
            None => {},
        }
        assert(q.0 <= 120 * q.1) by (nonlinear_arith)
            requires
                120 * mb * pow10(j as nat) > ma - 1,
                q.0 == ma,
                q.1 == mb * pow10(j as nat),
        ;
        proof {
            held_rate_in_range(q);
        }
        match times_pow10(mb as u128, j, u64::MAX as u128) {
            Some(d) => {
                return Some((ma, d as u64));
            },
            None => {},
        }
        assert(ma as int * 0x100_0000_0000_0000 <= 0xffff_ffff_ffff_ffff * 0x100_0000_0000_0000)
            by (nonlinear_arith)
            requires
                ma <= 0xffff_ffff_ffff_ffff,
        ;
        let mut x: u128 = ma as u128 * 0x100_0000_0000_0000 / mb as u128;
        let ghost top: int = ma * fixed_unit();
        let mut i: u64 = 0;
        assert(pow10(0) == 1);
        assert(mb * pow10(0) == mb);
        while i < j
            invariant
                i <= j,
                top == ma * fixed_unit(),
                mb > 0,
                x == top / (mb * pow10(i as nat)),
            decreases j - i,
        {
            proof {
                pow10_facts(0, i as nat);
                assert(mb * pow10(i as nat) > 0) by (nonlinear_arith)
                    requires
                        mb > 0,
                        pow10(i as nat) >= 1,
                ;
                vstd::arithmetic::div_mod::lemma_div_denominator(top, mb * pow10(i as nat), 10);
                assert(mb * pow10(i as nat) * 10 == mb * pow10((i + 1) as nat)) by (nonlinear_arith)
                    requires
                        pow10((i + 1) as nat) == 10 * pow10(i as nat),
                ;
            }
            x = x / 10;
            i = i + 1;
        }
        assert(q.0 * fixed_unit() / q.1 == x);
        if x == 0 {
            Some((1, u64::MAX))
        } else {
            Some((x as u64, 0x100_0000_0000_0000))
        }
    }
}

proof fn trim_start_skip(s: Seq<u8>, i: int)
    requires
        0 <= i <= s.len(),
        forall|j: int| 0 <= j < i ==> is_space(#[trigger] s[j]),
    ensures
        trim_start(s) == trim_start(s.skip(i)),
    decreases i,
{
    if i > 0 {
        assert(s.skip(1) =~= s.drop_first());
        trim_start_skip(s.drop_first(), i - 1);
        assert(s.drop_first().skip(i - 1) =~= s.skip(i));
    } else {
        assert(s.skip(0) =~= s);
    }
}

proof fn trim_end_take(s: Seq<u8>, i: int)
    requires
        0 <= i <= s.len(),
        forall|j: int| i <= j < s.len() ==> is_space(#[trigger] s[j]),
    ensures
        trim_end(s) == trim_end(s.take(i)),
    decreases s.len() - i,
{
    if i < s.len() {
        trim_end_take(s.drop_last(), i);
        assert(s.drop_last().take(i) =~= s.take(i));
    } else {
        assert(s.take(i) =~= s);
    }
}

/// Reads the `num/den` pair from a prober's output, as `probe_fraction`
/// describes it.
pub fn parse_probe_fraction(out: &[u8]) -> (r: Option<(Number, Number)>)
    ensures
        r == probe_fraction(out@),
{
    let len = out.len();
    let mut lo: usize = 0;
    while lo < len && (out[lo] == 9 || out[lo] == 10 || out[lo] == 11 || out[lo] == 12
        || out[lo] == 13 || out[lo] == 32)
        invariant
            lo <= len == out@.len(),
            forall|j: int| 0 <= j < lo ==> is_space(#[trigger] out@[j]),
        decreases len - lo,
    {
        lo = lo + 1;
    }
    let mut hi: usize = len;
    while hi > lo && (out[hi - 1] == 9 || out[hi - 1] == 10 || out[hi - 1] == 11 || out[hi
        - 1] == 12 || out[hi - 1] == 13 || out[hi - 1] == 32)
        invariant
            lo <= hi <= len == out@.len(),
            forall|j: int| hi <= j < len ==> is_space(#[trigger] out@[j]),
        decreases hi,
    {
        hi = hi - 1;
    }
    let ghost s = out@;
    let ghost t = s.subrange(lo as int, hi as int);
    proof {
        trim_start_skip(s, lo as int);
        let u = s.skip(lo as int);
        if lo < len {
            assert(u[0] == s[lo as int]);
        }
        assert(trim_start(u) == u);
        assert forall|j: int| hi - lo <= j < u.len() implies is_space(#[trigger] u[j]) by {
            assert(u[j] == s[lo + j]);
        }
        trim_end_take(u, hi - lo);
        assert(u.take(hi - lo) =~= t);
        if hi > lo {
            assert(t.last() == s[hi - 1]);
        }
        assert(trim_end(t) == t);
        assert(trim_end(trim_start(s)) == t);
    }
    let comma = find_in(out, lo, hi, 44);
    let ghost field = t.take(find_byte(t, 44) as int);
    assert(field =~= s.subrange(lo as int, comma as int));
    let slash = find_in(out, lo, comma, 47);
    let ghost k = find_byte(field, 47) as int;
    assert(field.take(k) =~= s.subrange(lo as int, slash as int));
    if slash == comma {
        return None;
    }
    assert(field.skip(k + 1) =~= s.subrange(slash + 1, comma as int));
    let n = parse_number(out, lo, slash);
    let d = parse_number(out, slash + 1, comma);
    match (n, d) {
        (Some(n), Some(d)) => Some((n, d)),
        _ => None,
    }
}

/// A frame rate of `numer / denom` frames per second, kept between 0
/// (excluded) and 120 (included).
pub struct FrameRate {
    num: u64,
    den: u64,
}

impl FrameRate {
    #[verifier::type_invariant]
    spec fn in_range(self) -> bool {
        &&& 0 < self.den
        &&& 0 < self.num
        &&& self.num <= 120 * self.den
    }

    /// Frames counted by the rate.
    pub closed spec fn numer(self) -> nat {
        self.num as nat
    }

    /// Seconds over which `numer` frames are shown.
    pub closed spec fn denom(self) -> nat {
        self.den as nat
    }

    /// The rate as a `(numer, denom)` pair.
    pub open spec fn fraction(self) -> (nat, nat) {
        (self.numer(), self.denom())
    }

    /// Frames skipped by one seek: five seconds' worth, rounded down.
    pub open spec fn seek_frames(self) -> nat {
        5 * self.numer() / self.denom()
    }

    /// Milliseconds each frame stays on screen, rounded down and capped at
    /// `u64::MAX`.
    pub open spec fn frame_ms(self) -> nat {
        let ms = 1000 * self.denom() / self.numer();
        if ms > u64::MAX {
            u64::MAX as nat
        } else {
            ms
        }
    }

    /// Whole seconds taken by `frames` frames, capped at `u32::MAX`.
    pub open spec fn seconds_of(self, frames: nat) -> nat {
        let s = frames * self.denom() / self.numer();
        if s > u32::MAX {
            u32::MAX as nat
        } else {
            s
        }
    }

    /// The rate used to extract frames: at most 30 per second.
    pub open spec fn capped_fraction(self) -> (nat, nat) {
        if self.numer() > 30 * self.denom() {
            (30, 1)
        } else {
            self.fraction()
        }
    }

    /// The rate a player starts with: 30 frames per second.
    pub fn standard() -> (r: FrameRate)
        ensures
            r.fraction() == (30nat, 1nat),
    {
        FrameRate { num: 30, den: 1 }
    }

    /// Frames counted by the rate.
    pub fn numerator(&self) -> (n: u64)
        ensures
            n == self.numer(),
            0 < n,
            0 < self.denom(),
            n <= 120 * self.denom(),
    {
        proof {
            use_type_invariant(self);
        }
        self.num
    }

    /// Seconds over which `numerator` frames are shown.
    pub fn denominator(&self) -> (d: u64)
        ensures
            d == self.denom(),
            0 < d,
            0 < self.numer() <= 120 * d,
    {
        proof {
            use_type_invariant(self);
        }
        self.den
    }

    /// The rate kept after reading a prober's output: see `chosen_rate`.
    pub fn after_probe(&self, out: &[u8]) -> (r: FrameRate)
        ensures
            r.fraction() == chosen_rate(self.fraction(), probe_fraction(out@)),
    {
        proof {
            use_type_invariant(self);
        }
        let keep = FrameRate { num: self.num, den: self.den };
        let thirty = FrameRate { num: 30, den: 1 };
        match parse_probe_fraction(out) {
            Some((a, b)) => match b {
                Number::Finite { negative: b_neg, mantissa: mb, exponent: eb } => {
                    if b_neg || mb == 0 {
                        keep
                    } else {
                        match a {
                            Number::Finite { negative: a_neg, mantissa: ma, exponent: ea } => {
                                if a_neg || ma == 0 {
                                    thirty
                                } else {
                                    match probed_rate(ma, mb, ea as i64 - eb as i64) {
                                        Some((num, den)) => FrameRate { num, den },
                                        None => thirty,
                                    }
                                }
                            },
                            _ => thirty,
                        }
                    }
                },
                Number::Infinite { negative } => {
                    if negative {
                        keep
                    } else {
                        thirty
                    }
                },
                Number::NotANumber => keep,
            },
            None => keep,
        }
    }

    /// Frames skipped by one seek.
    pub fn seek_step(&self) -> (k: usize)
        ensures
            k == self.seek_frames(),
            k <= 600,
    {
        proof {
            use_type_invariant(self);
        }
        let k = (5 * self.num as u128) / self.den as u128;
        assert(k <= 600) by (nonlinear_arith)
            requires
                k == (5 * self.num) / self.den as int,
                self.num <= 120 * self.den,
                self.den > 0,
        ;
        k as usize
    }

    /// Milliseconds each frame stays on screen.
    pub fn frame_duration_ms(&self) -> (ms: u64)
        ensures
            ms == self.frame_ms(),
    {
        proof {
            use_type_invariant(self);
        }
        let ms = (1000 * self.den as u128) / self.num as u128;
        if ms > u64::MAX as u128 {
            u64::MAX
        } else {
            ms as u64
        }
    }

    /// Whole seconds taken by `frames` frames.
    pub fn seconds_for(&self, frames: usize) -> (s: u32)
        ensures
            s == self.seconds_of(frames as nat),
    {
        proof {
            use_type_invariant(self);
        }
        assert(frames as int * self.den as int <= 0xffff_ffff_ffff_ffff * 0xffff_ffff_ffff_ffff)
            by (nonlinear_arith)
            requires
                frames <= 0xffff_ffff_ffff_ffff,
                self.den <= 0xffff_ffff_ffff_ffff,
        ;
        let s = (frames as u128 * self.den as u128) / self.num as u128;
        if s > u32::MAX as u128 {
            u32::MAX
        } else {
            s as u32
        }
    }

    /// The rate used to extract frames, as a `(numer, denom)` pair.
    pub fn capped(&self) -> (r: (u64, u64))
        ensures
            (r.0 as nat, r.1 as nat) == self.capped_fraction(),
    {
        proof {
            use_type_invariant(self);
        }
        if self.num as u128 > 30 * self.den as u128 {
            (30, 1)
        } else {
            (self.num, self.den)
        }
    }
}


/// A frame rate kept after probing is always positive and at most 120
/// frames per second, whatever the prober printed.
pub proof fn chosen_rate_in_range(prev: (nat, nat), probed: Option<(Number, Number)>)
    requires
        prev.1 > 0,
        0 < prev.0 <= 120 * prev.1,
    ensures
        ({
            let r = chosen_rate(prev, probed);
            r.1 > 0 && 0 < r.0 <= 120 * r.1
        }),
{
    if let Some((Number::Finite { negative: false, mantissa: ma, exponent: ea }, Number::Finite {
        negative: false,
        mantissa: mb,
        exponent: eb,
    })) = probed {
        if ma > 0 && mb > 0 {
            let q = ratio(ma as nat, mb as nat, ea - eb);
            ratio_positive(ma as nat, mb as nat, ea - eb);
            if q.0 <= 120 * q.1 {
                held_rate_in_range(q);
            }
        }
    }
}

/// The decimal digits of `n`, as ASCII bytes.
pub open spec fn digits_of(n: nat) -> Seq<u8>
    decreases n,
{
    if n < 10 {
        seq![(48 + n) as u8]
    } else {
        digits_of(n / 10).push((48 + n % 10) as u8)
    }
}

proof fn digits_of_facts(n: nat)
    ensures
        digits_of(n).len() > 0,
        forall|i: int| 0 <= i < digits_of(n).len() ==> is_digit(#[trigger] digits_of(n)[i]),
        digits_value(digits_of(n)) == n,
    decreases n,
{
    if n >= 10 {
        digits_of_facts(n / 10);
        let s = digits_of(n);
        assert(s.drop_last() =~= digits_of(n / 10));
        assert(forall|i: int| 0 <= i < s.len() - 1 ==> s[i] == digits_of(n / 10)[i]);
        vstd::arithmetic::div_mod::lemma_fundamental_div_mod(n as int, 10);
        assert(s.last() == (48 + n % 10) as u8);
        assert(s.last() - 48 == n % 10);
        assert(digits_value(s) == digits_value(digits_of(n / 10)) * 10 + n % 10);
        assert((n / 10) * 10 + n % 10 == n);
    } else {
        let s = digits_of(n);
        assert(s.drop_last() =~= Seq::<u8>::empty());
        assert(digits_value(s) == digits_value(s.drop_last()) * 10 + (s.last() - 48) as nat);
    }
}

proof fn find_byte_absent(s: Seq<u8>, b: u8)
    requires
        forall|i: int| 0 <= i < s.len() ==> s[i] != b,
    ensures
        find_byte(s, b) == s.len(),
    decreases s.len(),
{
    if s.len() > 0 {
        assert forall|i: int| 0 <= i < s.drop_first().len() implies s.drop_first()[i] != b by {
            assert(s.drop_first()[i] == s[i + 1]);
        }
        find_byte_absent(s.drop_first(), b);
    }
}

proof fn find_byte_after_prefix(a: Seq<u8>, c: Seq<u8>, b: u8)
    requires
        forall|i: int| 0 <= i < a.len() ==> a[i] != b,
    ensures
        find_byte(a + seq![b] + c, b) == a.len(),
    decreases a.len(),
{
    let s = a + seq![b] + c;
    if a.len() > 0 {
        assert(s.drop_first() =~= a.drop_first() + seq![b] + c);
        assert forall|i: int| 0 <= i < a.drop_first().len() implies a.drop_first()[i] != b by {
            assert(a.drop_first()[i] == a[i + 1]);
        }
        find_byte_after_prefix(a.drop_first(), c, b);
    }
}

/// A rate printed as `num/den` in decimal, as a prober prints it, with
/// terms of at most 19 digits, is read back exactly, and a rate of at most
/// 120 frames per second read that way is kept as it is.
pub proof fn printed_fraction_read_back(prev: (nat, nat), n: nat, d: nat)
    requires
        n < 10_000_000_000_000_000_000,
        d < 10_000_000_000_000_000_000,
    ensures
        probe_fraction(digits_of(n) + seq![47u8] + digits_of(d)) == Some(
            (
                Number::Finite { negative: false, mantissa: n as u64, exponent: 0 },
                Number::Finite { negative: false, mantissa: d as u64, exponent: 0 },
            ),
        ),
        0 < n <= 120 * d ==> chosen_rate(prev, probe_fraction(digits_of(n) + seq![47u8] + digits_of(d)))
            == (n, d),
{
    let a = digits_of(n);
    let c = digits_of(d);
    let s = a + seq![47u8] + c;
    digits_of_facts(n);
    digits_of_facts(d);
    assert(s[0] == a[0]);
    assert(is_digit(s[0]));
    assert(s.last() == c.last());
    assert(is_digit(s.last()));
    assert(trim_start(s) == s);
    assert(trim_end(s) == s);
    assert forall|i: int| 0 <= i < s.len() implies s[i] != 44 by {
        if i < a.len() {
            assert(s[i] == a[i]);
        } else if i > a.len() {
            assert(s[i] == c[i - a.len() - 1]);
        }
    }
    find_byte_absent(s, 44);
    assert(s.take(s.len() as int) =~= s);
    find_byte_after_prefix(a, c, 47);
    assert(s.take(a.len() as int) =~= a);
    assert(s.skip(a.len() as int + 1) =~= c);
    plain_number_reads(n);
    plain_number_reads(d);
    assert(pow10(0) == 1);
    let q = ratio(n, d, 0);
    assert(n * pow10(0) == n);
    assert(q == (n, d));
    assert(held_rate(q) == q);
}

proof fn digits_of_shape(n: nat, j: nat)
    requires
        j >= 1,
        n < pow10(j),
    ensures
        n > 0 ==> digits_of(n)[0] != 48,
        digits_of(n).len() <= j,
    decreases n,
{
    if n >= 10 {
        if j < 2 {
            assert(pow10(1) == 10) by {
                reveal_with_fuel(pow10, 2);
            }
        }
        assert(j >= 2);
        assert(n / 10 < pow10((j - 1) as nat)) by (nonlinear_arith)
            requires
                n < pow10(j),
                pow10(j) == 10 * pow10((j - 1) as nat),
        ;
        digits_of_shape(n / 10, (j - 1) as nat);
        assert(digits_of(n)[0] == digits_of(n / 10)[0]);
    }
}

/// The decimal digits of a number below `10^19` read as that number.
proof fn plain_number_reads(n: nat)
    requires
        n < 10_000_000_000_000_000_000,
    ensures
        read_number(digits_of(n)) == Some(
            Number::Finite { negative: false, mantissa: n as u64, exponent: 0 },
        ),
{
    let s = digits_of(n);
    digits_of_facts(n);
    reveal_with_fuel(pow10, 20);
    assert(pow10(19) == 10_000_000_000_000_000_000);
    digits_of_shape(n, 19);
    assert(is_digit(s[0]));
    assert(lower_byte(s[0]) == s[0]);
    assert forall|i: int| 0 <= i < s.len() implies s[i] != 46 && s[i] != 101 && s[i] != 69 by {
        assert(is_digit(s[i]));
    }
    find_byte_absent(s, 46);
    find_byte_absent(s, 101);
    find_byte_absent(s, 69);
    assert(s.take(s.len() as int) =~= s);
    assert(s + Seq::<u8>::empty() =~= s);
    assert(digits_value(Seq::<u8>::empty()) == 0);
    if n > 0 {
        assert(strip_zeros(s) == s);
    } else {
        assert(s == seq![48u8]);
        assert(strip_zeros(s.drop_first()) == s.drop_first());
        assert(s.drop_first() =~= Seq::<u8>::empty());
    }
}

/// Frames are extracted at `min(rate, 30)` frames per second: never
/// faster than 30, at the video's own rate when that is at most 30, and at
/// exactly 30 when the video is faster.
pub proof fn extraction_rate_is_capped_at_30(r: FrameRate)
    requires
        r.denom() > 0,
    ensures
        ({
            let c = r.capped_fraction();
            &&& c.1 > 0
            &&& c.0 <= 30 * c.1
            &&& r.numer() <= 30 * r.denom() ==> c.0 * r.denom() == r.numer() * c.1
            &&& r.numer() > 30 * r.denom() ==> c.0 == 30 * c.1
        }),
{
}

/// The timings are the rate's quotients rounded down: a seek skips the
/// whole number of frames shown in five seconds, a frame stays on screen
/// the whole number of milliseconds it takes (or `u64::MAX` when that does
/// not fit), and `frames` frames take the whole number of seconds they
/// last (or `u32::MAX` when that does not fit).
pub proof fn timings_round_down(r: FrameRate, frames: nat)
    requires
        r.numer() > 0,
        r.denom() > 0,
    ensures
        r.seek_frames() * r.denom() <= 5 * r.numer() < (r.seek_frames() + 1) * r.denom(),
        r.frame_ms() <= u64::MAX,
        r.frame_ms() < u64::MAX ==> r.frame_ms() * r.numer() <= 1000 * r.denom() < (r.frame_ms()
            + 1) * r.numer(),
        r.frame_ms() == u64::MAX ==> u64::MAX * r.numer() <= 1000 * r.denom(),
        r.seconds_of(frames) <= u32::MAX,
        r.seconds_of(frames) < u32::MAX ==> r.seconds_of(frames) * r.numer() <= frames * r.denom()
            < (r.seconds_of(frames) + 1) * r.numer(),
        r.seconds_of(frames) == u32::MAX ==> u32::MAX * r.numer() <= frames * r.denom(),
{
    let n = r.numer() as int;
    let d = r.denom() as int;
    vstd::arithmetic::div_mod::lemma_fundamental_div_mod(5 * n, d);
    vstd::arithmetic::div_mod::lemma_fundamental_div_mod(1000 * d, n);
    vstd::arithmetic::div_mod::lemma_fundamental_div_mod(frames * d, n);
    let q1 = 5 * n / d;
    let q2 = 1000 * d / n;
    let q3 = frames * d / n;
    assert(q1 * d <= 5 * n < (q1 + 1) * d) by (nonlinear_arith)
        requires
            5 * n == d * q1 + (5 * n) % d,
            0 <= (5 * n) % d < d,
    ;
    assert(q2 * n <= 1000 * d < (q2 + 1) * n) by (nonlinear_arith)
        requires
            1000 * d == n * q2 + (1000 * d) % n,
            0 <= (1000 * d) % n < n,
    ;
    assert(q3 * n <= frames * d < (q3 + 1) * n) by (nonlinear_arith)
        requires
            frames * d == n * q3 + (frames * d) % n,
            0 <= (frames * d) % n < n,
    ;
    if q2 > u64::MAX {
        assert(u64::MAX * n <= q2 * n) by (nonlinear_arith)
            requires
                q2 > u64::MAX,
                n > 0,
        ;
    }
    if q3 > u32::MAX {
        assert(u32::MAX * n <= q3 * n) by (nonlinear_arith)
            requires
                q3 > u32::MAX,
                n > 0,
        ;
    }
}

} // verus!
