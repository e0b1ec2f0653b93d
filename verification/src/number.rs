//! Numbers written in text as a floating-point reader takes them: an
//! optional sign, then `inf`, `infinity`, `nan`, or digits with at most one
//! decimal point and an optional power-of-ten exponent.

use vstd::prelude::*;
use crate::bytes::{find_byte, find_byte_facts, find_in};

verus! {

/// Whether `b` is an ASCII decimal digit.
pub open spec fn is_digit(b: u8) -> bool {
    48 <= b <= 57
}

/// Whether every byte of `s` is a decimal digit.
pub open spec fn all_digits(s: Seq<u8>) -> bool {
    forall|i: int| 0 <= i < s.len() ==> is_digit(#[trigger] s[i])
}

/// Value of a string of decimal digits.
pub open spec fn digits_value(s: Seq<u8>) -> nat
    decreases s.len(),
{
    if s.len() == 0 {
        0
    } else {
        digits_value(s.drop_last()) * 10 + (s.last() - 48) as nat
    }
}

/// Ten to the power `k`.
pub open spec fn pow10(k: nat) -> nat
    decreases k,
{
    if k == 0 {
        1
    } else {
        10 * pow10((k - 1) as nat)
    }
}

/// Index of the first exponent mark, `e` or `E`, in `s`; `s.len()` when
/// there is none.
pub open spec fn exponent_mark(s: Seq<u8>) -> nat {
    let lower = find_byte(s, 101);
    let upper = find_byte(s, 69);
    if lower < upper {
        lower
    } else {
        upper
    }
}

pub proof fn pow10_facts(j: nat, k: nat)
    ensures
        pow10(k) >= 1,
        j <= k ==> pow10(j) <= pow10(k),
    decreases k,
{
    if k > 0 {
        pow10_facts(j, (k - 1) as nat);
    }
}

pub proof fn digits_value_prefix(s: Seq<u8>, k: int)
    requires
        0 <= k <= s.len(),
    ensures
        digits_value(s.take(k)) <= digits_value(s),
    decreases s.len() - k,
{
    if k < s.len() {
        digits_value_prefix(s.drop_last(), k);
        assert(s.drop_last().take(k) =~= s.take(k));
    } else {
        assert(s.take(k) =~= s);
    }
}

/// Whether `s[from..to]` holds decimal digits only.
fn digits_only(s: &[u8], from: usize, to: usize) -> (r: bool)
    requires
        from <= to <= s@.len(),
    ensures
        r == all_digits(s@.subrange(from as int, to as int)),
{
    let ghost sub = s@.subrange(from as int, to as int);
    let mut i = from;
    while i < to
        invariant
            from <= i <= to <= s@.len(),
            sub == s@.subrange(from as int, to as int),
            forall|j: int| 0 <= j < i - from ==> is_digit(#[trigger] sub[j]),
        decreases to - i,
    {
        if s[i] < 48 || s[i] > 57 {
            assert(sub[i - from] == s@[i as int]);
            return false;
        }
        assert(sub[i - from] == s@[i as int]);
        i = i + 1;
    }
    true
}

/// The value of the digits `s[from..to]`, when it fits in 64 bits.
fn digits_u64(s: &[u8], from: usize, to: usize) -> (r: Option<u64>)
    requires
        from <= to <= s@.len(),
        all_digits(s@.subrange(from as int, to as int)),
    ensures
        r == if digits_value(s@.subrange(from as int, to as int)) <= u64::MAX {
            Some(digits_value(s@.subrange(from as int, to as int)) as u64)
        } else {
            None::<u64>
        },
{
    let ghost sub = s@.subrange(from as int, to as int);
    let mut acc: u64 = 0;
    let mut i = from;
    assert(sub.take(0) =~= Seq::<u8>::empty());
    while i < to
        invariant
            from <= i <= to <= s@.len(),
            sub == s@.subrange(from as int, to as int),
            all_digits(sub),
            acc == digits_value(sub.take(i - from)),
        decreases to - i,
    {
        let k: Ghost<int> = Ghost(i - from);
        assert(sub[k@] == s@[i as int]);
        assert(is_digit(sub[k@]));
        assert(sub.take(k@ + 1).drop_last() =~= sub.take(k@));
        let next: u128 = acc as u128 * 10 + (s[i] - 48) as u128;
        if next > u64::MAX as u128 {
            proof {
                digits_value_prefix(sub, k@ + 1);
            }
            return None;
        }
        acc = next as u64;
        i = i + 1;
    }
    assert(sub.take(to - from) =~= sub);
    Some(acc)
}

/// A number as read from text, the way a floating-point reader takes it:
/// finite with the value `±mantissa · 10^exponent`, infinite, or not a
/// number.
#[derive(Clone, Copy, Debug, PartialEq, Eq, Structural)]
pub enum Number {
    Finite { negative: bool, mantissa: u64, exponent: i32 },
    Infinite { negative: bool },
    NotANumber,
}

/// `s` without its leading `0` digits.
pub open spec fn strip_zeros(s: Seq<u8>) -> Seq<u8>
    decreases s.len(),
{
    if s.len() > 0 && s[0] == 48 {
        strip_zeros(s.drop_first())
    } else {
        s
    }
}

/// The digits and the power of ten of the last digit of a number written
/// as digits with at most one `.` (at least one digit in all), optionally
/// followed by `e` or `E`, an optional sign and at least one digit.
pub open spec fn decimal_parts(s: Seq<u8>) -> Option<(Seq<u8>, int)> {
    let k = exponent_mark(s) as int;
    let m = s.take(k);
    let j = find_byte(m, 46) as int;
    let whole = m.take(j);
    let frac = if j < m.len() {
        m.skip(j + 1)
    } else {
        Seq::<u8>::empty()
    };
    let ex = if k < s.len() {
        s.skip(k + 1)
    } else {
        Seq::<u8>::empty()
    };
    if all_digits(whole) && all_digits(frac) && whole.len() + frac.len() > 0 && (k == s.len()
        || exponent_ok(ex)) {
        Some((whole + frac, exponent_value(ex) - frac.len()))
    } else {
        None
    }
}

/// The number `±digits · 10^exp`, kept to its first 19 significant digits
/// (the rest dropped); zero when its leading digit stands below `10^-400`
/// and infinite when it stands above `10^400`.
pub open spec fn finite_number(negative: bool, digits: Seq<u8>, exp: int) -> Number {
    let sig = strip_zeros(digits);
    let kept: int = if sig.len() > 19 {
        19
    } else {
        sig.len() as int
    };
    let lead = exp + sig.len() - 1;
    if sig.len() == 0 || lead < -400 {
        Number::Finite { negative, mantissa: 0, exponent: 0 }
    } else if lead > 400 {
        Number::Infinite { negative }
    } else {
        Number::Finite {
            negative,
            mantissa: digits_value(sig.take(kept)) as u64,
            exponent: (exp + sig.len() - kept) as i32,
        }
    }
}

/// `b` with an ASCII capital letter turned into its small letter.
pub open spec fn lower_byte(b: u8) -> u8 {
    if 65 <= b <= 90 {
        (b + 32) as u8
    } else {
        b
    }
}

/// Whether `s` spells the lower-case word `w` in any letter case.
pub open spec fn is_word(s: Seq<u8>, w: Seq<u8>) -> bool {
    s.len() == w.len() && forall|i: int| 0 <= i < s.len() ==> lower_byte(#[trigger] s[i]) == w[i]
}

/// `inf`.
pub open spec fn inf_word() -> Seq<u8> {
    seq![105u8, 110, 102]
}

/// `infinity`.
pub open spec fn infinity_word() -> Seq<u8> {
    seq![105u8, 110, 102, 105, 110, 105, 116, 121]
}

/// `nan`.
pub open spec fn nan_word() -> Seq<u8> {
    seq![110u8, 97, 110]
}

/// A number written in text: an optional `+` or `-`, then `inf`,
/// `infinity` or `nan` in any letter case, or a decimal number (see
/// `decimal_parts` and `finite_number`).
pub open spec fn read_number(s: Seq<u8>) -> Option<Number> {
    let signed = s.len() > 0 && (s[0] == 43 || s[0] == 45);
    let negative = signed && s[0] == 45;
    let body = if signed {
        s.drop_first()
    } else {
        s
    };
    if is_word(body, inf_word()) || is_word(body, infinity_word()) {
        Some(Number::Infinite { negative })
    } else if is_word(body, nan_word()) {
        Some(Number::NotANumber)
    } else {
        match decimal_parts(body) {
            Some((d, e)) => Some(finite_number(negative, d, e)),
            None => None,
        }
    }
}

/// Largest value that saturating digit reading tells apart: `2^100`.
pub open spec fn digits_cap() -> nat {
    0x10_0000_0000_0000_0000_0000_0000
}

/// The value of digits `s[from..to]` and `false`, or `(0, true)` when that
/// value exceeds `digits_cap()`.
fn digits_capped(s: &[u8], from: usize, to: usize) -> (r: (u128, bool))
    requires
        from <= to <= s@.len(),
        all_digits(s@.subrange(from as int, to as int)),
    ensures
        r.1 == (digits_value(s@.subrange(from as int, to as int)) > digits_cap()),
        !r.1 ==> r.0 == digits_value(s@.subrange(from as int, to as int)),
{
    let ghost sub = s@.subrange(from as int, to as int);
    let mut acc: u128 = 0;
    let mut i = from;
    assert(sub.take(0) =~= Seq::<u8>::empty());
    while i < to
        invariant
            from <= i <= to <= s@.len(),
            sub == s@.subrange(from as int, to as int),
            all_digits(sub),
            acc == digits_value(sub.take(i - from)),
            acc <= digits_cap(),
        decreases to - i,
    {
        let k: Ghost<int> = Ghost(i - from);
        assert(sub[k@] == s@[i as int]);
        assert(is_digit(sub[k@]));
        assert(sub.take(k@ + 1).drop_last() =~= sub.take(k@));
        let next: u128 = acc * 10 + (s[i] - 48) as u128;
        if next > 0x10_0000_0000_0000_0000_0000_0000 {
            proof {
                digits_value_prefix(sub, k@ + 1);
            }
            return (0, true);
        }
        acc = next;
        i = i + 1;
    }
    assert(sub.take(to - from) =~= sub);
    (acc, false)
}

/// A string of `k` digits has a value below `10^k`.
pub proof fn digits_value_bound(s: Seq<u8>)
    requires
        all_digits(s),
    ensures
        digits_value(s) < pow10(s.len()),
    decreases s.len(),
{
    if s.len() > 0 {
        assert(all_digits(s.drop_last())) by {
            assert forall|i: int| 0 <= i < s.drop_last().len() implies is_digit(
                #[trigger] s.drop_last()[i],
            ) by {
                assert(s.drop_last()[i] == s[i]);
            }
        }
        digits_value_bound(s.drop_last());
        assert(is_digit(s[s.len() - 1]));
        let d = digits_value(s.drop_last());
        let p = pow10((s.len() - 1) as nat);
        assert(d * 10 + (s.last() - 48) < p * 10) by (nonlinear_arith)
            requires
                d < p,
                s.last() - 48 <= 9,
                s.last() >= 48,
        ;
    }
}

proof fn strip_zeros_skip(s: Seq<u8>, z: int)
    requires
        0 <= z <= s.len(),
        forall|i: int| 0 <= i < z ==> #[trigger] s[i] == 48,
        z == s.len() || s[z] != 48,
    ensures
        strip_zeros(s) == s.skip(z),
    decreases z,
{
    if z > 0 {
        assert forall|i: int| 0 <= i < z - 1 implies #[trigger] s.drop_first()[i] == 48 by {
            assert(s.drop_first()[i] == s[i + 1]);
        }
        if z < s.len() {
            assert(s.drop_first()[z - 1] == s[z]);
        }
        strip_zeros_skip(s.drop_first(), z - 1);
        assert(s.drop_first().skip(z - 1) =~= s.skip(z));
    } else {
        assert(s.skip(0) =~= s);
    }
}

/// Whether `s[from..to]` spells the word `w` in any letter case.
fn word_at(s: &[u8], from: usize, to: usize, w: &Vec<u8>) -> (r: bool)
    requires
        from <= to <= s@.len(),
    ensures
        r == is_word(s@.subrange(from as int, to as int), w@),
{
    let ghost sub = s@.subrange(from as int, to as int);
    if to - from != w.len() {
        return false;
    }
    let mut i: usize = 0;
    while i < w.len()
        invariant
            to - from == w@.len(),
            from <= to <= s@.len(),
            sub == s@.subrange(from as int, to as int),
            i <= w@.len(),
            forall|j: int| 0 <= j < i ==> lower_byte(#[trigger] sub[j]) == w@[j],
        decreases w@.len() - i,
    {
        let b = s[from + i];
        let lower = if 65 <= b && b <= 90 {
            b + 32
        } else {
            b
        };
        assert(sub[i as int] == b);
        if lower != w[i] {
            return false;
        }
        i = i + 1;
    }
    true
}

/// Whether `e` stands for the exponent `x`: equal, or both beyond `2^90`
/// on the same side.
pub open spec fn stands_for(e: int, x: int) -> bool {
    e == x || (e > 0x400_0000_0000_0000_0000_0000 && x > 0x400_0000_0000_0000_0000_0000) || (e
        < -0x400_0000_0000_0000_0000_0000 && x < -0x400_0000_0000_0000_0000_0000)
}

/// The value of an exponent: optional sign, then digits.
pub open spec fn exponent_value(ex: Seq<u8>) -> int {
    let ex_digits = if ex.len() > 0 && (ex[0] == 43 || ex[0] == 45) {
        ex.drop_first()
    } else {
        ex
    };
    if ex.len() > 0 && ex[0] == 45 {
        -digits_value(ex_digits)
    } else {
        digits_value(ex_digits) as int
    }
}

/// Whether an exponent is well formed: optional sign, then at least one
/// digit.
pub open spec fn exponent_ok(ex: Seq<u8>) -> bool {
    let ex_digits = if ex.len() > 0 && (ex[0] == 43 || ex[0] == 45) {
        ex.drop_first()
    } else {
        ex
    };
    ex_digits.len() > 0 && all_digits(ex_digits)
}

/// Reads the exponent `s[from..to]`: whether it is negative, and its
/// magnitude, saturated as `digits_capped` does.
fn parse_exponent(s: &[u8], from: usize, to: usize) -> (r: Option<(bool, u128, bool)>)
    requires
        from <= to <= s@.len(),
    ensures
        ({
            let ex = s@.subrange(from as int, to as int);
            &&& r is Some <==> exponent_ok(ex)
            &&& r matches Some((neg, v, big)) ==> {
                &&& big ==> (if neg {
                    exponent_value(ex) < -digits_cap()
                } else {
                    exponent_value(ex) > digits_cap()
                })
                &&& !big ==> exponent_value(ex) == if neg {
                    -(v as int)
                } else {
                    v as int
                }
                &&& !big ==> v <= digits_cap()
            }
        }),
{
    let ghost ex = s@.subrange(from as int, to as int);
    let mut es = from;
    let mut neg = false;
    if es < to && (s[es] == 43 || s[es] == 45) {
        neg = s[es] == 45;
        es = es + 1;
        assert(ex[0] == s@[from as int]);
        assert(ex.drop_first() =~= s@.subrange(es as int, to as int));
    } else {
        if es < to {
            assert(ex[0] == s@[from as int]);
        }
    }
    if es == to || !digits_only(s, es, to) {
        return None;
    }
    let (v, big) = digits_capped(s, es, to);
    Some((neg, v, big))
}

/// The bytes `s[a..b]` followed by `s[c..d]`.
fn concat_ranges(s: &[u8], a: usize, b: usize, c: usize, d: usize) -> (v: Vec<u8>)
    requires
        a <= b <= s@.len(),
        c <= d <= s@.len(),
    ensures
        v@ == s@.subrange(a as int, b as int) + s@.subrange(c as int, d as int),
{
    let mut v: Vec<u8> = Vec::new();
    let mut i = a;
    while i < b
        invariant
            a <= i <= b <= s@.len(),
            v@ =~= s@.subrange(a as int, i as int),
        decreases b - i,
    {
        v.push(s[i]);
        i = i + 1;
    }
    let mut i = c;
    while i < d
        invariant
            c <= i <= d <= s@.len(),
            b <= s@.len(),
            a <= b,
            v@ =~= s@.subrange(a as int, b as int) + s@.subrange(c as int, i as int),
        decreases d - i,
    {
        v.push(s[i]);
        i = i + 1;
    }
    v
}

/// Reads `s[from..to]` as a decimal number (see `decimal_parts`): its
/// digits, and the power of ten of its last digit, saturated beyond `2^90`.
fn parse_parts(s: &[u8], from: usize, to: usize) -> (r: Option<(Vec<u8>, i128)>)
    requires
        from <= to <= s@.len(),
    ensures
        match decimal_parts(s@.subrange(from as int, to as int)) {
            Some((d, x)) => r matches Some((v, e)) && v@ == d && stands_for(e as int, x)
                && -0x4000_0000_0000_0000_0000_0000_0000 <= e <= 0x4000_0000_0000_0000_0000_0000_0000,
            None => r is None,
        },
{
    let ghost body = s@.subrange(from as int, to as int);
    let lower = find_in(s, from, to, 101);
    let upper = find_in(s, from, to, 69);
    let k = if lower < upper {
        lower
    } else {
        upper
    };
    assert(k - from == exponent_mark(body));
    let ghost m = body.take(k - from);
    assert(m =~= s@.subrange(from as int, k as int));
    let dot = find_in(s, from, k, 46);
    let ghost j = find_byte(m, 46) as int;
    proof {
        find_byte_facts(m, 46);
    }
    assert(m.take(j) =~= s@.subrange(from as int, dot as int));
    let frac_from = if dot < k {
        dot + 1
    } else {
        k
    };
    assert(frac_from == k ==> s@.subrange(frac_from as int, k as int) =~= Seq::<u8>::empty());
    assert(dot < k ==> m.skip(j + 1) =~= s@.subrange(frac_from as int, k as int));
    if !digits_only(s, from, dot) || !digits_only(s, frac_from, k) {
        return None;
    }
    if dot - from + (k - frac_from) == 0 {
        return None;
    }
    let mut exp_neg = false;
    let mut big = false;
    let mut expv: u128 = 0;
    let ghost mut ev: int = 0;
    if k < to {
        let ghost ex = body.skip(k - from + 1);
        assert(ex =~= s@.subrange(k + 1, to as int));
        match parse_exponent(s, k + 1, to) {
            Some((n, v, b)) => {
                exp_neg = n;
                expv = v;
                big = b;
                proof {
                    ev = exponent_value(ex);
                }
            },
            None => {
                return None;
            },
        }
    } else {
        assert(body.len() == k - from);
    }
    let ghost whole = s@.subrange(from as int, dot as int);
    let ghost frac = s@.subrange(frac_from as int, k as int);
    assert(decimal_parts(body) == Some((whole + frac, ev - frac.len())));
    let digits = concat_ranges(s, from, dot, frac_from, k);
    let frac_len = k - frac_from;
    let e: i128 = if big {
        if exp_neg {
            -0x20_0000_0000_0000_0000_0000_0000
        } else {
            0x20_0000_0000_0000_0000_0000_0000
        }
    } else if exp_neg {
        -(expv as i128) - frac_len as i128
    } else {
        expv as i128 - frac_len as i128
    };
    Some((digits, e))
}

/// At most 19 digits of a digit string have a value that fits in 64 bits.
proof fn kept_digits_fit(d: Seq<u8>, z: int, kept: int)
    requires
        all_digits(d),
        0 <= z,
        0 <= kept <= 19,
        z + kept <= d.len(),
    ensures
        all_digits(d.subrange(z, z + kept)),
        digits_value(d.subrange(z, z + kept)) <= u64::MAX,
{
    assert forall|i: int| 0 <= i < kept implies is_digit(#[trigger] d.subrange(z, z + kept)[i]) by {
        assert(d.subrange(z, z + kept)[i] == d[z + i]);
    }
    digits_value_bound(d.subrange(z, z + kept));
    pow10_facts(kept as nat, 19);
    reveal_with_fuel(pow10, 20);
    assert(pow10(19) == 10_000_000_000_000_000_000);
}

/// The number `±digits · 10^x` kept as `finite_number` says, where `e`
/// stands for `x`.
fn finite_from(negative: bool, digits: &Vec<u8>, e: i128, Ghost(x): Ghost<int>) -> (r: Number)
    requires
        stands_for(e as int, x),
        -0x4000_0000_0000_0000_0000_0000_0000 <= e <= 0x4000_0000_0000_0000_0000_0000_0000,
        all_digits(digits@),
    ensures
        r == finite_number(negative, digits@, x),
{
    let ghost d = digits@;
    let n = digits.len();
    let mut z: usize = 0;
    while z < n && digits[z] == 48
        invariant
            z <= n == digits@.len(),
            forall|i: int| 0 <= i < z ==> #[trigger] digits@[i] == 48,
        decreases n - z,
    {
        z = z + 1;
    }
    proof {
        strip_zeros_skip(d, z as int);
    }
    let zero = Number::Finite { negative, mantissa: 0, exponent: 0 };
    if z == n {
        return zero;
    }
    let sig_len = n - z;
    let lead: i128 = e + sig_len as i128 - 1;
    if lead < -400 {
        return zero;
    }
    if lead > 400 {
        return Number::Infinite { negative };
    }
    assert(e == x);
    let kept = if sig_len > 19 {
        19
    } else {
        sig_len
    };
    let ghost sig = d.skip(z as int);
    assert(sig.take(kept as int) =~= digits@.subrange(z as int, (z + kept) as int));
    proof {
        kept_digits_fit(d, z as int, kept as int);
    }
    let mantissa = match digits_u64(digits.as_slice(), z, z + kept) {
        Some(v) => v,
        None => {
            return zero;
        },
    };
    let exponent = (e + (sig_len - kept) as i128) as i32;
    Number::Finite { negative, mantissa, exponent }
}

/// Reads `s[lo..hi]` as a number (see `read_number`).
pub fn parse_number(s: &[u8], lo: usize, hi: usize) -> (r: Option<Number>)
    requires
        lo <= hi <= s@.len(),
    ensures
        r == read_number(s@.subrange(lo as int, hi as int)),
{
    let ghost t = s@.subrange(lo as int, hi as int);
    let mut start = lo;
    let mut negative = false;
    if lo < hi && (s[lo] == 43 || s[lo] == 45) {
        negative = s[lo] == 45;
        start = lo + 1;
        assert(t[0] == s@[lo as int]);
        assert(t.drop_first() =~= s@.subrange(start as int, hi as int));
    } else {
        if lo < hi {
            assert(t[0] == s@[lo as int]);
        }
    }
    let inf: Vec<u8> = vec![105, 110, 102];
    let infinity: Vec<u8> = vec![105, 110, 102, 105, 110, 105, 116, 121];
    let nan: Vec<u8> = vec![110, 97, 110];
    assert(inf@ =~= inf_word());
    assert(infinity@ =~= infinity_word());
    assert(nan@ =~= nan_word());
    if word_at(s, start, hi, &inf) || word_at(s, start, hi, &infinity) {
        return Some(Number::Infinite { negative });
    }
    if word_at(s, start, hi, &nan) {
        return Some(Number::NotANumber);
    }
    let ghost parts = decimal_parts(s@.subrange(start as int, hi as int));
    match parse_parts(s, start, hi) {
        Some((digits, e)) => {
            let ghost x: int = match parts {
                Some(p) => p.1,
                None => 0,
            };
            Some(finite_from(negative, &digits, e, Ghost(x)))
        },
        None => None,
    }
}

} // verus!
