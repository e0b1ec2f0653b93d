//! Dithering: turning the brightness samples of a `w × h` dot area, in
//! row-major order, into lit and dark dots.
//!
//! Without dithering a dot is lit when its sample is brighter than the
//! threshold. Bayer dithering moves the threshold of each dot by an ordered
//! 4 × 4 pattern. Error diffusion visits the dots row by row; each dot's
//! brightness, plus the error it has received and clamped to `0..=255`, is
//! compared with the threshold, and the difference between that brightness
//! and the dot's output (255 when lit, 0 when dark) is spread over later
//! neighbours in fixed shares, each neighbour's received error clamped to
//! `-255..=255`.

use vstd::prelude::*;
use crate::modes::DitherMode;

verus! {

/// `v` clamped to `lo..=hi`.
pub open spec fn clamp(v: int, lo: int, hi: int) -> int {
    if v < lo {
        lo
    } else if v > hi {
        hi
    } else {
        v
    }
}

/// Entry `(x mod 4, y mod 4)` of the 4 × 4 Bayer index matrix.
pub open spec fn bayer_index(x: int, y: int) -> int {
    seq![0int, 8, 2, 10, 12, 4, 14, 6, 3, 11, 1, 9, 15, 7, 13, 5][(y % 4) * 4 + x % 4]
}

/// Whether Bayer dithering lights a dot of brightness `s` at `(x, y)`: its
/// threshold is moved by `16·index + 8 − 128`, between −120 and 120.
pub open spec fn bayer_lit(s: u8, x: int, y: int, threshold: u8) -> bool {
    s + 128 > threshold + 16 * bayer_index(x, y) + 8
}

/// The neighbours an error is spread to, as `(dx, dy, share)`.
pub open spec fn kernel(mode: DitherMode) -> Seq<(int, int, int)> {
    match mode {
        DitherMode::FloydSteinberg => seq![(1int, 0int, 7int), (-1, 1, 3), (0, 1, 5), (1, 1, 1)],
        DitherMode::Atkinson => seq![
            (1int, 0int, 1int),
            (2, 0, 1),
            (-1, 1, 1),
            (0, 1, 1),
            (1, 1, 1),
            (0, 2, 1),
        ],
        _ => Seq::empty(),
    }
}

/// What the shares of `kernel` are counted in.
pub open spec fn divisor(mode: DitherMode) -> int {
    match mode {
        DitherMode::FloydSteinberg => 16,
        DitherMode::Atkinson => 8,
        _ => 1,
    }
}

/// Received errors after dot `i` gives `e · share / div`, rounded down, to
/// the neighbour `tap` points at, when that neighbour lies in the area.
pub open spec fn spread(
    err: Seq<int>,
    w: int,
    h: int,
    i: int,
    e: int,
    tap: (int, int, int),
    div: int,
) -> Seq<int> {
    let x = i % w + tap.0;
    let y = i / w + tap.1;
    if 0 <= x < w && 0 <= y < h {
        let j = y * w + x;
        err.update(j, clamp(err[j] + e * tap.2 / div, -255, 255))
    } else {
        err
    }
}

/// Received errors after dot `i` gives its error `e` to every tap of `taps`.
pub open spec fn spread_taps(
    err: Seq<int>,
    w: int,
    h: int,
    i: int,
    e: int,
    taps: Seq<(int, int, int)>,
    div: int,
) -> Seq<int>
    decreases taps.len(),
{
    if taps.len() == 0 {
        err
    } else {
        spread(spread_taps(err, w, h, i, e, taps.drop_last(), div), w, h, i, e, taps.last(), div)
    }
}

/// Error diffusion over the first `n` dots: which of them are lit, and the
/// error every dot has received so far.
pub open spec fn diffuse(
    s: Seq<u8>,
    w: int,
    h: int,
    threshold: u8,
    mode: DitherMode,
    n: nat,
) -> (Seq<bool>, Seq<int>)
    decreases n,
{
    if n == 0 {
        (Seq::empty(), Seq::new(s.len(), |k: int| 0int))
    } else {
        let prev = diffuse(s, w, h, threshold, mode, (n - 1) as nat);
        let i = n - 1;
        let v = clamp(s[i] + prev.1[i], 0, 255);
        let on = v > threshold;
        let e = v - if on {
            255int
        } else {
            0int
        };
        (prev.0.push(on), spread_taps(prev.1, w, h, i, e, kernel(mode), divisor(mode)))
    }
}

/// The dots of a `w × h` area with samples `s` that `mode` lights, in
/// row-major order.
pub open spec fn dithered(s: Seq<u8>, w: int, h: int, threshold: u8, mode: DitherMode) -> Seq<bool> {
    match mode {
        DitherMode::NoDither => Seq::new(s.len(), |k: int| s[k] > threshold),
        DitherMode::Bayer => Seq::new(s.len(), |k: int| bayer_lit(s[k], k % w, k / w, threshold)),
        _ => diffuse(s, w, h, threshold, mode, s.len()).0,
    }
}

/// The values of a buffer of received errors.
pub open spec fn ints(v: Seq<i32>) -> Seq<int> {
    v.map_values(|x: i32| x as int)
}

/// Whether every received error lies in `-255..=255`.
pub open spec fn errors_bounded(v: Seq<i32>) -> bool {
    forall|k: int| 0 <= k < v.len() ==> -255 <= #[trigger] v[k] <= 255
}

/// `a / d` rounded down.
fn floor_div(a: i32, d: i32) -> (r: i32)
    requires
        -100_000 <= a <= 100_000,
        0 < d <= 16,
    ensures
        r == a as int / d as int,
        a >= 0 ==> r >= 0,
        a < 0 ==> r < 0,
        -100_000 <= r <= 100_000,
{
    if a >= 0 {
        let q = (a as u32) / (d as u32);
        assert(q <= a) by (nonlinear_arith)
            requires
                q == a as int / d as int,
                a >= 0,
                d > 0,
        ;
        q as i32
    } else {
        let m: u32 = (-a) as u32;
        let dd: u32 = d as u32;
        let q: u32 = (m + dd - 1) / dd;
        let rem: u32 = (m + dd - 1) % dd;
        proof {
            let x = (m + dd - 1) as int;
            vstd::arithmetic::div_mod::lemma_fundamental_div_mod(x, dd as int);
            assert(x == q * dd + rem) by (nonlinear_arith)
                requires
                    x == dd * (x / dd as int) + x % dd as int,
                    q as int == x / dd as int,
                    rem as int == x % dd as int,
            ;
            assert(rem < dd);
            assert(a as int == (-(q as int)) * d as int + (dd - 1 - rem)) by (nonlinear_arith)
                requires
                    x == q * dd + rem,
                    x == m + dd - 1,
                    m == -a,
                    dd == d,
            ;
            vstd::arithmetic::div_mod::lemma_fundamental_div_mod_converse(
                a as int,
                d as int,
                -(q as int),
                (dd - 1 - rem) as int,
            );
            assert(q >= 1) by (nonlinear_arith)
                requires
                    x == q * dd + rem,
                    x == m + dd - 1,
                    rem < dd,
                    m >= 1,
            ;
            assert(-(q as int) >= a) by (nonlinear_arith)
                requires
                    a as int == (-(q as int)) * d as int + (dd - 1 - rem),
                    rem < dd,
                    dd == d,
                    d >= 1,
                    q >= 1,
            ;
        }
        -(q as i32)
    }
}

/// Spreads the error `e` of dot `i` to the neighbour `(dx, dy)` with the
/// given share (see `spread`).
fn spread_one(
    err: &mut Vec<i32>,
    w: usize,
    h: usize,
    i: usize,
    e: i32,
    tap: (i64, i64, i32),
    div: i32,
)
    requires
        0 < w <= 100_000,
        0 < h <= 100_000,
        old(err)@.len() == w * h,
        i < w * h,
        -255 <= e <= 255,
        -2 <= tap.0 <= 2,
        0 <= tap.1 <= 2,
        0 < tap.2 <= 16,
        0 < div <= 16,
        w * h <= usize::MAX,
        errors_bounded(old(err)@),
    ensures
        final(err)@.len() == old(err)@.len(),
        errors_bounded(final(err)@),
        ints(final(err)@) == spread(
            ints(old(err)@),
            w as int,
            h as int,
            i as int,
            e as int,
            (tap.0 as int, tap.1 as int, tap.2 as int),
            div as int,
        ),
{
    let ghost before = ints(err@);
    let col = i % w;
    let row = i / w;
    assert(row < h) by (nonlinear_arith)
        requires
            i < w * h,
            row == i as int / w as int,
            w > 0,
    ;
    let x: i64 = col as i64 + tap.0;
    let y: i64 = row as i64 + tap.1;
    if 0 <= x && x < w as i64 && 0 <= y && y < h as i64 {
        let xu = x as usize;
        let yu = y as usize;
        assert(yu * w + xu < w * h) by (nonlinear_arith)
            requires
                yu < h,
                xu < w,
        ;
        assert(yu * w <= w * h) by (nonlinear_arith)
            requires
                yu < h,
        ;
        let j = yu * w + xu;
        assert(e * tap.2 <= 255 * 16 && e * tap.2 >= -255 * 16) by (nonlinear_arith)
            requires
                -255 <= e <= 255,
                0 < tap.2 <= 16,
        ;
        let add = floor_div(e * tap.2, div);
        assert(-255 <= err@[j as int] <= 255);
        let sum: i64 = err[j] as i64 + add as i64;
        let v: i32 = if sum < -255 {
            -255
        } else if sum > 255 {
            255
        } else {
            sum as i32
        };
        err.set(j, v);
        proof {
            assert forall|k: int| 0 <= k < err@.len() implies -255 <= #[trigger] err@[k] <= 255 by {
                if k != j {
                    assert(err@[k] == old(err)@[k]);
                }
            }
            assert(ints(err@) =~= before.update(
                j as int,
                clamp(before[j as int] + e * tap.2 / div as int, -255, 255),
            ));
        }
    }
}

/// The taps of `kernel(mode)`, as machine integers.
fn kernel_taps(mode: DitherMode) -> (r: Vec<(i64, i64, i32)>)
    ensures
        r@.map_values(|t: (i64, i64, i32)| (t.0 as int, t.1 as int, t.2 as int)) == kernel(mode),
        forall|k: int|
            0 <= k < r@.len() ==> -2 <= (#[trigger] r@[k]).0 <= 2 && 0 <= r@[k].1 <= 2 && 0
                < r@[k].2 <= 16,
{
    let r: Vec<(i64, i64, i32)> = match mode {
        DitherMode::FloydSteinberg => vec![(1, 0, 7), (-1, 1, 3), (0, 1, 5), (1, 1, 1)],
        DitherMode::Atkinson => vec![(1, 0, 1), (2, 0, 1), (-1, 1, 1), (0, 1, 1), (1, 1, 1), (0, 2, 1)],
        _ => Vec::new(),
    };
    assert(r@.map_values(|t: (i64, i64, i32)| (t.0 as int, t.1 as int, t.2 as int)) =~= kernel(
        mode,
    ));
    r
}

/// Error diffusion over all dots (see `diffuse`).
fn diffuse_dots(samples: &[u8], w: usize, h: usize, threshold: u8, mode: DitherMode) -> (lit: Vec<
    bool,
>)
    requires
        0 < w <= 100_000,
        0 < h <= 100_000,
        samples@.len() == w * h,
    ensures
        lit@ == diffuse(samples@, w as int, h as int, threshold, mode, samples@.len()).0,
        lit@.len() == samples@.len(),
{
    let n = samples.len();
    let taps = kernel_taps(mode);
    let ghost kern = kernel(mode);
    let div: i32 = match mode {
        DitherMode::FloydSteinberg => 16,
        DitherMode::Atkinson => 8,
        _ => 1,
    };
    let mut err: Vec<i32> = Vec::new();
    let mut k: usize = 0;
    while k < n
        invariant
            k <= n == samples@.len(),
            err@.len() == k,
            forall|m: int| 0 <= m < k ==> err@[m] == 0,
        decreases n - k,
    {
        err.push(0);
        k = k + 1;
    }
    assert(ints(err@) =~= diffuse(samples@, w as int, h as int, threshold, mode, 0).1);
    let mut lit: Vec<bool> = Vec::new();
    let mut i: usize = 0;
    while i < n
        invariant
            0 < w <= 100_000,
            0 < h <= 100_000,
            i <= n == samples@.len() == w * h,
            err@.len() == n,
            errors_bounded(err@),
            div as int == divisor(mode),
            0 < div <= 16,
            kern == kernel(mode),
            taps@.map_values(|t: (i64, i64, i32)| (t.0 as int, t.1 as int, t.2 as int)) == kern,
            forall|k: int|
                0 <= k < taps@.len() ==> -2 <= (#[trigger] taps@[k]).0 <= 2 && 0 <= taps@[k].1
                    <= 2 && 0 < taps@[k].2 <= 16,
            lit@ == diffuse(samples@, w as int, h as int, threshold, mode, i as nat).0,
            lit@.len() == i,
            ints(err@) == diffuse(samples@, w as int, h as int, threshold, mode, i as nat).1,
        decreases n - i,
    {
        let ghost prev = diffuse(samples@, w as int, h as int, threshold, mode, i as nat);
        assert(ints(err@)[i as int] == err@[i as int]);
        let raw: i32 = samples[i] as i32 + err[i];
        let v: i32 = if raw < 0 {
            0
        } else if raw > 255 {
            255
        } else {
            raw
        };
        let on = v > threshold as i32;
        let e: i32 = if on {
            v - 255
        } else {
            v
        };
        lit.push(on);
        let ghost start = ints(err@);
        let mut t: usize = 0;
        assert(kern.take(0) =~= Seq::<(int, int, int)>::empty());
        while t < taps.len()
            invariant
                0 < w <= 100_000,
                0 < h <= 100_000,
                i < n == w * h,
                err@.len() == n,
                errors_bounded(err@),
                -255 <= e <= 255,
                0 < div <= 16,
                t <= taps@.len(),
                taps@.map_values(|t: (i64, i64, i32)| (t.0 as int, t.1 as int, t.2 as int)) == kern,
                forall|k: int|
                    0 <= k < taps@.len() ==> -2 <= (#[trigger] taps@[k]).0 <= 2 && 0 <= taps@[k].1
                        <= 2 && 0 < taps@[k].2 <= 16,
                ints(err@) == spread_taps(
                    start,
                    w as int,
                    h as int,
                    i as int,
                    e as int,
                    kern.take(t as int),
                    div as int,
                ),
            decreases taps@.len() - t,
        {
            let tap = taps[t];
            spread_one(&mut err, w, h, i, e, tap, div);
            proof {
                assert(kern.take(t + 1).drop_last() =~= kern.take(t as int));
                assert(kern.take(t + 1).last() == kern[t as int]);
                assert(kern[t as int] == (tap.0 as int, tap.1 as int, tap.2 as int));
            }
            t = t + 1;
        }
        proof {
            assert(kern.take(taps@.len() as int) =~= kern);
        }
        i = i + 1;
    }
    lit
}

/// The dots that `mode` lights in a `w × h` dot area with brightness
/// `samples` (see `dithered`).
pub fn dither(samples: &[u8], w: usize, h: usize, threshold: u8, mode: DitherMode) -> (lit: Vec<
    bool,
>)
    requires
        0 < w <= 100_000,
        0 < h <= 100_000,
        samples@.len() == w * h,
    ensures
        lit@ == dithered(samples@, w as int, h as int, threshold, mode),
        lit@.len() == samples@.len(),
{
    match mode {
        DitherMode::FloydSteinberg | DitherMode::Atkinson => {
            diffuse_dots(samples, w, h, threshold, mode)
        },
        _ => {
            let n = samples.len();
            let mut lit: Vec<bool> = Vec::new();
            let mut i: usize = 0;
            while i < n
                invariant
                    0 < w,
                    i <= n == samples@.len(),
                    mode == DitherMode::NoDither || mode == DitherMode::Bayer,
                    lit@.len() == i,
                    forall|k: int|
                        0 <= k < i ==> #[trigger] lit@[k] == dithered(
                            samples@,
                            w as int,
                            h as int,
                            threshold,
                            mode,
                        )[k],
                decreases n - i,
            {
                let on = if mode == DitherMode::NoDither {
                    samples[i] > threshold
                } else {
                    let x = i % w;
                    let y = i / w;
                    let m: [u8; 16] = [0, 8, 2, 10, 12, 4, 14, 6, 3, 11, 1, 9, 15, 7, 13, 5];
                    let idx = (y % 4) * 4 + x % 4;
                    let b = m[idx];
                    proof {
                        assert(m@ =~= seq![0u8, 8, 2, 10, 12, 4, 14, 6, 3, 11, 1, 9, 15, 7, 13, 5]);
                        assert(b as int == bayer_index(i as int % w as int, i as int / w as int));
                    }
                    samples[i] as u32 + 128 > threshold as u32 + 16 * b as u32 + 8
                };
                lit.push(on);
                i = i + 1;
            }
            assert(lit@ =~= dithered(samples@, w as int, h as int, threshold, mode));
            lit
        },
    }
}

/// Whether every entry of `err` lies in `-255..=255`.
pub open spec fn within_one_level(err: Seq<int>) -> bool {
    forall|k: int| 0 <= k < err.len() ==> -255 <= #[trigger] err[k] <= 255
}

proof fn spread_taps_bounded(
    err: Seq<int>,
    w: int,
    h: int,
    i: int,
    e: int,
    taps: Seq<(int, int, int)>,
    div: int,
)
    requires
        within_one_level(err),
        w > 0,
        h > 0,
        0 <= i < w * h,
        err.len() == w * h,
    ensures
        within_one_level(spread_taps(err, w, h, i, e, taps, div)),
        spread_taps(err, w, h, i, e, taps, div).len() == err.len(),
    decreases taps.len(),
{
    if taps.len() > 0 {
        spread_taps_bounded(err, w, h, i, e, taps.drop_last(), div);
        let before = spread_taps(err, w, h, i, e, taps.drop_last(), div);
        let x = i % w + taps.last().0;
        let y = i / w + taps.last().1;
        if 0 <= x < w && 0 <= y < h {
            assert(0 <= y * w + x < w * h) by (nonlinear_arith)
                requires
                    0 <= x < w,
                    y < h,
                    0 <= y,
            ;
        }
    }
}

/// Error diffusion keeps the error each dot has received within one
/// brightness range, `-255..=255`, after any number of dots, and lights or
/// darkens exactly one dot per step.
pub proof fn diffusion_error_bounded(
    s: Seq<u8>,
    w: int,
    h: int,
    threshold: u8,
    mode: DitherMode,
    n: nat,
)
    requires
        w > 0,
        h > 0,
        s.len() == w * h,
        n <= s.len(),
    ensures
        within_one_level(diffuse(s, w, h, threshold, mode, n).1),
        diffuse(s, w, h, threshold, mode, n).1.len() == s.len(),
        diffuse(s, w, h, threshold, mode, n).0.len() == n,
    decreases n,
{
    if n > 0 {
        diffusion_error_bounded(s, w, h, threshold, mode, (n - 1) as nat);
        let prev = diffuse(s, w, h, threshold, mode, (n - 1) as nat);
        let i = n - 1;
        let v = clamp(s[i] + prev.1[i], 0, 255);
        let e = v - if v > threshold {
            255int
        } else {
            0int
        };
        spread_taps_bounded(prev.1, w, h, i, e, kernel(mode), divisor(mode));
    }
}

proof fn spread_effect(
    err: Seq<int>,
    w: int,
    h: int,
    i: int,
    e: int,
    tap: (int, int, int),
    div: int,
    j: int,
)
    requires
        w > 0,
        h > 0,
        0 <= i,
        err.len() == w * h,
        0 <= j < w * h,
    ensures
        spread(err, w, h, i, e, tap, div).len() == err.len(),
        spread(err, w, h, i, e, tap, div)[j] == if 0 <= i % w + tap.0 < w && 0 <= i / w + tap.1 < h
            && j == (i / w + tap.1) * w + i % w + tap.0 {
            clamp(err[j] + e * tap.2 / div, -255, 255)
        } else {
            err[j]
        },
{
    let x = i % w + tap.0;
    let y = i / w + tap.1;
    if 0 <= x < w && 0 <= y < h {
        assert(0 <= y * w + x < w * h) by (nonlinear_arith)
            requires
                0 <= x < w,
                0 <= y < h,
        ;
    }
}

/// Floyd-Steinberg diffusion: the dot with index `n` is lit when its
/// brightness plus the error it has received, clamped to `0..=255`, is
/// above the threshold, and its error `e` (that brightness less 255 when
/// lit) goes 7/16 to the dot on its right, 3/16 to the dot below-left, 5/16
/// to the dot below and 1/16 to the dot below-right, each share rounded
/// down and each received error clamped to `-255..=255`; no other dot's
/// received error changes.
pub proof fn floyd_steinberg_shares(s: Seq<u8>, w: int, h: int, threshold: u8, n: nat)
    requires
        w > 0,
        h > 0,
        s.len() == w * h,
        n < s.len(),
    ensures
        ({
            let mode = DitherMode::FloydSteinberg;
            let prev = diffuse(s, w, h, threshold, mode, n);
            let next = diffuse(s, w, h, threshold, mode, n + 1);
            let x = n as int % w;
            let y = n as int / w;
            let v = clamp(s[n as int] + prev.1[n as int], 0, 255);
            let e = v - if v > threshold {
                255int
            } else {
                0int
            };
            &&& next.0 == prev.0.push(v > threshold)
            &&& next.1.len() == s.len()
            &&& forall|j: int|
                0 <= j < s.len() ==> #[trigger] next.1[j] == (if x + 1 < w && j == n + 1 {
                    clamp(prev.1[j] + e * 7 / 16, -255, 255)
                } else if x > 0 && y + 1 < h && j == n + w - 1 {
                    clamp(prev.1[j] + e * 3 / 16, -255, 255)
                } else if y + 1 < h && j == n + w {
                    clamp(prev.1[j] + e * 5 / 16, -255, 255)
                } else if x + 1 < w && y + 1 < h && j == n + w + 1 {
                    clamp(prev.1[j] + e * 1 / 16, -255, 255)
                } else {
                    prev.1[j]
                })
        }),
{
    let mode = DitherMode::FloydSteinberg;
    diffusion_error_bounded(s, w, h, threshold, mode, n);
    let prev = diffuse(s, w, h, threshold, mode, n);
    let i = n as int;
    let x = i % w;
    let y = i / w;
    let v = clamp(s[i] + prev.1[i], 0, 255);
    let e = v - if v > threshold {
        255int
    } else {
        0int
    };
    let k = kernel(mode);
    let e0 = prev.1;
    let e1 = spread(e0, w, h, i, e, (1, 0, 7), 16);
    let e2 = spread(e1, w, h, i, e, (-1, 1, 3), 16);
    let e3 = spread(e2, w, h, i, e, (0, 1, 5), 16);
    let e4 = spread(e3, w, h, i, e, (1, 1, 1), 16);
    assert(k.drop_last() =~= seq![(1int, 0int, 7int), (-1, 1, 3), (0, 1, 5)]);
    assert(k.drop_last().drop_last() =~= seq![(1int, 0int, 7int), (-1, 1, 3)]);
    assert(k.drop_last().drop_last().drop_last() =~= seq![(1int, 0int, 7int)]);
    assert(k.drop_last().drop_last().drop_last().drop_last() =~= Seq::<(int, int, int)>::empty());
    reveal_with_fuel(spread_taps, 5);
    assert(diffuse(s, w, h, threshold, mode, n + 1).1 == e4);
    vstd::arithmetic::div_mod::lemma_fundamental_div_mod(i, w);
    assert(0 <= x < w);
    assert(0 <= y) by (nonlinear_arith)
        requires
            0 <= i,
            w > 0,
            y == i / w,
    ;
    assert(w * y + x == i);
    assert((y + 1) * w == y * w + w && y * w == w * y) by (nonlinear_arith);
    assert(y < h) by (nonlinear_arith)
        requires
            w * y + x == i,
            0 <= x,
            i < w * h,
            w > 0,
    ;
    assert forall|j: int| 0 <= j < s.len() implies #[trigger] e4[j] == if x + 1 < w && j == n + 1 {
        clamp(prev.1[j] + e * 7 / 16, -255, 255)
    } else if x > 0 && y + 1 < h && j == n + w - 1 {
        clamp(prev.1[j] + e * 3 / 16, -255, 255)
    } else if y + 1 < h && j == n + w {
        clamp(prev.1[j] + e * 5 / 16, -255, 255)
    } else if x + 1 < w && y + 1 < h && j == n + w + 1 {
        clamp(prev.1[j] + e * 1 / 16, -255, 255)
    } else {
        prev.1[j]
    } by {
        spread_effect(e0, w, h, i, e, (1, 0, 7), 16, j);
        spread_effect(e1, w, h, i, e, (-1, 1, 3), 16, j);
        spread_effect(e2, w, h, i, e, (0, 1, 5), 16, j);
        spread_effect(e3, w, h, i, e, (1, 1, 1), 16, j);
    }
    spread_effect(e0, w, h, i, e, (1, 0, 7), 16, 0);
    spread_effect(e1, w, h, i, e, (-1, 1, 3), 16, 0);
    spread_effect(e2, w, h, i, e, (0, 1, 5), 16, 0);
    spread_effect(e3, w, h, i, e, (1, 1, 1), 16, 0);
}

/// Atkinson diffusion: the dot with index `n` is lit as in Floyd-Steinberg
/// diffusion, and 1/8 of its error `e`, rounded down, goes to each of the
/// two dots on its right, the dots below-left, below and below-right, and
/// the dot two rows below, each received error clamped to `-255..=255`; no
/// other dot's received error changes.
pub proof fn atkinson_shares(s: Seq<u8>, w: int, h: int, threshold: u8, n: nat)
    requires
        w > 0,
        h > 0,
        s.len() == w * h,
        n < s.len(),
    ensures
        ({
            let mode = DitherMode::Atkinson;
            let prev = diffuse(s, w, h, threshold, mode, n);
            let next = diffuse(s, w, h, threshold, mode, n + 1);
            let x = n as int % w;
            let y = n as int / w;
            let v = clamp(s[n as int] + prev.1[n as int], 0, 255);
            let e = v - if v > threshold {
                255int
            } else {
                0int
            };
            &&& next.0 == prev.0.push(v > threshold)
            &&& next.1.len() == s.len()
            &&& forall|j: int|
                0 <= j < s.len() ==> #[trigger] next.1[j] == (if (x + 1 < w && j == n + 1) || (x
                    + 2 < w && j == n + 2) || (x > 0 && y + 1 < h && j == n + w - 1) || (y + 1 < h
                    && j == n + w) || (x + 1 < w && y + 1 < h && j == n + w + 1) || (y + 2 < h && j
                    == n + 2 * w) {
                    clamp(prev.1[j] + e / 8, -255, 255)
                } else {
                    prev.1[j]
                })
        }),
{
    let mode = DitherMode::Atkinson;
    diffusion_error_bounded(s, w, h, threshold, mode, n);
    let prev = diffuse(s, w, h, threshold, mode, n);
    let i = n as int;
    let x = i % w;
    let y = i / w;
    let v = clamp(s[i] + prev.1[i], 0, 255);
    let e = v - if v > threshold {
        255int
    } else {
        0int
    };
    let k = kernel(mode);
    let e0 = prev.1;
    let e1 = spread(e0, w, h, i, e, (1, 0, 1), 8);
    let e2 = spread(e1, w, h, i, e, (2, 0, 1), 8);
    let e3 = spread(e2, w, h, i, e, (-1, 1, 1), 8);
    let e4 = spread(e3, w, h, i, e, (0, 1, 1), 8);
    let e5 = spread(e4, w, h, i, e, (1, 1, 1), 8);
    let e6 = spread(e5, w, h, i, e, (0, 2, 1), 8);
    assert(k.drop_last() =~= seq![(1int, 0int, 1int), (2, 0, 1), (-1, 1, 1), (0, 1, 1), (1, 1, 1)]);
    assert(k.drop_last().drop_last() =~= seq![(1int, 0int, 1int), (2, 0, 1), (-1, 1, 1), (0, 1, 1)]);
    assert(k.drop_last().drop_last().drop_last() =~= seq![(1int, 0int, 1int), (2, 0, 1), (-1, 1, 1)]);
    assert(k.drop_last().drop_last().drop_last().drop_last() =~= seq![(1int, 0int, 1int), (2, 0, 1)]);
    assert(k.drop_last().drop_last().drop_last().drop_last().drop_last() =~= seq![(1int, 0int, 1int)]);
    assert(k.drop_last().drop_last().drop_last().drop_last().drop_last().drop_last()
        =~= Seq::<(int, int, int)>::empty());
    reveal_with_fuel(spread_taps, 7);
    assert(diffuse(s, w, h, threshold, mode, n + 1).1 == e6);
    vstd::arithmetic::div_mod::lemma_fundamental_div_mod(i, w);
    assert(0 <= x < w);
    assert(0 <= y) by (nonlinear_arith)
        requires
            0 <= i,
            w > 0,
            y == i / w,
    ;
    assert(w * y + x == i);
    assert((y + 1) * w == y * w + w && (y + 2) * w == y * w + 2 * w && y * w == w * y)
        by (nonlinear_arith);
    assert(y < h) by (nonlinear_arith)
        requires
            w * y + x == i,
            0 <= x,
            i < w * h,
            w > 0,
    ;
    assert forall|j: int| 0 <= j < s.len() implies #[trigger] e6[j] == (if (x + 1 < w && j == n
        + 1) || (x + 2 < w && j == n + 2) || (x > 0 && y + 1 < h && j == n + w - 1) || (y + 1 < h
        && j == n + w) || (x + 1 < w && y + 1 < h && j == n + w + 1) || (y + 2 < h && j == n + 2
        * w) {
        clamp(prev.1[j] + e / 8, -255, 255)
    } else {
        prev.1[j]
    }) by {
        spread_effect(e0, w, h, i, e, (1, 0, 1), 8, j);
        spread_effect(e1, w, h, i, e, (2, 0, 1), 8, j);
        spread_effect(e2, w, h, i, e, (-1, 1, 1), 8, j);
        spread_effect(e3, w, h, i, e, (0, 1, 1), 8, j);
        spread_effect(e4, w, h, i, e, (1, 1, 1), 8, j);
        spread_effect(e5, w, h, i, e, (0, 2, 1), 8, j);
        assert(e * 1 == e);
    }
    spread_effect(e0, w, h, i, e, (1, 0, 1), 8, 0);
    spread_effect(e1, w, h, i, e, (2, 0, 1), 8, 0);
    spread_effect(e2, w, h, i, e, (-1, 1, 1), 8, 0);
    spread_effect(e3, w, h, i, e, (0, 1, 1), 8, 0);
    spread_effect(e4, w, h, i, e, (1, 1, 1), 8, 0);
    spread_effect(e5, w, h, i, e, (0, 2, 1), 8, 0);
}

/// The Bayer pattern is the recursive 4 × 4 Bayer matrix: the entry at
/// `(x, y)` is four times the 2 × 2 entry at `(x mod 2, y mod 2)` plus the
/// 2 × 2 entry at `(x / 2 mod 2, y / 2 mod 2)`, where the 2 × 2 matrix is
/// `0 2 / 3 1`.
pub proof fn bayer_matrix_is_recursive(x: int, y: int)
    requires
        0 <= x,
        0 <= y,
    ensures
        ({
            let m2 = |a: int, b: int| if b == 0 {
                if a == 0 {
                    0int
                } else {
                    2int
                }
            } else {
                if a == 0 {
                    3int
                } else {
                    1int
                }
            };
            bayer_index(x, y) == 4 * m2(x % 2, y % 2) + m2((x / 2) % 2, (y / 2) % 2)
        }),
{
    let xm = x % 4;
    let ym = y % 4;
    assert(x % 2 == xm % 2 && (x / 2) % 2 == xm / 2 && y % 2 == ym % 2 && (y / 2) % 2 == ym / 2)
        by (nonlinear_arith)
        requires
            xm == x % 4,
            ym == y % 4,
            0 <= x,
            0 <= y,
    {
        vstd::arithmetic::div_mod::lemma_fundamental_div_mod(x, 4);
        vstd::arithmetic::div_mod::lemma_fundamental_div_mod(y, 4);
    }
    assert(bayer_index(0, 0) == 0 && bayer_index(1, 0) == 8 && bayer_index(2, 0) == 2
        && bayer_index(3, 0) == 10 && bayer_index(0, 1) == 12 && bayer_index(1, 1) == 4
        && bayer_index(2, 1) == 14 && bayer_index(3, 1) == 6 && bayer_index(0, 2) == 3
        && bayer_index(1, 2) == 11 && bayer_index(2, 2) == 1 && bayer_index(3, 2) == 9
        && bayer_index(0, 3) == 15 && bayer_index(1, 3) == 7 && bayer_index(2, 3) == 13
        && bayer_index(3, 3) == 5);
}

/// Without dithering a dot is lit exactly when its brightness is above
/// the threshold; Bayer dithering lights it exactly when its brightness is
/// above the threshold moved by `16 · index - 120`, the index being the
/// Bayer entry at the dot's column and row.
pub proof fn threshold_and_bayer_rules(s: Seq<u8>, w: int, h: int, threshold: u8, k: int)
    requires
        w > 0,
        0 <= k < s.len(),
    ensures
        dithered(s, w, h, threshold, DitherMode::NoDither).len() == s.len(),
        dithered(s, w, h, threshold, DitherMode::NoDither)[k] == (s[k] > threshold),
        dithered(s, w, h, threshold, DitherMode::Bayer).len() == s.len(),
        dithered(s, w, h, threshold, DitherMode::Bayer)[k] == (s[k] as int > threshold as int + 16
            * bayer_index(k % w, k / w) - 120),
{
}

} // verus!
