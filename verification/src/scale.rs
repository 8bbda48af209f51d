//! The size at which a picture covers a screen. It is computed with 53 significant
//! bits, every result rounded to the nearest and to even between two, as in double
//! precision, but in whole numbers.
use vstd::arithmetic::power2::{
    lemma2_to64, lemma_pow2_pos, lemma_pow2_strictly_increases, lemma_pow2_unfold, pow2,
};
use vstd::prelude::*;

verus! {

/// 2 to the power of 52: no number of 53 significant bits has fewer units than that.
pub const BITS_52: u128 = 0x10_0000_0000_0000;

/// 2 to the power of 53.
pub const BITS_53: u128 = 0x20_0000_0000_0000;

/// `n / d`, rounded to the nearest whole number, and to the even one between two.
pub open spec fn round_even(n: int, d: int) -> int {
    let (q, r) = (n / d, n % d);
    if 2 * r > d || (2 * r == d && q % 2 == 1) {
        q + 1
    } else {
        q
    }
}

/// `n / d` with 53 significant bits, as a numerator and a denominator, the latter
/// `den` or that doubled until the former has so many bits.
pub open spec fn quotient(n: int, d: int, den: int) -> (int, int)
    decreases BITS_53 * d - n,
{
    if n <= 0 || d <= 0 {
        (0, den)
    } else if n >= BITS_52 * d {
        (round_even(n, d), den)
    } else {
        quotient(2 * n, d, 2 * den)
    }
}

/// `p` with 53 significant bits, as a multiple of `unit` or of that doubled until they
/// are enough.
pub open spec fn significant(p: int, unit: int) -> int
    decreases 2 * p - BITS_53 * unit,
{
    if unit <= 0 || p < BITS_53 * unit {
        round_even(p, unit) * unit
    } else {
        significant(p, 2 * unit)
    }
}

/// A side of `i` pixels, scaled by `n / d` and rounded up; the largest number where
/// it is larger still.
pub open spec fn scaled_side(i: u32, n: u32, d: u32) -> u32 {
    let (m, den) = quotient(n as int, d as int, 1);
    let side = (significant(i * m, 1) + den - 1) / den;
    if side > u32::MAX {
        u32::MAX
    } else {
        side as u32
    }
}

/// Computes `round_even`.
fn divide_even(n: u128, d: u128) -> (out: u128)
    requires
        d > 0,
        n < BITS_53 * d,
        2 * d <= u128::MAX,
    ensures
        out == round_even(n as int, d as int),
        out <= BITS_53,
{
    let q = n / d;
    let r = n % d;
    assert(q < BITS_53) by (nonlinear_arith)
        requires
            q == n / d,
            0 <= n < BITS_53 * d,
            d > 0,
    ;
    if 2 * r > d || (2 * r == d && q % 2 == 1) {
        q + 1
    } else {
        q
    }
}

/// Computes `quotient`, and says how large it is.
fn divide(n: u32, d: u32) -> (out: (u128, u128))
    requires
        d > 0,
    ensures
        (out.0 as int, out.1 as int) == quotient(n as int, d as int, 1),
        out.0 <= BITS_53,
        0 < out.1 < 0x20_0000_0000_0000_0000_0000,
{
    if n == 0 {
        return (0, 1);
    }
    let dd: u128 = d as u128;
    let mut nn: u128 = n as u128;
    let mut den: u128 = 1;
    assert(nn < BITS_53 * dd) by (nonlinear_arith)
        requires
            nn <= 0xffff_ffff,
            dd >= 1,
    ;
    assert(n * 1 == n);
    while nn < BITS_52 * dd
        invariant
            0 < dd <= 0xffff_ffff,
            0 < n,
            nn == n * den,
            0 < nn < BITS_53 * dd,
            0 < den <= nn,
            quotient(nn as int, dd as int, den as int) == quotient(n as int, dd as int, 1),
        decreases BITS_53 * dd - nn,
    {
        assert(2 * (n * den) == n * (2 * den)) by (nonlinear_arith);
        assert(2 * den <= 2 * nn);
        nn = 2 * nn;
        den = 2 * den;
    }
    (divide_even(nn, dd), den)
}

/// Computes `significant`.
fn keep_significant(p: u128) -> (out: u128)
    requires
        p <= 0x20_0000_0000_0000_0000_0000,
    ensures
        out == significant(p as int, 1),
        out <= 0x80_0000_0000_0000_0000_0000,
{
    let mut unit: u128 = 1;
    while p >= BITS_53 * unit
        invariant
            p <= 0x20_0000_0000_0000_0000_0000,
            0 < unit <= 0x2_0000_0000,
            significant(p as int, unit as int) == significant(p as int, 1),
        decreases 2 * p - BITS_53 * unit,
    {
        unit = 2 * unit;
    }
    let q = divide_even(p, unit);
    assert(q * unit <= 0x20_0000_0000_0000 * 0x2_0000_0000) by (nonlinear_arith)
        requires
            0 <= q <= 0x20_0000_0000_0000,
            0 <= unit <= 0x2_0000_0000,
    ;
    q * unit
}

/// Scales a side of `i` pixels by `n / d` and rounds it up.
pub fn scale_side(i: u32, n: u32, d: u32) -> (side: u32)
    requires
        d > 0,
    ensures
        side == scaled_side(i, n, d),
{
    let (m, den) = divide(n, d);
    assert(i * m <= 0xffff_ffff * 0x20_0000_0000_0000) by (nonlinear_arith)
        requires
            0 <= i <= 0xffff_ffff,
            0 <= m <= 0x20_0000_0000_0000,
    ;
    let r = keep_significant(i as u128 * m);
    let side = (r + den - 1) / den;
    if side > u32::MAX as u128 {
        u32::MAX
    } else {
        side as u32
    }
}

/// The side that a picture would have to be blown up to beyond all bounds: none of
/// nothing, and the largest number otherwise.
pub open spec fn unbounded(i: u32) -> u32 {
    if i == 0 {
        0
    } else {
        u32::MAX
    }
}

/// By how much a picture of `iw` by `ih` must be scaled at the least to be as wide and
/// as high as the screen, as a numerator and a denominator: the larger of the two
/// ratios of the sides, one without a value left out.
pub open spec fn cover_ratio(iw: u32, ih: u32, w: u32, h: u32) -> (u32, u32) {
    if iw == 0 && ih == 0 {
        (0, 1)
    } else if iw == 0 {
        (h, ih)
    } else if ih == 0 || w * ih >= h * iw {
        (w, iw)
    } else {
        (h, ih)
    }
}

/// The size at which a picture of `iw` by `ih` covers a screen of `w` by `h`: both
/// sides scaled alike, and by no more than that takes.
pub open spec fn cover_size(iw: u32, ih: u32, w: u32, h: u32) -> (u32, u32) {
    if (iw == 0 && w > 0) || (ih == 0 && h > 0) {
        (unbounded(iw), unbounded(ih))
    } else {
        let (n, d) = cover_ratio(iw, ih, w, h);
        (scaled_side(iw, n, d), scaled_side(ih, n, d))
    }
}

/// Computes `unbounded`.
fn without_bound(i: u32) -> (side: u32)
    ensures
        side == unbounded(i),
{
    if i == 0 {
        0
    } else {
        u32::MAX
    }
}

/// Computes the size at which a picture covers a screen.
pub fn cover_sides(iw: u32, ih: u32, w: u32, h: u32) -> (sides: (u32, u32))
    ensures
        sides == cover_size(iw, ih, w, h),
{
    if (iw == 0 && w > 0) || (ih == 0 && h > 0) {
        return (without_bound(iw), without_bound(ih));
    }
    assert(w * ih <= u64::MAX && h * iw <= u64::MAX) by (nonlinear_arith)
        requires
            0 <= w <= 0xffff_ffff,
            0 <= h <= 0xffff_ffff,
            0 <= iw <= 0xffff_ffff,
            0 <= ih <= 0xffff_ffff,
    ;
    let (n, d) = if iw == 0 && ih == 0 {
        (0, 1)
    } else if iw == 0 {
        (h, ih)
    } else if ih == 0 || w as u64 * ih as u64 >= h as u64 * iw as u64 {
        (w, iw)
    } else {
        (h, ih)
    };
    (scale_side(iw, n, d), scale_side(ih, n, d))
}

/// A rounded quotient is off by half a unit at most.
proof fn round_even_is_near(n: int, d: int)
    requires
        d > 0,
        n >= 0,
    ensures
        n - d <= 2 * (round_even(n, d) * d) - n <= n + d,
        round_even(n, 1) == n,
{
    let (q, r) = (n / d, n % d);
    assert(n == q * d + r && 0 <= r < d) by (nonlinear_arith)
        requires
            d > 0,
            q == n / d,
            r == n % d,
    ;
    assert((q + 1) * d == q * d + d) by (nonlinear_arith);
}

/// A quotient has 53 significant bits, and is off by half a unit at most.
proof fn quotient_is_near(n: int, d: int, den: int, n0: int)
    requires
        0 < n0,
        0 < d,
        0 < den,
        n == n0 * den,
        n < BITS_53 * d,
    ensures
        ({
            let (m, out) = quotient(n, d, den);
            &&& out > 0
            &&& n0 * out - d <= 2 * (m * d) - n0 * out <= n0 * out + d
            &&& BITS_52 * d <= n0 * out
            &&& 0 <= m <= BITS_53
        }),
    decreases BITS_53 * d - n,
{
    assert(n > 0) by (nonlinear_arith)
        requires
            n == n0 * den,
            n0 > 0,
            den > 0,
    ;
    if n >= BITS_52 * d {
        round_even_is_near(n, d);
        let q = n / d;
        assert(0 <= q < 0x20_0000_0000_0000) by (nonlinear_arith)
            requires
                q == n / d,
                0 <= n < 0x20_0000_0000_0000 * d,
                d > 0,
        ;
    } else {
        assert(2 * n == n0 * (2 * den)) by (nonlinear_arith)
            requires
                n == n0 * den,
        ;
        quotient_is_near(2 * n, d, 2 * den, n0);
    }
}

/// Keeping 53 significant bits changes a number by one part in so many at most.
proof fn significant_is_near(p: int, unit: int)
    requires
        p >= 0,
        unit == 1 || (unit > 1 && BITS_52 * unit <= p),
    ensures
        BITS_53 * (significant(p, unit) - p) <= p,
        BITS_53 * (p - significant(p, unit)) <= p,
    decreases 2 * p - BITS_53 * unit,
{
    if p < BITS_53 * unit {
        round_even_is_near(p, unit);
    } else {
        significant_is_near(p, 2 * unit);
    }
}

/// A side is scaled and rounded up, where less than one part of 524288 of a pixel may
/// count for nothing or for a whole one: the result is not below the exact product less
/// that part, and it is less than one above the product with that part.
pub proof fn sides_are_rounded_up(i: u32, n: u32, d: u32)
    requires
        d > 0,
        i * n <= u32::MAX * d,
    ensures
        524288 * (i * n) - d <= 524288 * (scaled_side(i, n, d) * d),
        524288 * ((scaled_side(i, n, d) - 1) * d) < 524288 * (i * n) + d,
{
    let (m, den) = quotient(n as int, d as int, 1);
    let p = i * m;
    let r = significant(p, 1);
    let side = (r + den - 1) / den;
    let out = scaled_side(i, n, d) as int;
    if n == 0 {
        assert(m == 0 && den == 1);
        assert(p == 0) by (nonlinear_arith)
            requires
                p == i * m,
                m == 0,
        ;
        significant_is_near(p, 1);
        assert(i * n == 0) by (nonlinear_arith)
            requires
                n == 0,
        ;
        assert(out * d == 0 && (out - 1) * d == -d) by (nonlinear_arith)
            requires
                out == 0,
        ;
    } else {
        assert(n < 0x20_0000_0000_0000 * d) by (nonlinear_arith)
            requires
                n <= 0xffff_ffff,
                d >= 1,
        ;
        assert(n == n * 1);
        quotient_is_near(n as int, d as int, 1, n as int);
        let (k, dd, e) = (i as int, d as int, n * den);
        assert(0 <= p <= 0x20_0000_0000_0000 * k) by (nonlinear_arith)
            requires
                p == k * m,
                0 <= m <= 0x20_0000_0000_0000,
                0 <= k,
        ;
        significant_is_near(p, 1);
        // The rounding of the product moves it by less than `i`.
        assert(p - k <= r <= p + k);
        // The denominator is far larger than `i`.
        assert(0x10_0000 * k <= den) by (nonlinear_arith)
            requires
                k * n <= 0xffff_ffff * dd,
                0x10_0000_0000_0000 * dd <= n * den,
                n > 0,
                dd > 0,
                k >= 0,
        ;
        // Rounding up adds less than one.
        assert(r <= side * den && (side - 1) * den < r) by (nonlinear_arith)
            requires
                side == (r + den - 1) / den,
                den > 0,
        ;
        let (low, high) = (p * dd - k * dd, p * dd + k * dd);
        assert(low <= side * den * dd && (side - 1) * den * dd < high) by (nonlinear_arith)
            requires
                p - k <= r <= p + k,
                r <= side * den,
                (side - 1) * den < r,
                dd > 0,
                low == p * dd - k * dd,
                high == p * dd + k * dd,
        ;
        assert(2 * (k * e) - k * dd <= 2 * (p * dd) <= 2 * (k * e) + k * dd) by (nonlinear_arith)
            requires
                p == k * m,
                k >= 0,
                e - dd <= 2 * (m * dd) - e <= e + dd,
        ;
        assert(k * e == (k * n) * den) by (nonlinear_arith)
            requires
                e == n * den,
        ;
        assert(0x10_0000 * (k * dd) <= den * dd) by (nonlinear_arith)
            requires
                0x10_0000 * k <= den,
                dd > 0,
        ;
        assert(0 <= k * dd) by (nonlinear_arith)
            requires
                k >= 0,
                dd > 0,
        ;
        let (whole, part) = ((k * n) * den, den * dd);
        assert(524288 * whole - part <= 524288 * (side * den * dd));
        assert(524288 * ((side - 1) * den * dd) < 524288 * whole + part);
        assert(524288 * (k * n) - dd <= 524288 * (side * dd)) by (nonlinear_arith)
            requires
                524288 * ((k * n) * den) - den * dd <= 524288 * (side * den * dd),
                den > 0,
        ;
        assert(524288 * ((side - 1) * dd) < 524288 * (k * n) + dd) by (nonlinear_arith)
            requires
                524288 * ((side - 1) * den * dd) < 524288 * ((k * n) * den) + den * dd,
                den > 0,
        ;
        assert(side >= 0) by (nonlinear_arith)
            requires
                524288 * (k * n) - dd <= 524288 * (side * dd),
                0 <= k * n,
                dd > 0,
        ;
        if side > u32::MAX {
            assert(524288 * (0xffff_fffe * dd) < 524288 * (k * n) + dd) by (nonlinear_arith)
                requires
                    524288 * ((side - 1) * dd) < 524288 * (k * n) + dd,
                    side >= 0xffff_ffff,
                    dd > 0,
            ;
        }
    }
}

/// A side is scaled in proportion: what comes out is less than one pixel below it and
/// less than two above.
pub proof fn sides_are_scaled_in_proportion(i: u32, n: u32, d: u32)
    requires
        d > 0,
        i * n <= u32::MAX * d,
    ensures
        i * n - d <= scaled_side(i, n, d) * d < i * n + 2 * d,
{
    sides_are_rounded_up(i, n, d);
    let side = scaled_side(i, n, d) as int;
    assert((side - 1) * d == side * d - d) by (nonlinear_arith);
}

/// What is nearest to a quotient, and even where two are, is its rounded value.
proof fn nearest_is_round_even(n: int, d: int, m: int)
    requires
        d > 0,
        n >= 0,
        2 * n - d <= 2 * (m * d) <= 2 * n + d,
        2 * (m * d) == 2 * n - d || 2 * (m * d) == 2 * n + d ==> m % 2 == 0,
    ensures
        m == round_even(n, d),
{
    let (q, r) = (n / d, n % d);
    assert(n == q * d + r && 0 <= r < d) by (nonlinear_arith)
        requires
            d > 0,
            q == n / d,
            r == n % d,
    ;
    let k = m - q;
    assert(m * d == q * d + k * d) by (nonlinear_arith)
        requires
            m == q + k,
    ;
    assert(2 * r - d <= 2 * (k * d) <= 2 * r + d);
    assert(0 <= k <= 1) by (nonlinear_arith)
        requires
            2 * r - d <= 2 * (k * d) <= 2 * r + d,
            0 <= r < d,
    ;
    assert(k == 0 ==> k * d == 0) by (nonlinear_arith);
    assert(k == 1 ==> k * d == d) by (nonlinear_arith);
}

/// A quotient is rounded at the denominator at which it has 53 significant bits.
proof fn quotient_is_rounded_at(n: int, d: int, from: nat, e: nat)
    requires
        n > 0,
        d > 0,
        from <= e,
        0x10_0000_0000_0000 * d <= n * pow2(e) < 0x20_0000_0000_0000 * d,
    ensures
        quotient(n * pow2(from), d, pow2(from) as int) == (
            round_even(n * pow2(e), d),
            pow2(e) as int,
        ),
    decreases e - from,
{
    let (a, z) = (pow2(from) as int, pow2(e) as int);
    lemma_pow2_pos(from);
    assert(n * a > 0) by (nonlinear_arith)
        requires
            n > 0,
            a > 0,
    ;
    if from < e {
        let b = pow2((from + 1) as nat) as int;
        lemma_pow2_unfold((from + 1) as nat);
        if from + 1 < e {
            lemma_pow2_strictly_increases((from + 1) as nat, e);
        }
        assert(2 * (n * a) == n * b && n * b <= n * z) by (nonlinear_arith)
            requires
                b == 2 * a,
                b <= z,
                n > 0,
        ;
        quotient_is_rounded_at(n, d, (from + 1) as nat, e);
    }
}

/// A number is rounded at the unit of which it has 53 significant bits.
proof fn significant_is_rounded_at(p: int, from: nat, e: nat)
    requires
        p >= 0,
        from <= e,
        p < 0x20_0000_0000_0000 * pow2(e),
        e > 0 ==> 0x10_0000_0000_0000 * pow2(e) <= p,
    ensures
        significant(p, pow2(from) as int) == round_even(p, pow2(e) as int) * pow2(e),
    decreases e - from,
{
    lemma_pow2_pos(from);
    if from < e {
        lemma_pow2_unfold((from + 1) as nat);
        if from + 1 < e {
            lemma_pow2_strictly_increases((from + 1) as nat, e);
        }
        significant_is_rounded_at(p, (from + 1) as nat, e);
    }
}

/// A side is scaled as in double precision. The ratio `n / d` is `m` parts of a power of
/// two, `m` of 53 bits, nearest to it and even where two are; the product of the side
/// and that is `c` units of a power of two, `c` of 53 bits at most, nearest to it and
/// even where two are; and the result is the least whole number that is not below that
/// product, or the largest number where it is larger.
pub proof fn sides_are_those_of_double_precision(
    i: u32,
    n: u32,
    d: u32,
    den: nat,
    m: int,
    unit: nat,
    c: int,
    side: int,
)
    requires
        n > 0,
        d > 0,
        0x10_0000_0000_0000 * d <= n * pow2(den) < 0x20_0000_0000_0000 * d,
        2 * (n * pow2(den)) - d <= 2 * (m * d) <= 2 * (n * pow2(den)) + d,
        2 * (m * d) == 2 * (n * pow2(den)) - d || 2 * (m * d) == 2 * (n * pow2(den)) + d ==> m % 2
            == 0,
        i * m < 0x20_0000_0000_0000 * pow2(unit),
        unit > 0 ==> 0x10_0000_0000_0000 * pow2(unit) <= i * m,
        2 * (i * m) - pow2(unit) <= 2 * (c * pow2(unit)) <= 2 * (i * m) + pow2(unit),
        2 * (c * pow2(unit)) == 2 * (i * m) - pow2(unit) || 2 * (c * pow2(unit)) == 2 * (i * m)
            + pow2(unit) ==> c % 2 == 0,
        (side - 1) * pow2(den) < c * pow2(unit) <= side * pow2(den),
    ensures
        scaled_side(i, n, d) == if side <= 0xffff_ffff {
            side
        } else {
            0xffff_ffff
        },
{
    let (p, u, z) = (i * m, pow2(unit) as int, pow2(den) as int);
    lemma_pow2_pos(den);
    lemma_pow2_pos(unit);
    lemma2_to64();
    assert(n * z >= 0) by (nonlinear_arith)
        requires
            n > 0,
            z > 0,
    ;
    nearest_is_round_even(n * z, d as int, m);
    assert(n * 1 == n);
    quotient_is_rounded_at(n as int, d as int, 0, den);
    assert(m >= 0) by (nonlinear_arith)
        requires
            2 * (n * z) - d <= 2 * (m * d),
            0x10_0000_0000_0000 * d <= n * z,
            d > 0,
    ;
    assert(p >= 0) by (nonlinear_arith)
        requires
            p == i * m,
            m >= 0,
    ;
    nearest_is_round_even(p, u, c);
    significant_is_rounded_at(p, 0, unit);
    let r = c * u;
    assert(side == (r + z - 1) / z) by (nonlinear_arith)
        requires
            (side - 1) * z < r <= side * z,
            z > 0,
    ;
    assert(side >= 0) by (nonlinear_arith)
        requires
            r <= side * z,
            2 * p - u <= 2 * r,
            p >= 0,
            z > 0,
            u > 0,
            c * u == r,
    ;
}

/// Nothing is scaled to nothing, and by nothing to nothing.
pub proof fn nothing_stays_nothing(i: u32, n: u32, d: u32)
    requires
        d > 0,
    ensures
        scaled_side(0, n, d) == 0,
        scaled_side(i, 0, d) == 0,
{
    let (m, den) = quotient(n as int, d as int, 1);
    if n > 0 {
        assert(n < 0x20_0000_0000_0000 * d) by (nonlinear_arith)
            requires
                n <= 0xffff_ffff,
                d >= 1,
        ;
        assert(n == n * 1);
        quotient_is_near(n as int, d as int, 1, n as int);
    }
    assert(0 * m == 0 && i * 0 == 0) by (nonlinear_arith);
    assert((den - 1) / den == 0) by (nonlinear_arith)
        requires
            den > 0,
    ;
}

/// A picture covers the screen with its aspect kept and no more of it cut off than
/// that takes: both sides are scaled by one ratio, the least by which they reach the
/// screen's, which one of them then only just does.
pub proof fn cover_keeps_the_aspect(iw: u32, ih: u32, w: u32, h: u32)
    requires
        iw > 0,
        ih > 0,
        ({
            let (n, d) = cover_ratio(iw, ih, w, h);
            iw * n <= u32::MAX * d && ih * n <= u32::MAX * d
        }),
    ensures
        ({
            let (n, d) = cover_ratio(iw, ih, w, h);
            let (side_w, side_h) = cover_size(iw, ih, w, h);
            &&& d > 0
            &&& iw * n >= w * d && ih * n >= h * d
            &&& iw * n == w * d || ih * n == h * d
            &&& iw * n - d <= side_w * d < iw * n + 2 * d
            &&& ih * n - d <= side_h * d < ih * n + 2 * d
            &&& side_w <= w + 1 || side_h <= h + 1
        }),
{
    let (n, d) = cover_ratio(iw, ih, w, h);
    let (side_w, side_h) = cover_size(iw, ih, w, h);
    sides_are_scaled_in_proportion(iw, n, d);
    sides_are_scaled_in_proportion(ih, n, d);
    assert(iw * w == w * iw && ih * h == h * ih && ih * w == w * ih && iw * h == h * iw)
        by (nonlinear_arith);
    if iw * n == w * d {
        assert(side_w <= w + 1) by (nonlinear_arith)
            requires
                side_w * d < w * d + 2 * d,
                d > 0,
        ;
    } else {
        assert(side_h <= h + 1) by (nonlinear_arith)
            requires
                side_h * d < h * d + 2 * d,
                d > 0,
        ;
    }
}

/// A picture with pixels is scaled by the ratio of the widths where that is not the
/// smaller one, and by that of the heights otherwise, on both sides. One without width or
/// height that would have to be blown up beyond all bounds is as large as can be where it
/// has something; one that need not be is scaled by the ratio of the sides that it has.
pub proof fn both_sides_have_one_ratio(iw: u32, ih: u32, w: u32, h: u32)
    ensures
        iw > 0 && ih > 0 && w * ih >= h * iw ==> cover_size(iw, ih, w, h) == (
            scaled_side(iw, w, iw),
            scaled_side(ih, w, iw),
        ),
        iw > 0 && ih > 0 && w * ih < h * iw ==> cover_size(iw, ih, w, h) == (
            scaled_side(iw, h, ih),
            scaled_side(ih, h, ih),
        ),
        iw == 0 ==> cover_size(iw, ih, w, h).0 == 0,
        ih == 0 ==> cover_size(iw, ih, w, h).1 == 0,
        iw == 0 && w > 0 && ih > 0 ==> cover_size(iw, ih, w, h).1 == 0xffff_ffff,
        ih == 0 && h > 0 && iw > 0 ==> cover_size(iw, ih, w, h).0 == 0xffff_ffff,
        iw == 0 && w == 0 && ih > 0 ==> cover_size(iw, ih, w, h).1 == scaled_side(ih, h, ih),
        ih == 0 && h == 0 && iw > 0 ==> cover_size(iw, ih, w, h).0 == scaled_side(iw, w, iw),
{
    if iw > 0 {
        nothing_stays_nothing(iw, w, iw);
    }
    if ih > 0 {
        nothing_stays_nothing(ih, h, ih);
    }
    nothing_stays_nothing(0, 0, 1);
}

} // verus!
