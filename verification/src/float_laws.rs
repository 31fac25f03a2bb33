//! Laws of the conversions between numbers: a double becomes the single nearest to it, a
//! single becomes the double of the same value, and an integer the double nearest to it.
//!
//! The magnitude of a finite number is told as a multiple of the least double that is
//! above zero.
use vstd::prelude::*;
use vstd::arithmetic::div_mod::{lemma_fundamental_div_mod, lemma_fundamental_div_mod_converse};
use vstd::arithmetic::power2::{
    lemma2_to64, lemma2_to64_rest, lemma_pow2_adds, lemma_pow2_pos, lemma_pow2_strictly_increases,
    pow2,
};
use crate::float::{excess_bits, log2_floor, round_even, scaled, Float32, Float64};

verus! {

/// How far two magnitudes are apart.
pub open spec fn gap(a: nat, b: nat) -> int {
    if a <= b {
        b - a
    } else {
        a - b
    }
}

/// The magnitude of a finite double.
pub open spec fn double_units(x: Float64) -> nat {
    if x.exponent() == 0 {
        x.fraction()
    } else {
        (0x10_0000_0000_0000 + x.fraction()) * pow2((x.exponent() - 1) as nat)
    }
}

/// The magnitude of a single; that of an infinity is the power of two beyond the greatest
/// single.
pub open spec fn single_units(g: Float32) -> nat {
    if g.exponent() == 0 {
        g.fraction() * pow2(925)
    } else {
        (0x80_0000 + g.fraction()) * pow2(g.exponent() + 924)
    }
}

/// Whether a single is a number or an infinity.
pub open spec fn is_number(g: Float32) -> bool {
    g.exponent() < 255 || g.fraction() == 0
}

proof fn lemma_pow2_add(a: nat, b: nat)
    ensures
        pow2(a) * pow2(b) == pow2(a + b),
        pow2(a) > 0,
        pow2(b) > 0,
{
    lemma_pow2_adds(a, b);
    lemma_pow2_pos(a);
    lemma_pow2_pos(b);
}

/// Rounding gives the nearest multiple, and the even one of two that are as near.
pub proof fn rounding_is_to_the_nearest(m: nat, k: nat, j: nat)
    ensures
        gap(m, round_even(m, k) * pow2(k)) <= gap(m, j * pow2(k)),
        gap(m, round_even(m, k) * pow2(k)) == gap(m, j * pow2(k)) && j != round_even(m, k) ==> 
            round_even(m, k) % 2 == 0,
{
    let p = pow2(k);
    lemma_pow2_pos(k);
    let q = m / p;
    let r = m % p;
    lemma_fundamental_div_mod(m as int, p as int);
    assert(m == q * p + r) by (nonlinear_arith)
        requires
            m == p * q + r,
    ;
    assert((q + 1) * p == q * p + p) by (nonlinear_arith);
    if j <= q {
        let d = q - j;
        assert(j * p == q * p - d * p) by (nonlinear_arith)
            requires
                d == q - j,
        ;
        assert(d * p >= 0) by (nonlinear_arith)
            requires
                d >= 0,
                p > 0,
        ;
        if d > 0 {
            assert(d * p >= p) by (nonlinear_arith)
                requires
                    d >= 1,
                    p > 0,
            ;
        } else {
            assert(d * p == 0) by (nonlinear_arith)
                requires
                    d == 0,
            ;
        }
    } else {
        let d = j - q - 1;
        assert(j * p == (q + 1) * p + d * p) by (nonlinear_arith)
            requires
                j == q + 1 + d,
        ;
        assert(d * p >= 0) by (nonlinear_arith)
            requires
                d >= 0,
                p > 0,
        ;
        if d > 0 {
            assert(d * p >= p) by (nonlinear_arith)
                requires
                    d >= 1,
                    p > 0,
            ;
        } else {
            assert(d * p == 0) by (nonlinear_arith)
                requires
                    d == 0,
            ;
        }
    }
}

/// The same for magnitudes that are told in larger units.
proof fn lemma_nearest_scaled(m: nat, k: nat, j: nat, u: nat)
    ensures
        ({
            let q = round_even(m, k);
            let g = pow2(k + u);
            &&& gap(m * pow2(u), q * g) <= gap(m * pow2(u), j * g)
            &&& gap(m * pow2(u), q * g) == gap(m * pow2(u), j * g) && j != q ==> q % 2 == 0
        }),
{
    rounding_is_to_the_nearest(m, k, j);
    lemma_pow2_add(k, u);
    let (p, s, q) = (pow2(k), pow2(u), round_even(m, k));
    lemma_gap_scaled(m, q * p, s);
    lemma_gap_scaled(m, j * p, s);
    assert(q * p * s == q * pow2(k + u)) by (nonlinear_arith)
        requires
            p * s == pow2(k + u),
    ;
    assert(j * p * s == j * pow2(k + u)) by (nonlinear_arith)
        requires
            p * s == pow2(k + u),
    ;
    let (a, b) = (gap(m, q * p), gap(m, j * p));
    assert(a * s <= b * s) by (nonlinear_arith)
        requires
            a <= b,
            s > 0,
    ;
    if a < b {
        assert(a * s < b * s) by (nonlinear_arith)
            requires
                a < b,
                s > 0,
        ;
    }
}

proof fn lemma_gap_scaled(a: nat, b: nat, s: nat)
    ensures
        gap(a * s, b * s) == gap(a, b) * s,
{
    if a <= b {
        assert(a * s <= b * s) by (nonlinear_arith)
            requires
                a <= b,
        ;
        assert((b - a) * s == b * s - a * s) by (nonlinear_arith);
    } else {
        assert(a * s >= b * s) by (nonlinear_arith)
            requires
                a >= b,
        ;
        assert((a - b) * s == a * s - b * s) by (nonlinear_arith);
    }
}

/// The magnitude of a single, from its bits without the sign.
proof fn lemma_single_units(g: Float32, e: nat, q: nat)
    requires
        1 <= e,
        g.magnitude() == (e - 1) * 0x80_0000 + q,
        q <= 0x100_0000,
        e > 1 ==> q >= 0x80_0000,
    ensures
        single_units(g) == q * pow2(e + 924),
        q < 0x100_0000 ==> g.magnitude() / 0x80_0000 == (if q >= 0x80_0000 { e } else { 0 }),
{
    let m = g.magnitude();
    if q < 0x80_0000 {
        assert(g.exponent() == 0 && g.fraction() == q);
    } else if q < 0x100_0000 {
        assert(g.exponent() == e && g.fraction() == q - 0x80_0000);
    } else {
        assert(g.exponent() == e + 1 && g.fraction() == 0);
        lemma_pow2_add(1, e + 924);
        lemma2_to64();
        assert(0x80_0000 * (2 * pow2(e + 924)) == q * pow2(e + 924)) by (nonlinear_arith)
            requires
                q == 0x100_0000,
        ;
    }
}

/// What narrowing comes to: the significand of the double is rounded to a multiple of
/// `2^k`, which in units is a multiple of `2^(e + 924)`.
proof fn lemma_narrowed(x: Float64)
    requires
        x.finite(),
    ensures
        ({
            let r = x.narrowed();
            &&& r.negative() == x.negative()
            &&& is_number(r)
            &&& x.exponent() >= 897 ==> {
                let e = (x.exponent() - 896) as nat;
                let q = round_even(x.significand(), 29);
                &&& 0x80_0000 <= q <= 0x100_0000
                &&& r.magnitude() == (if (e - 1) * 0x80_0000 + q >= 0x7f80_0000 {
                    0x7f80_0000int
                } else {
                    (e - 1) * 0x80_0000 + q
                })
            }
            &&& x.exponent() < 897 ==> {
                let q = round_even(x.significand(), (926 - x.exponent()) as nat);
                &&& q <= 0x80_0000
                &&& r.magnitude() == q
            }
        }),
{
    lemma2_to64();
    lemma2_to64_rest();
    let m = x.significand();
    if x.exponent() >= 897 {
        let q = round_even(m, 29);
        rounding_is_to_the_nearest(m, 29, 0x80_0000);
        rounding_is_to_the_nearest(m, 29, 0x100_0000);
    } else {
        let k = (926 - x.exponent()) as nat;
        let p = pow2(k);
        if k > 30 {
            lemma_pow2_strictly_increases(30, k);
        }
        assert(m / p <= 0x7f_ffff) by (nonlinear_arith)
            requires
                m < 0x20_0000_0000_0000,
                p >= 0x4000_0000,
        ;
    }
}

/// A double is narrowed to the single nearest to it, with the same sign: no single is
/// nearer, and where another is as near, the last bit of the one taken is 0. What lies
/// beyond the greatest singles becomes an infinity.
pub proof fn narrowing_is_to_the_nearest(x: Float64, g: Float32)
    requires
        x.finite(),
        is_number(g),
    ensures
        x.narrowed().negative() == x.negative(),
        is_number(x.narrowed()),
        gap(double_units(x), single_units(x.narrowed())) <= gap(double_units(x), single_units(g))
            || (x.narrowed().magnitude() == 0x7f80_0000 && double_units(x) >= single_units(
            x.narrowed(),
        )),
        gap(double_units(x), single_units(x.narrowed())) == gap(double_units(x), single_units(g))
            && single_units(g) != single_units(x.narrowed()) ==> x.narrowed().bits % 2 == 0,
{
    lemma_narrowed(x);
    lemma2_to64();
    lemma2_to64_rest();
    let r = x.narrowed();
    let m = x.significand();
    let gm = g.magnitude();
    if x.exponent() >= 897 {
        let e = (x.exponent() - 896) as nat;
        let u = (x.exponent() - 1) as nat;
        let q = round_even(m, 29);
        assert(e + 924 == 29 + u);
        let unit = pow2(e + 924);
        lemma_pow2_pos(e + 924);
        lemma_pow2_add(29, u);
        if (e - 1) * 0x80_0000 + q <= 0x7f80_0000 {
            lemma_single_units(r, e, q);
            lemma_near_single(g, e);
            if g.exponent() >= e || e == 1 {
                let j = multiple_of(g, e);
                lemma_nearest_scaled(m, 29, j, u);
                assert(r.bits % 2 == 0 <==> q % 2 == 0) by {
                    assert(r.magnitude() == (e - 1) * 0x80_0000 + q);
                    assert(r.bits % 2 == r.magnitude() % 2);
                }
            } else {
                lemma_nearest_scaled(m, 29, 0x80_0000, u);
                assert(m * pow2(u) >= 0x80_0000 * unit) by (nonlinear_arith)
                    requires
                        m >= 0x80_0000 * pow2(29),
                        unit == pow2(29) * pow2(u),
                        pow2(u) > 0,
                ;
            }
        } else {
            lemma_beyond(x);
        }
    } else {
        let k = (926 - x.exponent()) as nat;
        let q = round_even(m, k);
        lemma_single_units(r, 1, q);
        lemma_near_single(g, 1);
        let j = multiple_of(g, 1);
        if x.exponent() > 0 {
            let u = (x.exponent() - 1) as nat;
            assert(k + u == 925);
            lemma_nearest_scaled(m, k, j, u);
        } else {
            lemma_subnormal(x, j);
            assert(0 * pow2(925) == 0);
        }
        assert(r.bits % 2 == r.magnitude() % 2);
    }
}

/// How often the unit of the exponent `e` goes into a single of that exponent or a larger
/// one.
spec fn multiple_of(g: Float32, e: nat) -> nat {
    if g.exponent() == 0 {
        g.fraction()
    } else {
        (0x80_0000 + g.fraction()) * pow2((g.exponent() - e) as nat)
    }
}

/// A single of an exponent at least `e` is a multiple of that exponent's unit, and one of
/// a smaller exponent is below all that have it.
proof fn lemma_near_single(g: Float32, e: nat)
    requires
        1 <= e,
    ensures
        g.exponent() >= e || e == 1 ==> single_units(g) == multiple_of(g, e) * pow2(e + 924),
        g.exponent() < e && e > 1 ==> single_units(g) < 0x80_0000 * pow2(e + 924),
{
    lemma_pow2_pos(e + 924);
    let f = g.fraction();
    if g.exponent() >= e {
        let d = (g.exponent() - e) as nat;
        lemma_pow2_add(d, e + 924);
        assert((0x80_0000 + f) * pow2(d) * pow2(e + 924) == (0x80_0000 + f) * pow2(
            g.exponent() + 924,
        )) by (nonlinear_arith)
            requires
                pow2(d) * pow2(e + 924) == pow2(g.exponent() + 924),
        ;
    } else if e > 1 {
        let h = if g.exponent() == 0 {
            925
        } else {
            g.exponent() + 924
        };
        let s = if g.exponent() == 0 {
            f
        } else {
            0x80_0000 + f
        };
        assert(single_units(g) == s * pow2(h));
        if h + 1 < e + 924 {
            lemma_pow2_strictly_increases(h + 1, e + 924);
        }
        lemma_pow2_add(1, h);
        lemma2_to64();
        assert(s * pow2(h) < 0x80_0000 * pow2(e + 924)) by (nonlinear_arith)
            requires
                s < 0x100_0000,
                2 * pow2(h) <= pow2(e + 924),
                pow2(h) > 0,
        ;
    }
}

/// A double below all normal ones is nearest to zero.
proof fn lemma_subnormal(x: Float64, j: nat)
    requires
        x.exponent() == 0,
    ensures
        round_even(x.significand(), 926) == 0,
        gap(double_units(x), 0) <= gap(double_units(x), j * pow2(925)),
        gap(double_units(x), 0) == gap(double_units(x), j * pow2(925)) ==> j == 0,
{
    let m = x.significand();
    lemma2_to64_rest();
    lemma_pow2_strictly_increases(54, 925);
    lemma_pow2_strictly_increases(54, 926);
    lemma_pow2_add(1, 53);
    lemma2_to64();
    assert(m / pow2(926) == 0 && m % pow2(926) == m) by (nonlinear_arith)
        requires
            0 <= m < pow2(926),
    ;
    if j > 0 {
        assert(j * pow2(925) >= pow2(925)) by (nonlinear_arith)
            requires
                j >= 1,
                pow2(925) > 0,
        ;
    } else {
        assert(j * pow2(925) == 0) by (nonlinear_arith)
            requires
                j == 0,
        ;
    }
}

/// A double whose rounded magnitude is beyond that of an infinity is beyond it itself.
proof fn lemma_beyond(x: Float64)
    requires
        x.finite(),
        x.exponent() >= 897,
        (x.exponent() - 897) * 0x80_0000 + round_even(x.significand(), 29) > 0x7f80_0000,
    ensures
        x.narrowed().magnitude() == 0x7f80_0000,
        double_units(x) >= single_units(x.narrowed()),
        x.narrowed().bits % 2 == 0,
{
    lemma_narrowed(x);
    let r = x.narrowed();
    let e = (x.exponent() - 896) as nat;
    assert(e >= 255);
    assert(single_units(r) == 0x80_0000 * pow2(255 + 924));
    let u = (x.exponent() - 1) as nat;
    assert(u + 29 == e + 924);
    lemma_pow2_add(29, u);
    lemma2_to64();
    if e > 255 {
        lemma_pow2_strictly_increases(255 + 924, e + 924);
    }
    let m = x.significand();
    assert(m * pow2(u) >= 0x80_0000 * pow2(255 + 924)) by (nonlinear_arith)
        requires
            m >= 0x80_0000 * pow2(29),
            pow2(29) * pow2(u) >= pow2(255 + 924),
            pow2(u) > 0,
    ;
}

/// Widening a single gives the double of the same magnitude and sign, and an infinity stays
/// one.
pub proof fn widening_is_exact(g: Float32)
    requires
        is_number(g),
    ensures
        g.widened().negative() == g.negative(),
        g.exponent() < 255 ==> g.widened().finite() && double_units(g.widened()) == single_units(g),
        g.exponent() == 255 ==> g.widened().magnitude() == 0x7ff0_0000_0000_0000,
{
    let x = g.widened();
    let f = g.fraction();
    lemma2_to64();
    lemma2_to64_rest();
    if g.exponent() == 255 {
    } else if g.exponent() > 0 {
        let u = (x.exponent() - 1) as nat;
        assert(x.magnitude() == (g.exponent() + 896) * 0x10_0000_0000_0000 + f * 0x2000_0000);
        assert(x.exponent() == g.exponent() + 896);
        assert(x.fraction() == f * 0x2000_0000);
        lemma_pow2_add(29, u);
        assert((0x10_0000_0000_0000 + f * 0x2000_0000) * pow2(u) == (0x80_0000 + f) * (0x2000_0000
            * pow2(u))) by (nonlinear_arith);
    } else if f == 0 {
        assert(x.magnitude() == 0);
    } else {
        let k = log2_floor(f);
        lemma_log2(f);
        if k >= 23 {
            if k > 23 {
                lemma_pow2_strictly_increases(23, k);
            }
        }
        let p = pow2((52 - k) as nat);
        lemma_pow2_add(k, (52 - k) as nat);
        lemma_pow2_add(k + 1, (52 - k) as nat);
        assert(f * p >= pow2(52)) by (nonlinear_arith)
            requires
                f >= pow2(k),
                pow2(k) * p == pow2(52),
        ;
        assert(f * p < pow2(53)) by (nonlinear_arith)
            requires
                f < pow2(k + 1),
                p > 0,
                pow2(k + 1) * p == pow2(53),
        ;
        assert(x.magnitude() == (873 + k) * 0x10_0000_0000_0000 + f * p);
        assert(x.exponent() == 874 + k);
        assert(0x10_0000_0000_0000 + x.fraction() == f * p);
        lemma_pow2_add((52 - k) as nat, 873 + k);
        assert(f * p * pow2(873 + k) == f * pow2(925)) by (nonlinear_arith)
            requires
                p * pow2(873 + k) == pow2(925),
        ;
    }
}

proof fn lemma_log2(n: nat)
    requires
        n > 0,
    ensures
        pow2(log2_floor(n)) <= n < pow2(log2_floor(n) + 1),
    decreases n,
{
    lemma2_to64();
    if n >= 2 {
        lemma_log2(n / 2);
        lemma_pow2_add(1, log2_floor(n / 2));
        lemma_pow2_add(1, log2_floor(n / 2) + 1);
    }
}

/// A number that is exact in single precision is not changed by narrowing: narrowing undoes
/// widening.
pub proof fn narrowing_undoes_widening(g: Float32)
    requires
        is_number(g),
    ensures
        g.widened().narrowed() == g,
{
    let x = g.widened();
    let f = g.fraction();
    lemma2_to64();
    lemma2_to64_rest();
    if g.exponent() == 255 {
        assert(x.magnitude() == 2047 * 0x10_0000_0000_0000);
        assert(x.narrowed().magnitude() == 0x7f80_0000);
    } else if g.exponent() > 0 {
        assert(x.magnitude() == (g.exponent() + 896) * 0x10_0000_0000_0000 + f * 0x2000_0000);
        assert(x.exponent() == g.exponent() + 896);
        assert(x.significand() == (0x80_0000 + f) * 0x2000_0000);
        assert(round_even(x.significand(), 29) == 0x80_0000 + f);
    } else if f == 0 {
        assert(x.magnitude() == 0);
        lemma_subnormal(x, 0);
    } else {
        let k = log2_floor(f);
        lemma_log2(f);
        if k > 23 {
            lemma_pow2_strictly_increases(23, k);
        }
        let p = pow2((52 - k) as nat);
        lemma_pow2_add(k, (52 - k) as nat);
        lemma_pow2_add(k + 1, (52 - k) as nat);
        assert(f * p >= pow2(52)) by (nonlinear_arith)
            requires
                f >= pow2(k),
                pow2(k) * p == pow2(52),
        ;
        assert(f * p < pow2(53)) by (nonlinear_arith)
            requires
                f < pow2(k + 1),
                p > 0,
                pow2(k + 1) * p == pow2(53),
        ;
        assert(x.magnitude() == (873 + k) * 0x10_0000_0000_0000 + f * p);
        assert(x.exponent() == 874 + k);
        assert(x.significand() == f * p);
        lemma_fundamental_div_mod_converse((f * p) as int, p as int, f as int, 0);
        assert(round_even(f * p, (52 - k) as nat) == f);
        assert(926 - x.exponent() == 52 - k);
    }
    let r = x.narrowed();
    assert(r.magnitude() == g.magnitude());
    assert(r.negative() == g.negative());
}

/// Two singles that differ are different numbers.
pub proof fn singles_differ(g: Float32, h: Float32)
    requires
        is_number(g),
        is_number(h),
        g.widened() == h.widened(),
    ensures
        g == h,
{
    narrowing_undoes_widening(g);
    narrowing_undoes_widening(h);
}

/// An integer of 64 bits becomes the double nearest to it; up to 2^53 it becomes the double
/// of its value.
pub proof fn integer_becomes_the_nearest_double(n: nat)
    requires
        n < 0x1_0000_0000_0000_0000,
    ensures
        Float64::of_nat(n).finite(),
        !Float64::of_nat(n).negative(),
        n <= 0x20_0000_0000_0000 ==> double_units(Float64::of_nat(n)) == n * pow2(1074),
        n > 0 ==> {
            let k = if log2_floor(n) <= 52 { 0 } else { (log2_floor(n) - 52) as nat };
            double_units(Float64::of_nat(n)) == round_even(n, k) * pow2(k) * pow2(1074)
        },
{
    let x = Float64::of_nat(n);
    lemma2_to64();
    lemma2_to64_rest();
    if n == 0 {
    } else {
        let k = log2_floor(n);
        lemma_log2(n);
        if k > 63 {
            if k > 64 {
                lemma_pow2_strictly_increases(64, k);
            }
            lemma_pow2_add(1, 63);
        }
        if k <= 52 {
            let p = pow2((52 - k) as nat);
            lemma_pow2_add(k, (52 - k) as nat);
            lemma_pow2_add(k + 1, (52 - k) as nat);
            assert(n * p >= pow2(52)) by (nonlinear_arith)
                requires
                    n >= pow2(k),
                    pow2(k) * p == pow2(52),
            ;
            assert(n * p < pow2(53)) by (nonlinear_arith)
                requires
                    n < pow2(k + 1),
                    p > 0,
                    pow2(k + 1) * p == pow2(53),
            ;
            assert(x.bits == (1022 + k) * 0x10_0000_0000_0000 + n * p);
            assert(x.exponent() == 1023 + k);
            assert(0x10_0000_0000_0000 + x.fraction() == n * p);
            lemma_pow2_add((52 - k) as nat, 1022 + k);
            assert(n * p * pow2(1022 + k) == n * pow2(1074)) by (nonlinear_arith)
                requires
                    p * pow2(1022 + k) == pow2(1074),
            ;
            assert(n / 1 == n && n % 1 == 0);
            assert(round_even(n, 0) == n);
            assert(n * pow2(0) == n);
        } else {
            let d = (k - 52) as nat;
            let p = pow2(d);
            let q = round_even(n, d);
            lemma_pow2_add(52, d);
            lemma_pow2_add(53, d);
            assert(n / p >= pow2(52)) by (nonlinear_arith)
                requires
                    n >= pow2(52) * p,
                    p > 0,
            ;
            assert(n / p < pow2(53)) by (nonlinear_arith)
                requires
                    n < pow2(53) * p,
                    p > 0,
            ;
            assert(x.bits == (1022 + k) * 0x10_0000_0000_0000 + q);
            lemma_pow2_add(d, 1074);
            assert(q * p * pow2(1074) == q * pow2(d + 1074)) by (nonlinear_arith)
                requires
                    p * pow2(1074) == pow2(d + 1074),
            ;
            if q < 0x20_0000_0000_0000 {
                assert(x.exponent() == 1023 + k);
                assert(0x10_0000_0000_0000 + x.fraction() == q);
                assert(1022 + k == d + 1074);
            } else {
                assert(x.exponent() == 1024 + k);
                assert(x.fraction() == 0);
                lemma_pow2_add(1, d + 1074);
                assert(1023 + k == 1 + (d + 1074));
                assert(0x10_0000_0000_0000 * (2 * pow2(d + 1074)) == q * pow2(d + 1074))
                    by (nonlinear_arith)
                    requires
                        q == 0x20_0000_0000_0000,
                ;
            }
            if n <= 0x20_0000_0000_0000 {
                assert(k == 53 && n == 0x20_0000_0000_0000) by {
                    if k > 53 {
                        lemma_pow2_strictly_increases(53, k);
                    }
                }
                assert(n / 2 == 0x10_0000_0000_0000 && n % 2 == 0);
                assert(q == 0x10_0000_0000_0000);
                assert(q * p == n);
            }
        }
    }
}

/// Doubling or halving `k` times is multiplying or dividing by `2^k`.
proof fn lemma_scaled(m: nat, scale: int)
    ensures
        scale >= 0 ==> scaled(m, scale) == Some((m * pow2(scale as nat)) as nat),
        scale < 0 ==> match scaled(m, scale) {
            Some(q) => m == q * pow2((-scale) as nat),
            None => m % pow2((-scale) as nat) != 0,
        },
    decreases (if scale < 0 { -scale } else { scale }),
{
    lemma2_to64();
    if scale > 0 {
        lemma_scaled(2 * m, scale - 1);
        lemma_pow2_add(1, (scale - 1) as nat);
        assert(2 * m * pow2((scale - 1) as nat) == m * (2 * pow2((scale - 1) as nat)))
            by (nonlinear_arith);
    } else if scale == 0 {
        assert(m * 1 == m);
    } else {
        let k = (-scale) as nat;
        let h = (k - 1) as nat;
        lemma_pow2_add(1, h);
        let p = pow2(h);
        if m % 2 == 0 {
            lemma_scaled(m / 2, scale + 1);
            if h == 0 {
                assert(scaled(m / 2, 0) == Some(m / 2));
                assert(m == (m / 2) * 2);
            } else {
                match scaled(m / 2, scale + 1) {
                    Some(q) => {
                        assert(q * (2 * p) == 2 * (q * p)) by (nonlinear_arith);
                    },
                    None => {
                        let n = m / 2;
                        if m % (2 * p) == 0 {
                            let d = m / (2 * p);
                            lemma_fundamental_div_mod(m as int, (2 * p) as int);
                            assert(n == d * p) by (nonlinear_arith)
                                requires
                                    2 * n == 2 * p * d,
                            ;
                            lemma_fundamental_div_mod_converse(n as int, p as int, d as int, 0);
                        }
                    },
                }
            }
        } else {
            if m % (2 * p) == 0 {
                let d = m / (2 * p);
                lemma_fundamental_div_mod(m as int, (2 * p) as int);
                assert(2 * p * d == 2 * (p * d)) by (nonlinear_arith);
                assert(m == 2 * (p * d));
            }
        }
    }
}

/// A double is an integer exactly where its magnitude is a whole multiple of one, and then
/// it is that multiple, with its sign.
pub proof fn integers_are_told_from_other_doubles(x: Float64)
    ensures
        x.integer() matches Some(n) ==> x.finite() && double_units(x) == (if n < 0 {
            -n
        } else {
            n
        }) * pow2(1074) && (n != 0 ==> (n < 0 <==> x.negative())),
        x.finite() && x.integer() is None ==> double_units(x) % pow2(1074) != 0,
{
    let m = x.significand();
    let s = x.scale();
    if x.finite() {
        lemma_scaled(m, s);
        let u = (s + 1074) as nat;
        assert(double_units(x) == m * pow2(u)) by {
            lemma2_to64();
            assert(m * 1 == m);
        }
        if s >= 0 {
            lemma_pow2_add(s as nat, 1074);
            assert(m * pow2(s as nat) * pow2(1074) == m * pow2(u)) by (nonlinear_arith)
                requires
                    pow2(s as nat) * pow2(1074) == pow2(u),
            ;
        } else {
            let k = (-s) as nat;
            lemma_pow2_add(k, u);
            match scaled(m, s) {
                Some(q) => {
                    assert(q * pow2(k) * pow2(u) == q * pow2(1074)) by (nonlinear_arith)
                        requires
                            pow2(k) * pow2(u) == pow2(1074),
                    ;
                },
                None => {
                    let (p, r, z) = (pow2(k), pow2(u), pow2(1074));
                    lemma_pow2_pos(1074);
                    if (m * r) % z == 0 {
                        let d = (m * r) / z;
                        lemma_fundamental_div_mod((m * r) as int, z as int);
                        assert(m == d * p) by (nonlinear_arith)
                            requires
                                m * r == z * d,
                                z == p * r,
                                r > 0,
                        ;
                        lemma_fundamental_div_mod_converse(m as int, p as int, d as int, 0);
                    }
                },
            }
        }
    }
}

/// A finite number without its fractional part is the integer next to it on the side of
/// zero, held within the range of `i64`.
pub proof fn truncation_goes_towards_zero(x: Float64)
    requires
        x.finite(),
    ensures
        ({
            let n = double_units(x) / pow2(1074);
            x.truncated() == (if x.negative() {
                if n > 0x8000_0000_0000_0000 {
                    i64::MIN as int
                } else {
                    -(n as int)
                }
            } else {
                if n > i64::MAX {
                    i64::MAX as int
                } else {
                    n as int
                }
            })
        }),
{
    let m = x.significand();
    let s = x.scale();
    let u = (s + 1074) as nat;
    let z = pow2(1074);
    lemma_pow2_pos(1074);
    assert(double_units(x) == m * pow2(u)) by {
        lemma2_to64();
        assert(m * 1 == m);
    }
    if s >= 0 {
        lemma_pow2_add(s as nat, 1074);
        let w = m * pow2(s as nat);
        assert(w * z == m * pow2(u)) by (nonlinear_arith)
            requires
                pow2(s as nat) * z == pow2(u),
                w == m * pow2(s as nat),
        ;
        lemma_fundamental_div_mod_converse((m * pow2(u)) as int, z as int, w as int, 0);
    } else {
        let k = (-s) as nat;
        lemma_pow2_add(k, u);
        let (p, r) = (pow2(k), pow2(u));
        let (q, e) = (m / p, m % p);
        lemma_fundamental_div_mod(m as int, p as int);
        vstd::arithmetic::div_mod::lemma_mod_bound(m as int, p as int);
        assert(m * r == q * z + e * r) by (nonlinear_arith)
            requires
                m == p * q + e,
                z == p * r,
        ;
        assert(0 <= e * r < z) by (nonlinear_arith)
            requires
                0 <= e < p,
                z == p * r,
                r > 0,
        ;
        lemma_fundamental_div_mod_converse((m * r) as int, z as int, q as int, (e * r) as int);
    }
}

/// A number is above zero where it is not negative and its magnitude is not nothing, or it
/// is the positive infinity.
pub proof fn above_zero_is_positive(x: Float64)
    ensures
        x.finite() ==> (x.above_zero() <==> !x.negative() && double_units(x) > 0),
        !x.finite() ==> (x.above_zero() <==> x.bits == 0x7ff0_0000_0000_0000),
{
    lemma2_to64();
    if x.finite() && x.exponent() > 0 {
        lemma_pow2_pos((x.exponent() - 1) as nat);
        assert((0x10_0000_0000_0000 + x.fraction()) * pow2((x.exponent() - 1) as nat) > 0)
            by (nonlinear_arith)
            requires
                pow2((x.exponent() - 1) as nat) > 0,
        ;
    }
}

/// A negative integer becomes the double of its magnitude with the sign set.
pub proof fn negative_integers_keep_their_magnitude(n: int)
    requires
        -0x8000_0000_0000_0000 <= n < 0,
    ensures
        Float64::of_int(n).negative(),
        Float64::of_int(n).magnitude() == Float64::of_int(-n).magnitude(),
        double_units(Float64::of_int(n)) == double_units(Float64::of_int(-n)),
{
    integer_becomes_the_nearest_double((-n) as nat);
    let x = Float64::of_nat((-n) as nat);
    assert(x.bits < 0x8000_0000_0000_0000);
    assert(Float64::of_int(n).bits == 0x8000_0000_0000_0000 + x.bits);
}

/// A number is half of a billionth or more where two billion times the number are one or more.
pub proof fn half_billionths_are_told(x: Float64)
    requires
        x.finite(),
    ensures
        x.half_billionth() <==> x.above_zero() && 2_000_000_000 * double_units(x) >= pow2(1074),
{
    let e = x.exponent();
    if e > 0 {
        let s = x.significand();
        let p = pow2((e - 1) as nat);
        if e < 1075 {
            let d = pow2((1075 - e) as nat);
            lemma_pow2_add((e - 1) as nat, (1075 - e) as nat);
            assert(2_000_000_000 * (s * p) >= p * d <==> 2_000_000_000 * s >= d) by (nonlinear_arith)
                requires
                    p > 0,
            ;
        } else {
            if e > 1075 {
                lemma_pow2_strictly_increases(1074, (e - 1) as nat);
            }
            assert(2_000_000_000 * (s * p) >= p) by (nonlinear_arith)
                requires
                    s >= 1,
                    p >= 0,
            ;
        }
    }
}

/// The fractional part of a number, in billionths, is the integer nearest to a billion times
/// that part, as long as the product has no more bits than a double holds. With more bits the
/// product is itself the nearest that a double holds.
pub proof fn billionths_are_the_nearest(x: Float64)
    requires
        x.finite(),
        x.scale() < 0,
    ensures
        ({
            let d = (-x.scale()) as nat;
            let product = (x.significand() % pow2(d)) * 1_000_000_000;
            let k = excess_bits(product);
            let held = round_even(product, k) * pow2(k);
            &&& product < 0x20_0000_0000_0000 ==> held == product
            &&& 2 * gap(x.billionths() * pow2(d), held) <= pow2(d)
        }),
        x.significand() % pow2((-x.scale()) as nat) == 0 ==> x.billionths() == 0,
{
    let d = (-x.scale()) as nat;
    let part = x.significand() % pow2(d);
    let product = part * 1_000_000_000;
    let k = excess_bits(product);
    let held = round_even(product, k) * pow2(k);
    lemma_pow2_add(1, d);
    lemma2_to64();
    let q = pow2(d) as int;
    assert(pow2(d + 1) == 2 * q);
    if product < 0x20_0000_0000_0000 {
        assert(k == 0 && pow2(k) == 1);
        assert(round_even(product, k) == product);
        assert(product * pow2(k) == product);
    }
    let n = 2 * held + q;
    let b = x.billionths() as int;
    assert(b == n / (2 * q));
    lemma_fundamental_div_mod(n, 2 * q);
    let r = n % (2 * q);
    assert(0 <= r < 2 * q) by {
        vstd::arithmetic::div_mod::lemma_mod_bound(n, 2 * q);
    }
    assert((2 * q) * b == 2 * (b * q)) by (nonlinear_arith);
    if part == 0 {
        assert(b == 0) by (nonlinear_arith)
            requires
                2 * (b * q) + r == q,
                0 <= r < 2 * q,
                q > 0,
        ;
    }
}

} // verus!
