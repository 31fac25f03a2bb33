//! IEEE 754 numbers held by their bit patterns, with the conversions between
//! the two widths and the integers carried out in integer arithmetic.
use vstd::prelude::*;
use vstd::arithmetic::power2::{
    lemma2_to64, lemma2_to64_rest, lemma_pow2_adds, lemma_pow2_strictly_increases, pow2,
};

verus! {

/// A double-precision number, by its bits.
#[derive(Debug, Clone, Copy, PartialEq, Eq, Structural)]
pub struct Float64 {
    pub bits: u64,
}

/// A single-precision number, by its bits.
#[derive(Debug, Clone, Copy, PartialEq, Eq, Structural)]
pub struct Float32 {
    pub bits: u32,
}

/// `m / 2^k`, rounded to the nearest integer and to the even one of two that
/// are equally near.
pub open spec fn round_even(m: nat, k: nat) -> nat {
    let q = m / pow2(k);
    let r = m % pow2(k);
    if 2 * r > pow2(k) || (2 * r == pow2(k) && q % 2 == 1) {
        q + 1
    } else {
        q
    }
}

/// The exponent of the largest power of two that is at most `n`.
pub open spec fn log2_floor(n: nat) -> nat
    decreases n,
{
    if n < 2 {
        0
    } else {
        1 + log2_floor(n / 2)
    }
}

/// `m * 2^scale`, where that is an integer.
pub open spec fn scaled(m: nat, scale: int) -> Option<nat>
    decreases (if scale < 0 { -scale } else { scale }),
{
    if scale > 0 {
        scaled(2 * m, scale - 1)
    } else if scale == 0 {
        Some(m)
    } else if m % 2 == 0 {
        scaled(m / 2, scale + 1)
    } else {
        None
    }
}

/// The number of bits that a double gives to its fraction is 52; this is `2^52`.
pub open spec fn hidden_bit() -> nat {
    0x10_0000_0000_0000
}

/// The least double that is at least half of a billionth.
proof fn lemma_half_billionth(x: Float64)
    ensures
        x.half_billionth() <==> 0x3e01_2e0b_e826_d695 <= x.bits <= 0x7ff0_0000_0000_0000,
{
    let e = x.exponent();
    let k = (-x.scale()) as nat;
    lemma2_to64();
    lemma2_to64_rest();
    lemma_pow2_adds(64, 18);
    lemma_pow2_adds(64, 19);
    lemma_pow2_adds(64, 20);
    assert(pow2(82) == 0x4_0000_0000_0000_0000_0000);
    assert(pow2(83) == 0x8_0000_0000_0000_0000_0000);
    assert(pow2(84) == 0x10_0000_0000_0000_0000_0000);
    if e < 2047 && x.scale() < 0 {
        if e < 992 {
            if k > 84 {
                lemma_pow2_strictly_increases(84, k);
            }
        } else if e > 992 {
            if k < 82 {
                lemma_pow2_strictly_increases(k, 82);
            }
        }
    }
}

impl Float64 {
    /// Whether the sign bit is set.
    pub open spec fn negative(self) -> bool {
        self.bits >= 0x8000_0000_0000_0000
    }

    /// The bits without the sign bit.
    pub open spec fn magnitude(self) -> nat {
        (self.bits % 0x8000_0000_0000_0000) as nat
    }

    /// The biased exponent.
    pub open spec fn exponent(self) -> nat {
        self.magnitude() / hidden_bit()
    }

    /// The fraction bits.
    pub open spec fn fraction(self) -> nat {
        self.magnitude() % hidden_bit()
    }

    /// Whether the number is neither infinite nor NaN.
    pub open spec fn finite(self) -> bool {
        self.exponent() < 2047
    }

    /// The number is `significand * 2^scale`, up to its sign.
    pub open spec fn significand(self) -> nat {
        if self.exponent() == 0 {
            self.fraction()
        } else {
            hidden_bit() + self.fraction()
        }
    }

    /// The number is `significand * 2^scale`, up to its sign.
    pub open spec fn scale(self) -> int {
        if self.exponent() == 0 {
            -1074
        } else {
            self.exponent() - 1075
        }
    }

    /// The integer that the number equals, if it is an integer.
    pub open spec fn integer(self) -> Option<int> {
        if !self.finite() {
            None
        } else {
            match scaled(self.significand(), self.scale()) {
                Some(m) => Some(
                    if self.negative() {
                        -(m as int)
                    } else {
                        m as int
                    },
                ),
                None => None,
            }
        }
    }

    /// Whether the number is above zero: not NaN, and neither negative nor a zero.
    pub open spec fn above_zero(self) -> bool {
        !self.negative() && self.significand() > 0 && (self.finite() || self.fraction() == 0)
    }

    /// Whether the number is above zero.
    pub fn is_above_zero(self) -> (r: bool)
        ensures
            r == self.above_zero(),
    {
        0 < self.bits && self.bits <= 0x7ff0_0000_0000_0000
    }

    /// Whether the number is at least half of a billionth: as seconds, in whole
    /// nanoseconds, it is no less than one.
    pub open spec fn half_billionth(self) -> bool {
        self.above_zero() && (!self.finite() || self.scale() >= 0 || 2_000_000_000
            * self.significand() >= pow2((-self.scale()) as nat))
    }

    /// Whether the number is at least half of a billionth.
    pub fn is_half_billionth(self) -> (r: bool)
        ensures
            r == self.half_billionth(),
    {
        proof {
            lemma_half_billionth(self);
        }
        0x3e01_2e0b_e826_d695 <= self.bits && self.bits <= 0x7ff0_0000_0000_0000
    }

    /// Whether the number is neither infinite nor NaN.
    pub fn is_finite(self) -> (r: bool)
        ensures
            r == self.finite(),
    {
        (self.bits % 0x8000_0000_0000_0000) / 0x10_0000_0000_0000 < 2047
    }

    /// The integer that the number equals, held within the range of `i128`; `None`
    /// where the number has a fractional part, is infinite or is NaN.
    pub fn to_integer(self) -> (r: Option<i128>)
        ensures
            match self.integer() {
                Some(x) => r == Some(clamp_i128(x)),
                None => r is None,
            },
    {
        let magnitude: u64 = self.bits % 0x8000_0000_0000_0000;
        let exponent: u64 = magnitude / 0x10_0000_0000_0000;
        let fraction: u64 = magnitude % 0x10_0000_0000_0000;
        let negative = self.bits >= 0x8000_0000_0000_0000;
        if exponent >= 2047 {
            return None;
        }
        let m: u64 = if exponent == 0 {
            fraction
        } else {
            0x10_0000_0000_0000 + fraction
        };
        if m == 0 {
            proof {
                lemma_scaled_zero(self.scale());
            }
            return Some(0);
        }
        if exponent >= 1150 {
            proof {
                lemma_scaled_large(m as nat, self.scale());
            }
            return Some(
                if negative {
                    i128::MIN
                } else {
                    i128::MAX
                },
            );
        }
        let mut x: u128 = m as u128;
        let mut scale: i64 = if exponent == 0 {
            -1074
        } else {
            exponent as i64 - 1075
        };
        while scale < 0
            invariant
                scale <= 74,
                0 < x < 0x20_0000_0000_0000,
                scaled(self.significand(), self.scale()) == scaled(x as nat, scale as int),
                self.finite(),
            decreases -scale,
        {
            if x % 2 != 0 {
                return None;
            }
            x = x / 2;
            scale = scale + 1;
        }
        proof {
            vstd::arithmetic::power2::lemma2_to64();
            assert(x < pow2(53)) by {
                vstd::arithmetic::power2::lemma2_to64_rest();
            }
        }
        let ghost top = scale;
        let ghost start = x;
        while scale > 0
            invariant
                0 <= scale <= top <= 74,
                x < pow2((53 + top - scale) as nat),
                scaled(self.significand(), self.scale()) == scaled(x as nat, scale as int),
                self.finite(),
            decreases scale,
        {
            proof {
                let a = (53 + top - scale) as nat;
                lemma_pow2_step(a);
                lemma_pow2_127(a + 1);
            }
            x = x * 2;
            scale = scale - 1;
        }
        proof {
            lemma_pow2_127((53 + top) as nat);
        }
        if negative {
            Some(-(x as i128))
        } else {
            Some(x as i128)
        }
    }

    /// The nearest double to an unsigned integer.
    pub open spec fn of_nat(n: nat) -> Float64 {
        if n == 0 {
            Float64 { bits: 0 }
        } else {
            let k = log2_floor(n);
            let m = if k <= 52 {
                n * pow2((52 - k) as nat)
            } else {
                round_even(n, (k - 52) as nat)
            };
            Float64 { bits: ((1022 + k) * hidden_bit() + m) as u64 }
        }
    }

    /// The nearest double to an integer of at most 64 bits.
    pub open spec fn of_int(n: int) -> Float64 {
        if n < 0 {
            Float64 { bits: (0x8000_0000_0000_0000 + Float64::of_nat((-n) as nat).bits) as u64 }
        } else {
            Float64::of_nat(n as nat)
        }
    }

    /// Converts an unsigned integer, rounding to the nearest double.
    pub fn from_u64(n: u64) -> (r: Float64)
        ensures
            r == Float64::of_nat(n as nat),
            r.bits < 0x8000_0000_0000_0000,
    {
        if n == 0 {
            return Float64 { bits: 0 };
        }
        let k = floor_log2(n);
        proof {
            lemma_hidden_bit();
        }
        let m: u64 = if k <= 52 {
            let p = power_of_two(52 - k);
            proof {
                assert(n * p <= 0x1f_ffff_ffff_ffff) by {
                    lemma_pow2_sum((k + 1) as nat, (52 - k) as nat);
                    assert(n * p < pow2((k + 1) as nat) * p) by (nonlinear_arith)
                        requires
                            n < pow2((k + 1) as nat),
                            p > 0,
                    ;
                    lemma_pow2_53();
                }
            }
            n * p
        } else {
            proof {
                assert(round_even(n as nat, (k - 52) as nat) <= 0x20_0000_0000_0000) by {
                    lemma_pow2_sum(53, (k - 52) as nat);
                    lemma_pow2_53();
                    lemma_round_even_bound(n as nat, (k - 52) as nat, pow2(53));
                }
            }
            round_to_even(n, k - 52)
        };
        Float64 { bits: (1022 + k as u64) * 0x10_0000_0000_0000 + m }
    }

    /// Converts a signed integer, rounding to the nearest double.
    pub fn from_i64(n: i64) -> (r: Float64)
        ensures
            r == Float64::of_int(n as int),
    {
        if n < 0 {
            let m: u64 = if n == i64::MIN {
                0x8000_0000_0000_0000
            } else {
                (-n) as u64
            };
            let f = Float64::from_u64(m);
            Float64 { bits: 0x8000_0000_0000_0000 + f.bits }
        } else {
            Float64::from_u64(n as u64)
        }
    }

    /// The magnitude bits of the nearest single to a finite double.
    pub open spec fn narrow_magnitude(self) -> nat {
        let e = self.exponent() - 896;
        if e >= 1 {
            let mag = (e - 1) * 0x80_0000 + round_even(self.significand(), 29);
            if mag >= 0x7f80_0000 {
                0x7f80_0000
            } else {
                mag as nat
            }
        } else {
            round_even(self.significand(), (30 - e) as nat)
        }
    }

    /// The nearest single to a double. A NaN stays a NaN, made quiet, with the
    /// upper part of its payload.
    pub open spec fn narrowed(self) -> Float32 {
        let mag = if self.finite() {
            self.narrow_magnitude()
        } else if self.fraction() == 0 {
            0x7f80_0000
        } else {
            (0x7fc0_0000 + (self.fraction() / 0x2000_0000) % 0x40_0000) as nat
        };
        Float32 {
            bits: (mag + (if self.negative() {
                0x8000_0000nat
            } else {
                0
            })) as u32,
        }
    }

    /// Rounds to the nearest single.
    pub fn narrow(self) -> (r: Float32)
        ensures
            r == self.narrowed(),
    {
        let magnitude: u64 = self.bits % 0x8000_0000_0000_0000;
        let exponent: u64 = magnitude / 0x10_0000_0000_0000;
        let fraction: u64 = magnitude % 0x10_0000_0000_0000;
        let sign: u64 = if self.bits >= 0x8000_0000_0000_0000 {
            0x8000_0000
        } else {
            0
        };
        proof {
            lemma_pow2_53();
            lemma_hidden_bit();
        }
        let mag: u64 = if exponent < 2047 {
            let m: u64 = if exponent == 0 {
                fraction
            } else {
                0x10_0000_0000_0000 + fraction
            };
            if exponent >= 897 {
                proof {
                    lemma_pow2_sum(24, 29);
                    lemma_pow2_24();
                    lemma_round_even_bound(m as nat, 29, pow2(24));
                }
                let x: u64 = (exponent - 897) * 0x80_0000 + round_to_even(m, 29);
                if x >= 0x7f80_0000 {
                    0x7f80_0000
                } else {
                    x
                }
            } else if exponent <= 872 {
                proof {
                    lemma_round_even_small(m as nat, (30 - (exponent - 896)) as nat);
                }
                0
            } else {
                let k: u32 = (926 - exponent) as u32;
                proof {
                    lemma_pow2_sum(23, 30);
                    lemma_pow2_24();
                    lemma_pow2_grows(30, k as nat);
                    assert(m < pow2(23) * pow2(k as nat)) by (nonlinear_arith)
                        requires
                            m < pow2(23) * pow2(30),
                            pow2(30) <= pow2(k as nat),
                            pow2(23) > 0,
                    ;
                    lemma_round_even_bound(m as nat, k as nat, pow2(23));
                }
                round_to_even(m, k)
            }
        } else if fraction == 0 {
            0x7f80_0000
        } else {
            0x7fc0_0000 + (fraction / 0x2000_0000) % 0x40_0000
        };
        Float32 { bits: (mag + sign) as u32 }
    }
}

impl Float32 {
    /// Whether the sign bit is set.
    pub open spec fn negative(self) -> bool {
        self.bits >= 0x8000_0000
    }

    /// The bits without the sign bit.
    pub open spec fn magnitude(self) -> nat {
        (self.bits % 0x8000_0000) as nat
    }

    /// The biased exponent.
    pub open spec fn exponent(self) -> nat {
        self.magnitude() / 0x80_0000
    }

    /// The fraction bits.
    pub open spec fn fraction(self) -> nat {
        self.magnitude() % 0x80_0000
    }

    /// The double with the same value; an infinity stays one and a NaN keeps its
    /// payload, made quiet.
    pub open spec fn widened(self) -> Float64 {
        let mag = if self.exponent() == 255 {
            if self.fraction() == 0 {
                2047 * hidden_bit()
            } else {
                2047 * hidden_bit() + 0x8_0000_0000_0000 + (self.fraction() % 0x40_0000)
                    * 0x2000_0000
            }
        } else if self.exponent() > 0 {
            (self.exponent() + 896) * hidden_bit() + self.fraction() * 0x2000_0000
        } else if self.fraction() == 0 {
            0
        } else {
            let k = log2_floor(self.fraction());
            (873 + k) * hidden_bit() + self.fraction() * pow2((52 - k) as nat)
        };
        Float64 {
            bits: (mag + (if self.negative() {
                0x8000_0000_0000_0000nat
            } else {
                0
            })) as u64,
        }
    }

    /// Converts to a double, exactly.
    pub fn widen(self) -> (r: Float64)
        ensures
            r == self.widened(),
    {
        let magnitude: u32 = self.bits % 0x8000_0000;
        let exponent: u64 = (magnitude / 0x80_0000) as u64;
        let fraction: u64 = (magnitude % 0x80_0000) as u64;
        let sign: u64 = if self.bits >= 0x8000_0000 {
            0x8000_0000_0000_0000
        } else {
            0
        };
        proof {
            lemma_pow2_53();
            lemma_hidden_bit();
        }
        let mag: u64 = if exponent == 255 {
            if fraction == 0 {
                2047 * 0x10_0000_0000_0000
            } else {
                2047 * 0x10_0000_0000_0000 + 0x8_0000_0000_0000 + (fraction % 0x40_0000)
                    * 0x2000_0000
            }
        } else if exponent > 0 {
            (exponent + 896) * 0x10_0000_0000_0000 + fraction * 0x2000_0000
        } else if fraction == 0 {
            0
        } else {
            let k = floor_log2(fraction);
            proof {
                lemma_log2_bound(fraction as nat);
                if k >= 23 {
                    lemma_pow2_grows(23, k as nat);
                    lemma_pow2_24();
                }
                lemma_pow2_sum((k + 1) as nat, (52 - k) as nat);
                assert(fraction * pow2((52 - k) as nat) < pow2((k + 1) as nat) * pow2(
                    (52 - k) as nat,
                )) by (nonlinear_arith)
                    requires
                        fraction < pow2((k + 1) as nat),
                        pow2((52 - k) as nat) > 0,
                ;
            }
            (873 + k as u64) * 0x10_0000_0000_0000 + fraction * power_of_two(52 - k)
        };
        Float64 { bits: mag + sign }
    }
}

/// `x`, or the bound of the 128-bit range that it lies beyond.
pub open spec fn clamp_i128(x: int) -> i128 {
    if x < i128::MIN {
        i128::MIN
    } else if x > i128::MAX {
        i128::MAX
    } else {
        x as i128
    }
}

proof fn lemma_pow2_step(k: nat)
    ensures
        pow2(k + 1) == 2 * pow2(k),
        pow2(k) > 0,
{
    vstd::arithmetic::power2::lemma_pow2_unfold(k + 1);
    vstd::arithmetic::power2::lemma_pow2_pos(k);
}

proof fn lemma_pow2_sum(a: nat, b: nat)
    ensures
        pow2(a) * pow2(b) == pow2(a + b),
        pow2(a) > 0,
        pow2(b) > 0,
{
    vstd::arithmetic::power2::lemma_pow2_adds(a, b);
    vstd::arithmetic::power2::lemma_pow2_pos(a);
    vstd::arithmetic::power2::lemma_pow2_pos(b);
}

proof fn lemma_pow2_grows(a: nat, b: nat)
    requires
        a <= b,
    ensures
        pow2(a) <= pow2(b),
    decreases b - a,
{
    if a < b {
        lemma_pow2_grows(a, (b - 1) as nat);
        lemma_pow2_step((b - 1) as nat);
    }
}

proof fn lemma_pow2_24()
    ensures
        pow2(23) == 0x80_0000,
        pow2(24) == 0x100_0000,
        pow2(29) == 0x2000_0000,
        pow2(30) == 0x4000_0000,
{
    vstd::arithmetic::power2::lemma2_to64();
}

proof fn lemma_pow2_53()
    ensures
        pow2(53) == 0x20_0000_0000_0000,
        pow2(54) == 0x40_0000_0000_0000,
        pow2(64) == 0x1_0000_0000_0000_0000,
{
    vstd::arithmetic::power2::lemma2_to64_rest();
    lemma_pow2_step(63);
}

proof fn lemma_hidden_bit()
    ensures
        pow2(52) == hidden_bit(),
{
    vstd::arithmetic::power2::lemma2_to64_rest();
}

proof fn lemma_pow2_127(k: nat)
    requires
        k <= 127,
    ensures
        pow2(k) <= 0x8000_0000_0000_0000_0000_0000_0000_0000,
{
    lemma_pow2_grows(k, 127);
    lemma_pow2_sum(64, 63);
    lemma_pow2_53();
    vstd::arithmetic::power2::lemma2_to64_rest();
    assert(0x1_0000_0000_0000_0000int * 0x8000_0000_0000_0000int
        == 0x8000_0000_0000_0000_0000_0000_0000_0000int) by (nonlinear_arith);
}

proof fn lemma_scaled_zero(scale: int)
    ensures
        scaled(0, scale) == Some(0nat),
    decreases (if scale < 0 { -scale } else { scale }),
{
    if scale > 0 {
        lemma_scaled_zero(scale - 1);
    } else if scale < 0 {
        lemma_scaled_zero(scale + 1);
    }
}

/// Doubling `k` times multiplies by `2^k`.
proof fn lemma_scaled_ge(m: nat, scale: int, k: nat)
    requires
        k <= scale,
    ensures
        scaled(m, scale) is Some,
        scaled(m, scale)->0 >= m * pow2(k),
    decreases scale,
{
    if scale > 0 {
        if k == 0 {
            lemma_scaled_ge(2 * m, scale - 1, 0);
            vstd::arithmetic::power2::lemma2_to64();
        } else {
            lemma_scaled_ge(2 * m, scale - 1, (k - 1) as nat);
            lemma_pow2_step((k - 1) as nat);
            assert(2 * m * pow2((k - 1) as nat) == m * (2 * pow2((k - 1) as nat)))
                by (nonlinear_arith);
        }
    } else {
        vstd::arithmetic::power2::lemma2_to64();
    }
}

proof fn lemma_scaled_large(m: nat, scale: int)
    requires
        m >= hidden_bit(),
        scale >= 75,
    ensures
        scaled(m, scale) is Some,
        scaled(m, scale)->0 >= 0x8000_0000_0000_0000_0000_0000_0000_0000,
{
    lemma_scaled_ge(m, scale, 75);
    lemma_hidden_bit();
    lemma_pow2_sum(52, 75);
    lemma_pow2_sum(64, 63);
    lemma_pow2_53();
    vstd::arithmetic::power2::lemma2_to64_rest();
    assert(0x1_0000_0000_0000_0000int * 0x8000_0000_0000_0000int
        == 0x8000_0000_0000_0000_0000_0000_0000_0000int) by (nonlinear_arith);
    assert(m * pow2(75) >= pow2(52) * pow2(75)) by (nonlinear_arith)
        requires
            m >= pow2(52),
            pow2(75) > 0,
    ;
}

proof fn lemma_log2_bound(n: nat)
    requires
        n > 0,
    ensures
        pow2(log2_floor(n)) <= n < pow2(log2_floor(n) + 1),
    decreases n,
{
    vstd::arithmetic::power2::lemma2_to64();
    if n >= 2 {
        lemma_log2_bound(n / 2);
        lemma_pow2_step(log2_floor(n / 2));
        lemma_pow2_step(log2_floor(n / 2) + 1);
    }
}

/// `2^k`.
fn power_of_two(k: u32) -> (r: u64)
    requires
        k < 64,
    ensures
        r as nat == pow2(k as nat),
        r > 0,
{
    let mut p: u64 = 1;
    proof {
        vstd::arithmetic::power2::lemma2_to64();
    }
    for i in 0..k
        invariant
            k < 64,
            p as nat == pow2(i as nat),
    {
        proof {
            lemma_pow2_step(i as nat);
            lemma_pow2_grows((i + 1) as nat, 63);
            vstd::arithmetic::power2::lemma2_to64_rest();
        }
        p = p * 2;
    }
    proof {
        lemma_pow2_step(k as nat);
    }
    p
}

/// The exponent of the largest power of two that is at most `n`.
fn floor_log2(n: u64) -> (r: u32)
    requires
        n > 0,
    ensures
        r as nat == log2_floor(n as nat),
        r < 64,
        pow2(r as nat) <= n < pow2((r + 1) as nat),
{
    let mut m: u64 = n;
    let mut k: u32 = 0;
    proof {
        lemma_log2_bound(n as nat);
        lemma_pow2_53();
        if log2_floor(n as nat) >= 64 {
            lemma_pow2_grows(64, log2_floor(n as nat));
        }
    }
    while m >= 2
        invariant
            m > 0,
            log2_floor(n as nat) == k + log2_floor(m as nat),
            log2_floor(n as nat) < 64,
        decreases m,
    {
        m = m / 2;
        k = k + 1;
    }
    k
}

/// `m / 2^k` to the nearest integer, ties to even.
fn round_to_even(m: u64, k: u32) -> (r: u64)
    requires
        0 < k < 64,
    ensures
        r as nat == round_even(m as nat, k as nat),
{
    let p = power_of_two(k);
    proof {
        lemma_pow2_step((k - 1) as nat);
    }
    let half: u64 = p / 2;
    let q: u64 = m / p;
    let rem: u64 = m % p;
    assert(q <= m / 2) by (nonlinear_arith)
        requires
            q == m / p,
            p >= 2,
    ;
    if rem > half || (rem == half && q % 2 == 1) {
        q + 1
    } else {
        q
    }
}

proof fn lemma_round_even_bound(m: nat, k: nat, b: nat)
    requires
        m < b * pow2(k),
    ensures
        round_even(m, k) <= b,
{
    lemma_pow2_step(k);
    assert(m / pow2(k) < b) by (nonlinear_arith)
        requires
            m < b * pow2(k),
            pow2(k) > 0,
    ;
}

proof fn lemma_round_even_small(m: nat, k: nat)
    requires
        m < 0x20_0000_0000_0000,
        k >= 54,
    ensures
        round_even(m, k) == 0,
{
    lemma_pow2_grows(54, k);
    lemma_pow2_53();
    assert(m / pow2(k) == 0 && m % pow2(k) == m) by (nonlinear_arith)
        requires
            0 <= m < pow2(k),
    ;
}

/// The number of bits that `n` has beyond 53.
pub open spec fn excess_bits(n: nat) -> nat
    decreases n,
{
    if n < 0x20_0000_0000_0000 {
        0
    } else {
        1 + excess_bits(n / 2)
    }
}

/// `n` rounded to 53 significant bits, to the nearest and ties to even.
pub open spec fn rounded_to_double(n: nat) -> nat {
    round_even(n, excess_bits(n)) * pow2(excess_bits(n))
}

impl Float64 {
    /// The integer part of the magnitude of a finite number.
    pub open spec fn whole(self) -> nat {
        if self.scale() >= 0 {
            self.significand() * pow2(self.scale() as nat)
        } else {
            self.significand() / pow2((-self.scale()) as nat)
        }
    }

    /// The number without its fractional part, held within the range of `i64`; 0 for
    /// NaN.
    pub open spec fn truncated(self) -> int {
        if !self.finite() {
            if self.fraction() != 0 {
                0
            } else if self.negative() {
                i64::MIN as int
            } else {
                i64::MAX as int
            }
        } else if self.negative() {
            if self.whole() > 0x8000_0000_0000_0000 {
                i64::MIN as int
            } else {
                -(self.whole() as int)
            }
        } else {
            if self.whole() > i64::MAX {
                i64::MAX as int
            } else {
                self.whole() as int
            }
        }
    }

    /// The magnitude of the fractional part in billionths: the double nearest to the
    /// product, rounded to an integer with halves away from zero; 0 where the number is
    /// not finite.
    pub open spec fn billionths(self) -> nat {
        if !self.finite() || self.scale() >= 0 {
            0
        } else {
            let d = (-self.scale()) as nat;
            let part = self.significand() % pow2(d);
            let product = rounded_to_double(part * 1_000_000_000);
            (2 * product + pow2(d)) / pow2(d + 1)
        }
    }

    /// The number without its fractional part, held within the range of `i64`.
    pub fn truncate(self) -> (r: i64)
        ensures
            r == self.truncated(),
    {
        let magnitude: u64 = self.bits % 0x8000_0000_0000_0000;
        let exponent: u64 = magnitude / 0x10_0000_0000_0000;
        let fraction: u64 = magnitude % 0x10_0000_0000_0000;
        let negative = self.bits >= 0x8000_0000_0000_0000;
        if exponent >= 2047 {
            return if fraction != 0 {
                0
            } else if negative {
                i64::MIN
            } else {
                i64::MAX
            };
        }
        let m: u64 = if exponent == 0 {
            fraction
        } else {
            0x10_0000_0000_0000 + fraction
        };
        proof {
            lemma_pow2_53();
            lemma_hidden_bit();
        }
        if exponent >= 1075 {
            let scale: u64 = exponent - 1075;
            if scale >= 11 {
                proof {
                    lemma_pow2_grows(11, scale as nat);
                    lemma_pow2_sum(52, 11);
                    vstd::arithmetic::power2::lemma2_to64_rest();
                    assert(m * pow2(scale as nat) >= pow2(52) * pow2(11)) by (nonlinear_arith)
                        requires
                            m >= pow2(52),
                            pow2(scale as nat) >= pow2(11),
                    ;
                }
                return if negative {
                    i64::MIN
                } else {
                    i64::MAX
                };
            }
            let p = power_of_two(scale as u32);
            proof {
                lemma_pow2_grows(scale as nat, 10);
                lemma_pow2_sum(53, 10);
                vstd::arithmetic::power2::lemma2_to64_rest();
                assert(m * p < pow2(53) * pow2(10)) by (nonlinear_arith)
                    requires
                        m < pow2(53),
                        0 < p <= pow2(10),
                ;
            }
            let whole: u64 = m * p;
            return if negative {
                -(whole as i64)
            } else {
                whole as i64
            };
        }
        let d: u64 = if exponent == 0 {
            1074
        } else {
            1075 - exponent
        };
        if d >= 53 {
            proof {
                lemma_pow2_grows(53, d as nat);
                assert(m as nat / pow2(d as nat) == 0) by (nonlinear_arith)
                    requires
                        0 <= m < pow2(d as nat),
                ;
            }
            return 0;
        }
        let p = power_of_two(d as u32);
        assert(m / p <= m) by (nonlinear_arith)
            requires
                p > 0,
        ;
        let whole: u64 = m / p;
        if negative {
            -(whole as i64)
        } else {
            whole as i64
        }
    }

    /// The magnitude of the fractional part in billionths.
    pub fn to_billionths(self) -> (r: u64)
        ensures
            r == self.billionths(),
    {
        let magnitude: u64 = self.bits % 0x8000_0000_0000_0000;
        let exponent: u64 = magnitude / 0x10_0000_0000_0000;
        let fraction: u64 = magnitude % 0x10_0000_0000_0000;
        if exponent >= 1075 {
            return 0;
        }
        let m: u64 = if exponent == 0 {
            fraction
        } else {
            0x10_0000_0000_0000 + fraction
        };
        let d: u64 = if exponent == 0 {
            1074
        } else {
            1075 - exponent
        };
        proof {
            lemma_pow2_53();
            lemma_hidden_bit();
            lemma_pow2_step(d as nat);
        }
        let part: u64 = if d >= 53 {
            proof {
                lemma_pow2_grows(53, d as nat);
                assert(m as nat % pow2(d as nat) == m) by (nonlinear_arith)
                    requires
                        0 <= m < pow2(d as nat),
                ;
            }
            m
        } else {
            let q = power_of_two(d as u32);
            assert(m % q <= m) by (nonlinear_arith)
                requires
                    q > 0,
            ;
            m % q
        };
        let p: u128 = part as u128 * 1_000_000_000;
        let product = round_to_double(p);
        let ghost den = pow2(d as nat);
        proof {
            assert(part < den) by (nonlinear_arith)
                requires
                    part == m as nat % den,
                    den > 0,
            ;
        }
        if d > 100 {
            proof {
                lemma_pow2_grows(101, d as nat);
                lemma_pow2_sum(64, 37);
                vstd::arithmetic::power2::lemma2_to64_rest();
                assert(0x1_0000_0000_0000_0000int * 0x20_0000_0000int
                    == 0x20_0000_0000_0000_0000_0000_0000int) by (nonlinear_arith);
                vstd::arithmetic::power2::lemma2_to64();
                let x = 2 * product as nat + den;
                assert(x < 2 * den);
                assert(x as nat / (2 * den) == 0) by (nonlinear_arith)
                    requires
                        0 <= x < 2 * den,
                ;
            }
            return 0;
        }
        let mut q: u128 = 1;
        proof {
            vstd::arithmetic::power2::lemma2_to64();
        }
        for i in 0..d
            invariant
                d <= 100,
                q as nat == pow2(i as nat),
        {
            proof {
                lemma_pow2_step(i as nat);
                lemma_pow2_127((i + 1) as nat);
            }
            q = q * 2;
        }
        proof {
            lemma_pow2_grows(d as nat, 100);
            lemma_pow2_sum(64, 36);
            vstd::arithmetic::power2::lemma2_to64_rest();
            assert(0x1_0000_0000_0000_0000int * 0x10_0000_0000int
                == 0x10_0000_0000_0000_0000_0000_0000int) by (nonlinear_arith);
            vstd::arithmetic::power2::lemma2_to64();
            let x = 2 * product as nat + den;
            assert(x <= 4_000_000_001 * den) by (nonlinear_arith)
                requires
                    product <= 2 * (part * 1_000_000_000),
                    part < den,
                    x == 2 * product as nat + den,
            ;
            assert(x / (2 * den) <= 4_000_000_001) by (nonlinear_arith)
                requires
                    0 <= x <= 4_000_000_001 * den,
                    den > 0,
            ;
        }
        ((2 * product + q) / (2 * q)) as u64
    }
}

/// Rounds to 53 significant bits.
fn round_to_double(n: u128) -> (r: u128)
    requires
        n < 0x20_0000_0000_0000 * 1_000_000_000,
    ensures
        r as nat == rounded_to_double(n as nat),
        r <= 2 * n,
{
    let mut m: u128 = n;
    let mut k: u32 = 0;
    let mut p: u128 = 1;
    proof {
        vstd::arithmetic::power2::lemma2_to64();
    }
    while m >= 0x20_0000_0000_0000
        invariant
            n < 0x20_0000_0000_0000 * 1_000_000_000,
            excess_bits(n as nat) == k + excess_bits(m as nat),
            p as nat == pow2(k as nat),
            p > 0,
            m * p <= n,
            p == 1 || p <= n,
        decreases m,
    {
        proof {
            lemma_pow2_step(k as nat);
            assert((m / 2) * (2 * p) <= m * p) by (nonlinear_arith)
                requires
                    m >= 0,
                    p > 0,
            ;
            assert(2 * p <= m * p) by (nonlinear_arith)
                requires
                    m >= 2,
                    p > 0,
            ;
        }
        m = m / 2;
        assert(k < 1000) by {
            if k >= 1000 {
                lemma_pow2_grows(127, k as nat);
                lemma_pow2_sum(64, 63);
                lemma_pow2_53();
                vstd::arithmetic::power2::lemma2_to64_rest();
                assert(0x1_0000_0000_0000_0000int * 0x8000_0000_0000_0000int
                    == 0x8000_0000_0000_0000_0000_0000_0000_0000int) by (nonlinear_arith);
            }
        }
        k = k + 1;
        p = p * 2;
    }
    let q: u128 = n / p;
    let rem: u128 = n % p;
    proof {
        vstd::arithmetic::div_mod::lemma_fundamental_div_mod(n as int, p as int);
        vstd::arithmetic::div_mod::lemma_mod_bound(n as int, p as int);
        assert((q + 1) * p == q * p + p) by (nonlinear_arith);
        assert(p * q == q * p) by (nonlinear_arith);
        assert(round_even(n as nat, k as nat) == (if 2 * rem > p || (2 * rem == p && q % 2 == 1) {
            (q + 1) as nat
        } else {
            q as nat
        }));
        assert(p == 1 ==> rem == 0);
        assert(n == 0 ==> p == 1);
    }
    if 2 * rem > p || (2 * rem == p && q % 2 == 1) {
        (q + 1) * p
    } else {
        q * p
    }
}

} // verus!
