//! The kernel of an error diffusion: where the error of a pixel goes, and how much of it.

use vstd::prelude::*;
use vstd::arithmetic::power2::{
    lemma2_to64,
    lemma_pow2_adds,
    lemma_pow2_pos,
    lemma_pow2_strictly_increases,
    lemma_pow2_unfold,
    pow2,
};

verus! {

/// A weight: the number `mantissa * 2^exponent`, which may be negative,
/// larger than one, or a fraction.
#[derive(Clone, Copy, Debug, PartialEq, Eq, Structural)]
pub struct Weight {
    pub mantissa: i64,
    pub exponent: i32,
}

/// One entry of a kernel: the pixel at `(x + dx, y + dy)` receives the error
/// of the pixel at `(x, y)` times `weight`.
#[derive(Clone, Copy, Debug, PartialEq, Eq, Structural)]
pub struct Offset {
    pub dx: i32,
    pub dy: i32,
    pub weight: Weight,
}

/// The smallest share that one kernel entry hands on.
pub open spec fn share_min() -> int {
    -0x8000_0000
}

/// The largest share that one kernel entry hands on.
pub open spec fn share_max() -> int {
    0x7FFF_FFFF
}

/// The product of an error and a weight as an integer: exact where the
/// product is whole, else rounded to the nearest integer, a half away from zero.
pub open spec fn rounded_product(error: int, weight: Weight) -> int {
    let n = error * weight.mantissa;
    if weight.exponent >= 0 {
        n * pow2(weight.exponent as nat)
    } else {
        let unit = pow2((-weight.exponent) as nat);
        let half = pow2((-weight.exponent - 1) as nat);
        if n >= 0 {
            (n + half) / (unit as int)
        } else {
            -((-n + half) / (unit as int))
        }
    }
}

/// The share of an error that a kernel entry of the given weight hands on:
/// the rounded product, held within `share_min()..=share_max()`.
pub open spec fn share(error: int, weight: Weight) -> int {
    let exact = rounded_product(error, weight);
    if exact < share_min() {
        share_min()
    } else if exact > share_max() {
        share_max()
    } else {
        exact
    }
}

/// The powers of two that the bounds of a share rest on.
proof fn lemma_pow2_127()
    ensures
        pow2(31) == 0x8000_0000,
        pow2(126) == 0x4000_0000_0000_0000_0000_0000_0000_0000,
        pow2(127) == 0x8000_0000_0000_0000_0000_0000_0000_0000,
        pow2(128) == 0x1_0000_0000_0000_0000_0000_0000_0000_0000,
{
    lemma2_to64();
    lemma_pow2_adds(32, 30);
    lemma_pow2_adds(32, 31);
    assert(pow2(62) == 0x4000_0000_0000_0000);
    assert(pow2(63) == 0x8000_0000_0000_0000);
    lemma_pow2_adds(64, 62);
    lemma_pow2_adds(64, 63);
    lemma_pow2_adds(64, 64);
}

/// A larger exponent gives no smaller power of two.
proof fn lemma_pow2_monotonic(a: nat, b: nat)
    requires
        a <= b,
    ensures
        pow2(a) <= pow2(b),
{
    if a < b {
        lemma_pow2_strictly_increases(a, b);
    }
}

/// Two to the power `k`.
fn power_of_two(k: u32) -> (p: u128)
    requires
        k <= 127,
    ensures
        p == pow2(k as nat),
{
    let mut p: u128 = 1;
    let mut i: u32 = 0;
    proof {
        lemma2_to64();
    }
    while i < k
        invariant
            i <= k <= 127,
            p == pow2(i as nat),
        decreases k - i,
    {
        proof {
            lemma_pow2_unfold((i + 1) as nat);
            lemma_pow2_monotonic((i + 1) as nat, 127);
            lemma_pow2_127();
        }
        p = p * 2;
        i += 1;
    }
    p
}

/// The share of `error` that a kernel entry of the given weight hands on.
pub fn share_of(error: i64, weight: Weight) -> (s: i64)
    ensures
        s == share(error as int, weight),
        share_min() <= s <= share_max(),
{
    let bound: i128 = 0x8000_0000_0000_0000;
    assert(-(bound * bound) <= error as i128 * weight.mantissa as i128 <= bound * bound)
        by (nonlinear_arith)
        requires
            -bound <= error <= bound,
            -bound <= weight.mantissa <= bound,
    ;
    let n: i128 = error as i128 * weight.mantissa as i128;
    let size: u128 = if n < 0 {
        (-n) as u128
    } else {
        n as u128
    };
    let low: i64 = -0x8000_0000;
    let high: i64 = 0x7FFF_FFFF;
    proof {
        lemma_pow2_127();
    }
    if n == 0 {
        proof {
            if weight.exponent >= 0 {
                assert(0 * pow2(weight.exponent as nat) == 0) by (nonlinear_arith);
            } else {
                let unit = pow2((-weight.exponent) as nat);
                let half = pow2((-weight.exponent - 1) as nat);
                lemma_pow2_unfold((-weight.exponent) as nat);
                lemma_pow2_pos((-weight.exponent - 1) as nat);
                assert((0int + half) / (unit as int) == 0) by (nonlinear_arith)
                    requires
                        0 < half,
                        unit == 2 * half,
                ;
            }
        }
        0
    } else if weight.exponent >= 0 {
        if weight.exponent >= 31 || size >= 0x8000_0000 {
            proof {
                let scale = pow2(weight.exponent as nat);
                lemma_pow2_pos(weight.exponent as nat);
                if weight.exponent >= 31 {
                    lemma_pow2_monotonic(31, weight.exponent as nat);
                }
                assert(size * scale >= 0x8000_0000) by (nonlinear_arith)
                    requires
                        size >= 1,
                        scale >= 1,
                        size >= 0x8000_0000 || scale >= 0x8000_0000,
                ;
                if n < 0 {
                    assert(n * scale == -(size * scale)) by (nonlinear_arith)
                        requires
                            n == -size,
                    ;
                }
            }
            if n < 0 {
                low
            } else {
                high
            }
        } else {
            let scale: u128 = power_of_two(weight.exponent as u32);
            proof {
                lemma_pow2_monotonic(weight.exponent as nat, 31);
            }
            assert(size * scale < 0x8000_0000 * 0x8000_0000) by (nonlinear_arith)
                requires
                    size < 0x8000_0000,
                    scale <= 0x8000_0000,
            ;
            let product: u128 = size * scale;
            proof {
                if n < 0 {
                    assert(n * scale == -(size * scale)) by (nonlinear_arith)
                        requires
                            n == -size,
                    ;
                }
            }
            if n < 0 {
                if product >= 0x8000_0000 {
                    low
                } else {
                    -(product as i64)
                }
            } else {
                if product > 0x7FFF_FFFF {
                    high
                } else {
                    product as i64
                }
            }
        }
    } else {
        let k: i64 = -(weight.exponent as i64);
        if k >= 128 {
            proof {
                let unit = pow2(k as nat);
                let half = pow2((k - 1) as nat);
                lemma_pow2_unfold(k as nat);
                lemma_pow2_monotonic(127, (k - 1) as nat);
                assert((size + half) / (unit as int) == 0) by (nonlinear_arith)
                    requires
                        0 <= size < half,
                        unit == 2 * half,
                ;
            }
            0
        } else {
            let unit: u128 = power_of_two(k as u32);
            let half: u128 = power_of_two((k - 1) as u32);
            proof {
                lemma_pow2_monotonic((k - 1) as nat, 126);
                lemma_pow2_pos(k as nat);
            }
            let quotient: u128 = (size + half) / unit;
            if n < 0 {
                if quotient >= 0x8000_0000 {
                    low
                } else {
                    -(quotient as i64)
                }
            } else {
                if quotient > 0x7FFF_FFFF {
                    high
                } else {
                    quotient as i64
                }
            }
        }
    }
}

/// The weight that a number of the 64-bit binary interchange format stands
/// for, given by its bits: one bit of sign, eleven of exponent, 52 of
/// fraction. An infinity becomes `2^1024` with its sign, which lies beyond
/// every finite number of the format; what is not a number becomes zero.
pub open spec fn weight_of_binary64(bits: u64) -> Weight {
    let negative = bits / 0x8000_0000_0000_0000 == 1;
    let field = (bits / 0x10_0000_0000_0000) % 0x800;
    let fraction = bits % 0x10_0000_0000_0000;
    let size: int = if field == 0x7FF {
        if fraction == 0 {
            1
        } else {
            0
        }
    } else if field == 0 {
        fraction as int
    } else {
        fraction + 0x10_0000_0000_0000
    };
    let exponent: int = if field == 0x7FF {
        if fraction == 0 {
            1024
        } else {
            0
        }
    } else if field == 0 {
        -1074
    } else {
        field - 1075
    };
    Weight {
        mantissa: (if negative {
            -size
        } else {
            size
        }) as i64,
        exponent: exponent as i32,
    }
}

impl Weight {
    /// The weight that a number of the 64-bit binary interchange format
    /// stands for, given by its bits.
    pub fn from_binary64(bits: u64) -> (weight: Weight)
        ensures
            weight == weight_of_binary64(bits),
    {
        let negative = bits / 0x8000_0000_0000_0000 == 1;
        let field: u64 = (bits / 0x10_0000_0000_0000) % 0x800;
        let fraction: u64 = bits % 0x10_0000_0000_0000;
        let size: i64 = if field == 0x7FF {
            if fraction == 0 {
                1
            } else {
                0
            }
        } else if field == 0 {
            fraction as i64
        } else {
            (fraction + 0x10_0000_0000_0000) as i64
        };
        let exponent: i32 = if field == 0x7FF {
            if fraction == 0 {
                1024
            } else {
                0
            }
        } else if field == 0 {
            -1074
        } else {
            field as i32 - 1075
        };
        Weight {
            mantissa: if negative {
                -size
            } else {
                size
            },
            exponent,
        }
    }
}

} // verus!
