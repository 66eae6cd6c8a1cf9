//! IEEE-754 numbers as their bit patterns.
//!
//! Arithmetic on these numbers happens outside this crate. What the crate
//! itself decides — whether a number is finite, how two finite numbers are
//! ordered, how a finite number rounds up to an integer — is integer logic on
//! the bit pattern.

use vstd::arithmetic::power2::{lemma2_to64, lemma2_to64_rest, lemma_pow2_adds, lemma_pow2_pos, lemma_pow2_strictly_increases, pow2};
use vstd::prelude::*;

verus! {

/// The bit pattern of the sign bit of a 64-bit number.
pub const SIGN_64: u64 = 0x8000_0000_0000_0000;

/// The magnitude pattern of 64-bit infinity: every finite magnitude is below.
pub const INFINITE_64: u64 = 0x7ff0_0000_0000_0000;

/// The bit pattern of the 64-bit number one.
pub const ONE_64: u64 = 0x3ff0_0000_0000_0000;

/// The bit pattern of the sign bit of a 32-bit number.
pub const SIGN_32: u32 = 0x8000_0000;

/// The magnitude pattern of 32-bit infinity.
pub const INFINITE_32: u32 = 0x7f80_0000;

/// The weight of the implicit leading significand bit of a 64-bit number.
pub const LEADING_64: u64 = 0x10_0000_0000_0000;

/// A 64-bit IEEE-754 number.
#[derive(Clone, Copy, Debug, PartialEq, Eq, Hash, Structural)]
pub struct Float64 {
    /// The bit pattern.
    pub bits: u64,
}

impl Float64 {
    /// The number with its sign bit cleared, as an integer.
    pub open spec fn magnitude(self) -> int {
        if self.bits >= SIGN_64 {
            self.bits - SIGN_64
        } else {
            self.bits as int
        }
    }

    /// Whether the number is neither infinite nor NaN.
    pub open spec fn finite(self) -> bool {
        self.magnitude() < INFINITE_64
    }

    /// The rank of a finite number: the finite numbers are ordered as their
    /// ranks are, and the two zeros share the rank zero.
    pub open spec fn rank(self) -> int {
        if self.bits >= SIGN_64 {
            -self.magnitude()
        } else {
            self.magnitude()
        }
    }

    /// Whether the pattern is not a number.
    pub open spec fn nan(self) -> bool {
        self.magnitude() > INFINITE_64
    }

    /// Whether two numbers are equal: the two zeros are, and NaN equals
    /// nothing.
    pub open spec fn equals(self, other: Float64) -> bool {
        !self.nan() && !other.nan() && self.rank() == other.rank()
    }

    /// Returns whether two numbers are equal.
    pub fn is_equal(self, other: Float64) -> (res: bool)
        ensures
            res == self.equals(other),
    {
        if self.is_nan() || other.is_nan() {
            return false;
        }
        self.bits == other.bits || (self.is_zero() && other.is_zero())
    }

    /// Returns whether the pattern is not a number.
    pub fn is_nan(self) -> (res: bool)
        ensures
            res == self.nan(),
    {
        if self.bits >= SIGN_64 {
            self.bits - SIGN_64 > INFINITE_64
        } else {
            self.bits > INFINITE_64
        }
    }

    fn is_zero(self) -> (res: bool)
        ensures
            res == (self.magnitude() == 0),
    {
        self.bits == 0 || self.bits == SIGN_64
    }

    /// The number with negative zero replaced by positive zero.
    pub open spec fn canonical(self) -> Float64 {
        if self.bits == SIGN_64 {
            Float64 { bits: 0 }
        } else {
            self
        }
    }

    /// Whether the number is neither infinite nor NaN.
    pub fn is_finite(self) -> (res: bool)
        ensures
            res == self.finite(),
    {
        if self.bits >= SIGN_64 {
            self.bits - SIGN_64 < INFINITE_64
        } else {
            self.bits < INFINITE_64
        }
    }

    /// Replaces negative zero by positive zero.
    pub fn canonicalize(self) -> (res: Float64)
        ensures
            res == self.canonical(),
    {
        if self.bits == SIGN_64 {
            Float64 { bits: 0 }
        } else {
            self
        }
    }

    /// The biased exponent of a nonnegative number.
    pub open spec fn exponent(self) -> nat {
        (self.bits / LEADING_64) as nat
    }

    /// The significand of a nonnegative number, in units of the last place.
    pub open spec fn significand(self) -> nat {
        if self.exponent() == 0 {
            (self.bits % LEADING_64) as nat
        } else {
            (LEADING_64 + self.bits % LEADING_64) as nat
        }
    }

    /// Whether `ceiling` is the least integer at or above this nonnegative
    /// finite number, whose value is `significand * 2^(exponent - 1075)` with
    /// an exponent of at least one.
    pub open spec fn rounds_up_to(self, ceiling: nat) -> bool {
        let exponent = if self.exponent() == 0 {
            1
        } else {
            self.exponent()
        };
        if exponent >= 1075 {
            ceiling == self.significand() * pow2((exponent - 1075) as nat)
        } else {
            let unit = pow2((1075 - exponent) as nat);
            &&& ceiling * unit >= self.significand()
            &&& ceiling >= 1 ==> (ceiling - 1) * unit < self.significand()
        }
    }

    /// Rounds a nonnegative finite number up to an integer, when that integer
    /// is below `2^64`.
    pub fn ceil(self) -> (res: Option<u64>)
        requires
            self.finite(),
            self.bits < SIGN_64,
        ensures
            match res {
                Some(ceiling) => self.rounds_up_to(ceiling as nat),
                None => self.exponent() >= 1087,
            },
            res is Some <==> self.exponent() < 1087,
    {
        let field: u64 = self.bits / LEADING_64;
        let fraction: u64 = self.bits % LEADING_64;
        let exponent: u64 = if field == 0 { 1 } else { field };
        let significand: u64 = if field == 0 { fraction } else { LEADING_64 + fraction };
        if exponent >= 1087 {
            return None;
        }
        if exponent >= 1075 {
            let shift: u64 = exponent - 1075;
            let mut scaled: u64 = significand;
            let mut done: u64 = 0;
            proof {
                lemma2_to64();
            }
            while done < shift
                invariant
                    done <= shift < 12,
                    significand < 0x20_0000_0000_0000,
                    scaled == significand * pow2(done as nat),
                    scaled < 0x20_0000_0000_0000 * pow2(done as nat),
                decreases shift - done,
            {
                proof {
                    lemma2_to64();
                    lemma_pow2_adds(done as nat, 1);
                    lemma_pow2_strictly_increases(done as nat, 11);
                    assert(scaled < 0x20_0000_0000_0000 * pow2(done as nat));
                    assert(pow2(done as nat) <= 1024) by {
                        if done < 10 {
                            lemma_pow2_strictly_increases(done as nat, 10);
                        }
                    }
                    assert(significand * pow2(done as nat) * 2 == significand * pow2(
                        (done + 1) as nat,
                    )) by (nonlinear_arith)
                        requires
                            pow2((done + 1) as nat) == pow2(done as nat) * 2,
                    ;
                    assert(scaled * 2 < 0x20_0000_0000_0000 * pow2((done + 1) as nat))
                        by (nonlinear_arith)
                        requires
                            scaled < 0x20_0000_0000_0000 * pow2(done as nat),
                            pow2((done + 1) as nat) == pow2(done as nat) * 2,
                    ;
                }
                scaled = scaled * 2;
                done = done + 1;
            }
            Some(scaled)
        } else {
            let shift: u64 = 1075 - exponent;
            if shift >= 54 {
                proof {
                    lemma2_to64();
                    lemma_pow2_pos(shift as nat);
                    if shift > 54 {
                        lemma_pow2_strictly_increases(54, shift as nat);
                    }
                    lemma2_to64_rest();
                }
                if significand == 0 {
                    Some(0)
                } else {
                    Some(1)
                }
            } else {
                let mut unit: u64 = 1;
                let mut done: u64 = 0;
                proof {
                    lemma2_to64();
                }
                while done < shift
                    invariant
                        done <= shift < 54,
                        unit == pow2(done as nat),
                    decreases shift - done,
                {
                    proof {
                        lemma2_to64();
                        lemma2_to64_rest();
                        lemma_pow2_adds(done as nat, 1);
                        if done < 53 {
                            lemma_pow2_strictly_increases(done as nat, 53);
                        }
                    }
                    unit = unit * 2;
                    done = done + 1;
                }
                proof {
                    lemma2_to64_rest();
                    lemma_pow2_pos(shift as nat);
                    if shift < 53 {
                        lemma_pow2_strictly_increases(shift as nat, 53);
                    }
                }
                let ceiling: u64 = (significand + (unit - 1)) / unit;
                proof {
                    let s = significand as int;
                    let u = unit as int;
                    let c = ceiling as int;
                    assert(c * u >= s && (c >= 1 ==> (c - 1) * u < s)) by (nonlinear_arith)
                        requires
                            u >= 1,
                            s >= 0,
                            c == (s + (u - 1)) / u,
                    ;
                }
                Some(ceiling)
            }
        }
    }
}

/// The order of finite numbers is the order of their ranks: a number and its
/// canonical form share a rank, and finite canonical numbers of one rank are
/// the same number.
pub proof fn rank_orders_canonical_numbers(a: Float64, b: Float64)
    ensures
        a.canonical().rank() == a.rank(),
        a.rank() == b.rank() ==> a.canonical() == b.canonical(),
{
}

/// A 32-bit IEEE-754 number.
#[derive(Clone, Copy, Debug, PartialEq, Eq, Hash, Structural)]
pub struct Float32 {
    /// The bit pattern.
    pub bits: u32,
}

impl Float32 {
    /// Whether the number is neither infinite nor NaN.
    pub open spec fn finite(self) -> bool {
        if self.bits >= SIGN_32 {
            self.bits - SIGN_32 < INFINITE_32
        } else {
            self.bits < INFINITE_32
        }
    }

    /// Whether the number is neither infinite nor NaN.
    pub fn is_finite(self) -> (res: bool)
        ensures
            res == self.finite(),
    {
        if self.bits >= SIGN_32 {
            self.bits - SIGN_32 < INFINITE_32
        } else {
            self.bits < INFINITE_32
        }
    }
}

/// Whether every component of a vector is finite.
pub open spec fn all_finite(vector: Seq<Float32>) -> bool {
    forall|i: int| 0 <= i < vector.len() ==> (#[trigger] vector[i]).finite()
}

/// Returns whether every component of `vector` is finite.
pub fn vector_is_finite(vector: &Vec<Float32>) -> (res: bool)
    ensures
        res == all_finite(vector@),
{
    let mut at: usize = 0;
    while at < vector.len()
        invariant
            at <= vector@.len(),
            forall|i: int| 0 <= i < at ==> (#[trigger] vector@[i]).finite(),
        decreases vector@.len() - at,
    {
        if !vector[at].is_finite() {
            return false;
        }
        at = at + 1;
    }
    true
}

/// A finite 64-bit distance, reduced to what ranking reads: its rank.
#[derive(Clone, Copy, Debug, PartialEq, Eq, PartialOrd, Ord, Hash, Structural)]
pub struct Distance {
    /// The rank; smaller is nearer.
    pub rank: i64,
}

impl Distance {
    /// Ranks a finite distance; an infinite distance or NaN has no rank.
    pub fn new(value: Float64) -> (res: Option<Distance>)
        ensures
            res is Some <==> value.finite(),
            res matches Some(distance) ==> distance.rank == value.rank(),
    {
        if !value.is_finite() {
            return None;
        }
        if value.bits >= SIGN_64 {
            let magnitude: u64 = value.bits - SIGN_64;
            Some(Distance { rank: -(magnitude as i64) })
        } else {
            Some(Distance { rank: value.bits as i64 })
        }
    }

    /// The distance zero.
    pub fn zero() -> (res: Distance)
        ensures
            res.rank == 0,
    {
        Distance { rank: 0 }
    }
}

} // verus!
