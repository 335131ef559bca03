//! Signed decimal numbers.
//!
//! A temperature is kept as a decimal number: a sign, a coefficient and a
//! power of ten. It holds every digit of the text that it was read from,
//! and two decimals are ordered by the numbers they denote.

use vstd::arithmetic::power::{lemma_pow_adds, lemma_pow_increases, lemma_pow_positive, pow};
use vstd::prelude::*;

verus! {

/// Ten to the power `n`.
pub open spec fn pow10(n: nat) -> int {
    pow(10, n)
}

/// The number `±coefficient × 10^exponent`.
///
/// Equality with `==` compares the three fields; [`Decimal::same_value`]
/// compares the numbers, so that `50` and `50.0` agree.
#[derive(Clone, Copy, Debug, PartialEq, Eq, Structural)]
pub struct Decimal {
    pub negative: bool,
    pub coefficient: u64,
    pub exponent: i32,
}

impl Decimal {
    /// The power of ten that multiplies the coefficient: `exponent` where it
    /// is positive, else zero.
    pub open spec fn up(self) -> nat {
        if self.exponent > 0 {
            self.exponent as nat
        } else {
            0
        }
    }

    /// The power of ten that divides the coefficient: `-exponent` where the
    /// exponent is negative, else zero.
    pub open spec fn down(self) -> nat {
        if self.exponent < 0 {
            (-self.exponent) as nat
        } else {
            0
        }
    }

    /// The size of the number, as a multiple of `1 / denominator()`.
    pub open spec fn magnitude(self) -> int {
        self.coefficient as int * pow10(self.up())
    }

    /// The number is `numerator() / denominator()`.
    pub open spec fn numerator(self) -> int {
        if self.negative {
            -self.magnitude()
        } else {
            self.magnitude()
        }
    }

    /// A positive power of ten.
    pub open spec fn denominator(self) -> int {
        pow10(self.down())
    }

    /// `self` denotes a smaller number than `other`.
    pub open spec fn below(self, other: Decimal) -> bool {
        self.numerator() * other.denominator() < other.numerator() * self.denominator()
    }

    /// `self` and `other` denote the same number.
    pub open spec fn same_value(self, other: Decimal) -> bool {
        self.numerator() * other.denominator() == other.numerator() * self.denominator()
    }

    /// `self` is smaller than `other` when the signs are left aside.
    pub open spec fn smaller(self, other: Decimal) -> bool {
        self.magnitude() * other.denominator() < other.magnitude() * self.denominator()
    }

    /// The number is zero.
    pub open spec fn is_zero_value(self) -> bool {
        self.coefficient == 0
    }

    /// The whole part of the number when the sign is left aside.
    pub open spec fn whole_part(self) -> int {
        self.magnitude() / self.denominator()
    }

    /// The number without its fraction, kept within -128 to 127: what a
    /// readout of whole degrees shows.
    pub open spec fn whole_degrees(self) -> int {
        if self.negative {
            if self.whole_part() > 128 {
                -128
            } else {
                -self.whole_part()
            }
        } else {
            if self.whole_part() > 127 {
                127
            } else {
                self.whole_part()
            }
        }
    }

    /// The whole number `n`.
    pub open spec fn whole(n: int) -> Decimal
        recommends
            -(u64::MAX as int) <= n <= u64::MAX as int,
    {
        Decimal {
            negative: n < 0,
            coefficient: (if n < 0 {
                -n
            } else {
                n
            }) as u64,
            exponent: 0,
        }
    }
}

/// The reading that stands for a value that could not be read: -99.
pub open spec fn sentinel_value() -> Decimal {
    Decimal { negative: true, coefficient: 99, exponent: 0 }
}

/// The powers of ten that the arithmetic of this crate meets.
pub proof fn lemma_pow10_small()
    ensures
        pow10(0) == 1,
        pow10(1) == 10,
        pow10(2) == 100,
        pow10(3) == 1_000,
        pow10(19) == 10_000_000_000_000_000_000,
        pow10(20) == 100_000_000_000_000_000_000,
        pow10(26) == 100_000_000_000_000_000_000_000_000,
        pow10(38) == 100_000_000_000_000_000_000_000_000_000_000_000_000,
{
    reveal(pow);
    assert(pow10(0) == 1);
    assert(pow10(1) == 10 * pow10(0));
    assert(pow10(2) == 10 * pow10(1));
    assert(pow10(3) == 10 * pow10(2));
    assert(pow10(4) == 10 * pow10(3));
    assert(pow10(5) == 10 * pow10(4));
    assert(pow10(6) == 10 * pow10(5));
    assert(pow10(7) == 10 * pow10(6));
    assert(pow10(8) == 10 * pow10(7));
    assert(pow10(9) == 10 * pow10(8));
    assert(pow10(10) == 10 * pow10(9));
    assert(pow10(11) == 10 * pow10(10));
    assert(pow10(12) == 10 * pow10(11));
    assert(pow10(13) == 10 * pow10(12));
    assert(pow10(14) == 10 * pow10(13));
    assert(pow10(15) == 10 * pow10(14));
    assert(pow10(16) == 10 * pow10(15));
    assert(pow10(17) == 10 * pow10(16));
    assert(pow10(18) == 10 * pow10(17));
    assert(pow10(19) == 10 * pow10(18));
    assert(pow10(20) == 10 * pow10(19));
    assert(pow10(21) == 10 * pow10(20));
    assert(pow10(22) == 10 * pow10(21));
    assert(pow10(23) == 10 * pow10(22));
    assert(pow10(24) == 10 * pow10(23));
    assert(pow10(25) == 10 * pow10(24));
    assert(pow10(26) == 10 * pow10(25));
    assert(pow10(27) == 10 * pow10(26));
    assert(pow10(28) == 10 * pow10(27));
    assert(pow10(29) == 10 * pow10(28));
    assert(pow10(30) == 10 * pow10(29));
    assert(pow10(31) == 10 * pow10(30));
    assert(pow10(32) == 10 * pow10(31));
    assert(pow10(33) == 10 * pow10(32));
    assert(pow10(34) == 10 * pow10(33));
    assert(pow10(35) == 10 * pow10(34));
    assert(pow10(36) == 10 * pow10(35));
    assert(pow10(37) == 10 * pow10(36));
    assert(pow10(38) == 10 * pow10(37));
}

/// Powers of ten are positive and grow with the exponent.
pub proof fn lemma_pow10_order(a: nat, b: nat)
    requires
        a <= b,
    ensures
        0 < pow10(a) <= pow10(b),
{
    lemma_pow_positive(10, a);
    lemma_pow_increases(10, a, b);
}

/// Ten to the power `k`, for the powers that fit in 128 bits.
pub fn power_of_ten(k: u32) -> (result: u128)
    requires
        k <= 38,
    ensures
        result == pow10(k as nat),
{
    let mut result: u128 = 1;
    let mut i: u32 = 0;
    proof {
        lemma_pow10_small();
    }
    while i < k
        invariant
            i <= k <= 38,
            result == pow10(i as nat),
        decreases k - i,
    {
        proof {
            reveal(pow);
            lemma_pow10_small();
            lemma_pow10_order((i + 1) as nat, 38);
            assert(pow10((i + 1) as nat) == 10 * pow10(i as nat));
        }
        result = result * 10;
        i += 1;
    }
    result
}

/// A positive factor on both sides leaves a comparison as it was.
proof fn lemma_cancel_factor(x: int, y: int, k: int)
    requires
        k > 0,
    ensures
        (x * k < y * k) <==> (x < y),
{
    assert((x * k < y * k) <==> (x < y)) by (nonlinear_arith)
        requires
            k > 0,
    ;
}

/// Two magnitudes are compared by bringing the one with the larger exponent
/// down to the exponent of the other.
proof fn lemma_aligned(a: Decimal, b: Decimal)
    ensures
        a.exponent >= b.exponent ==> {
            let shift = pow10((a.exponent - b.exponent) as nat);
            &&& a.smaller(b) <==> a.coefficient * shift < b.coefficient
            &&& b.smaller(a) <==> b.coefficient < a.coefficient * shift
        },
{
    if a.exponent >= b.exponent {
        let d = (a.exponent - b.exponent) as nat;
        let ca = a.coefficient as int;
        let cb = b.coefficient as int;
        let common = pow10(b.up()) * pow10(a.down());
        lemma_pow10_order(0, b.up());
        lemma_pow10_order(0, a.down());
        assert(common > 0) by (nonlinear_arith)
            requires
                common == pow10(b.up()) * pow10(a.down()),
                pow10(b.up()) > 0,
                pow10(a.down()) > 0,
        ;
        assert(a.up() + b.down() == d + (b.up() + a.down()));
        lemma_pow_adds(10, a.up(), b.down());
        lemma_pow_adds(10, b.up(), a.down());
        lemma_pow_adds(10, d, b.up() + a.down());
        assert(pow10(a.up()) * pow10(b.down()) == pow10(d) * common);
        assert(a.magnitude() * b.denominator() == (ca * pow10(d)) * common) by (nonlinear_arith)
            requires
                a.magnitude() == ca * pow10(a.up()),
                b.denominator() == pow10(b.down()),
                pow10(a.up()) * pow10(b.down()) == pow10(d) * common,
        ;
        assert(b.magnitude() * a.denominator() == cb * common) by (nonlinear_arith)
            requires
                b.magnitude() == cb * pow10(b.up()),
                a.denominator() == pow10(a.down()),
                common == pow10(b.up()) * pow10(a.down()),
        ;
        lemma_cancel_factor(ca * pow10(d), cb, common);
        lemma_cancel_factor(cb, ca * pow10(d), common);
    }
}

/// A magnitude is zero exactly when the coefficient is.
proof fn lemma_zero_magnitude(a: Decimal)
    ensures
        a.magnitude() >= 0,
        a.magnitude() == 0 <==> a.coefficient == 0,
{
    lemma_pow10_order(0, a.up());
    assert(a.magnitude() >= 0 && (a.magnitude() == 0 <==> a.coefficient == 0)) by (nonlinear_arith)
        requires
            a.magnitude() == a.coefficient as int * pow10(a.up()),
            pow10(a.up()) > 0,
            a.coefficient >= 0,
    ;
}

/// How the order of two fractions follows from their signs and magnitudes.
proof fn lemma_sign_order(ma: int, da: int, mb: int, db: int)
    requires
        ma >= 0,
        mb >= 0,
        da > 0,
        db > 0,
    ensures
        ((-ma) * db < (-mb) * da) <==> (mb * da < ma * db),
        ((-ma) * db < mb * da) <==> (ma != 0 || mb != 0),
        !(ma * db < (-mb) * da),
{
    assert(((-ma) * db < (-mb) * da) <==> (mb * da < ma * db)) by (nonlinear_arith);
    assert(((-ma) * db < mb * da) <==> (ma != 0 || mb != 0)) by (nonlinear_arith)
        requires
            ma >= 0,
            mb >= 0,
            da > 0,
            db > 0,
    ;
    assert(!(ma * db < (-mb) * da)) by (nonlinear_arith)
        requires
            ma >= 0,
            mb >= 0,
            da > 0,
            db > 0,
    ;
}

/// If one fraction is at most a second, and the second smaller than a
/// third, the first is smaller than the third.
proof fn lemma_fraction_chain(nx: int, dx: int, ny: int, dy: int, nz: int, dz: int)
    requires
        dx > 0,
        dy > 0,
        dz > 0,
        nx * dy <= ny * dx,
        ny * dz < nz * dy,
    ensures
        nx * dz < nz * dx,
{
    assert((nx * dy) * dz <= (ny * dx) * dz) by (nonlinear_arith)
        requires
            nx * dy <= ny * dx,
            dz > 0,
    ;
    assert((ny * dz) * dx < (nz * dy) * dx) by (nonlinear_arith)
        requires
            ny * dz < nz * dy,
            dx > 0,
    ;
    assert((nx * dy) * dz == (nx * dz) * dy) by (nonlinear_arith);
    assert((ny * dx) * dz == (ny * dz) * dx) by (nonlinear_arith);
    assert((nz * dy) * dx == (nz * dx) * dy) by (nonlinear_arith);
    lemma_cancel_factor(nx * dz, nz * dx, dy);
}

/// The denominators of decimals are positive.
pub proof fn lemma_denominator_positive(a: Decimal)
    ensures
        a.denominator() > 0,
{
    lemma_pow10_order(0, a.down());
}

/// No number is below itself, and of two numbers at most one is below the
/// other.
pub proof fn lemma_below_asymmetric(a: Decimal, b: Decimal)
    ensures
        !a.below(a),
        !(a.below(b) && b.below(a)),
        a.same_value(b) <==> !a.below(b) && !b.below(a),
{
}

/// Where `x` is not above `y`, and `y` is below `z`, `x` is below `z`.
pub proof fn lemma_below_chain(x: Decimal, y: Decimal, z: Decimal)
    requires
        !y.below(x),
        y.below(z),
    ensures
        x.below(z),
{
    lemma_denominator_positive(x);
    lemma_denominator_positive(y);
    lemma_denominator_positive(z);
    lemma_fraction_chain(
        x.numerator(),
        x.denominator(),
        y.numerator(),
        y.denominator(),
        z.numerator(),
        z.denominator(),
    );
}

/// `below` is transitive.
pub proof fn lemma_below_transitive(x: Decimal, y: Decimal, z: Decimal)
    requires
        x.below(y),
        y.below(z),
    ensures
        x.below(z),
{
    lemma_below_chain(x, y, z);
}

impl Decimal {
    /// Builds `±coefficient × 10^exponent`.
    pub fn new(negative: bool, coefficient: u64, exponent: i32) -> (result: Decimal)
        ensures
            result == (Decimal { negative, coefficient, exponent }),
    {
        Decimal { negative, coefficient, exponent }
    }

    /// The reading that stands for a value that could not be read: -99.
    pub fn sentinel() -> (result: Decimal)
        ensures
            result == sentinel_value(),
    {
        Decimal { negative: true, coefficient: 99, exponent: 0 }
    }

    /// The whole number of degrees `n`.
    pub fn from_whole(n: u64) -> (result: Decimal)
        ensures
            result == Decimal::whole(n as int),
    {
        Decimal { negative: false, coefficient: n, exponent: 0 }
    }

    /// Whether the number is zero.
    pub fn is_zero(&self) -> (result: bool)
        ensures
            result == self.is_zero_value(),
    {
        self.coefficient == 0
    }

    /// Whether `self` is smaller than `other` when the signs are left aside.
    pub fn is_smaller(&self, other: &Decimal) -> (result: bool)
        ensures
            result == self.smaller(*other),
    {
        proof {
            lemma_aligned(*self, *other);
            lemma_aligned(*other, *self);
            lemma_pow10_small();
        }
        if self.exponent >= other.exponent {
            let d: i64 = self.exponent as i64 - other.exponent as i64;
            if self.coefficient == 0 {
                proof {
                    assert(0 * pow10(d as nat) == 0);
                }
                other.coefficient != 0
            } else if d >= 20 {
                proof {
                    lemma_pow10_order(20, d as nat);
                    assert(self.coefficient * pow10(d as nat) >= pow10(20)) by (nonlinear_arith)
                        requires
                            self.coefficient >= 1,
                            pow10(d as nat) >= pow10(20),
                            pow10(20) > 0,
                    ;
                }
                false
            } else {
                proof {
                    lemma_pow10_order(d as nat, 19);
                }
                let shift = power_of_ten(d as u32);
                proof {
                    assert(self.coefficient * shift <= u64::MAX * u64::MAX) by (nonlinear_arith)
                        requires
                            self.coefficient <= u64::MAX,
                            0 <= shift <= u64::MAX,
                    ;
                }
                (self.coefficient as u128) * shift < other.coefficient as u128
            }
        } else {
            let d: i64 = other.exponent as i64 - self.exponent as i64;
            if other.coefficient == 0 {
                proof {
                    assert(0 * pow10(d as nat) == 0);
                }
                false
            } else if d >= 20 {
                proof {
                    lemma_pow10_order(20, d as nat);
                    assert(other.coefficient * pow10(d as nat) >= pow10(20)) by (nonlinear_arith)
                        requires
                            other.coefficient >= 1,
                            pow10(d as nat) >= pow10(20),
                            pow10(20) > 0,
                    ;
                }
                true
            } else {
                proof {
                    lemma_pow10_order(d as nat, 19);
                }
                let shift = power_of_ten(d as u32);
                proof {
                    assert(other.coefficient * shift <= u64::MAX * u64::MAX) by (nonlinear_arith)
                        requires
                            other.coefficient <= u64::MAX,
                            0 <= shift <= u64::MAX,
                    ;
                }
                (self.coefficient as u128) < (other.coefficient as u128) * shift
            }
        }
    }

    /// Whether `self` denotes a smaller number than `other`.
    pub fn is_below(&self, other: &Decimal) -> (result: bool)
        ensures
            result == self.below(*other),
    {
        proof {
            lemma_pow10_order(0, self.up());
            lemma_pow10_order(0, self.down());
            lemma_pow10_order(0, other.up());
            lemma_pow10_order(0, other.down());
            lemma_sign_order(
                self.magnitude(),
                self.denominator(),
                other.magnitude(),
                other.denominator(),
            );
            lemma_zero_magnitude(*self);
            lemma_zero_magnitude(*other);
        }
        if self.negative {
            if other.negative {
                other.is_smaller(self)
            } else {
                self.coefficient != 0 || other.coefficient != 0
            }
        } else {
            if other.negative {
                false
            } else {
                self.is_smaller(other)
            }
        }
    }

    /// Whether `self` and `other` denote the same number.
    pub fn has_same_value(&self, other: &Decimal) -> (result: bool)
        ensures
            result == self.same_value(*other),
    {
        proof {
            lemma_below_asymmetric(*self, *other);
        }
        !self.is_below(other) && !other.is_below(self)
    }

    /// Cuts the fraction off and keeps the result within -128 to 127.
    pub fn to_whole_degrees(&self) -> (result: i8)
        ensures
            result == self.whole_degrees(),
    {
        proof {
            lemma_pow10_small();
            lemma_pow10_order(0, self.up());
            lemma_pow10_order(0, self.down());
        }
        let whole: u128 = if self.exponent >= 0 {
            proof {
                assert(self.denominator() == 1);
                assert(self.whole_part() == self.magnitude()) by (nonlinear_arith)
                    requires
                        self.whole_part() == self.magnitude() / self.denominator(),
                        self.denominator() == 1,
                ;
            }
            if self.coefficient == 0 {
                proof {
                    assert(0 * pow10(self.up()) == 0);
                }
                0
            } else if self.exponent >= 3 {
                proof {
                    lemma_pow10_order(3, self.up());
                    assert(self.magnitude() >= 1000) by (nonlinear_arith)
                        requires
                            self.magnitude() == self.coefficient as int * pow10(self.up()),
                            self.coefficient >= 1,
                            pow10(self.up()) >= 1000,
                    ;
                }
                // any number beyond the range of the readout will do
                1000
            } else {
                proof {
                    lemma_pow10_order(self.up(), 3);
                    assert(self.coefficient * pow10(self.up()) <= u64::MAX * 1000)
                        by (nonlinear_arith)
                        requires
                            0 <= self.coefficient <= u64::MAX,
                            0 < pow10(self.up()) <= 1000,
                    ;
                }
                (self.coefficient as u128) * power_of_ten(self.exponent as u32)
            }
        } else {
            let places: i64 = -(self.exponent as i64);
            proof {
                assert(self.magnitude() == self.coefficient) by (nonlinear_arith)
                    requires
                        self.magnitude() == self.coefficient as int * pow10(self.up()),
                        pow10(self.up()) == 1,
                ;
            }
            if places >= 20 {
                proof {
                    lemma_pow10_order(20, places as nat);
                    assert(self.coefficient as int / pow10(places as nat) == 0)
                        by (nonlinear_arith)
                        requires
                            0 <= self.coefficient < pow10(places as nat),
                    ;
                }
                0
            } else {
                (self.coefficient as u128) / power_of_ten(places as u32)
            }
        };
        if self.negative {
            if whole > 128 {
                -128
            } else {
                (-(whole as i16)) as i8
            }
        } else {
            if whole > 127 {
                127
            } else {
                whole as i8
            }
        }
    }
}

} // verus!
