//! Doubles by their bit patterns, and the order among them.
use vstd::arithmetic::power2::{lemma_pow2_pos, lemma_pow2_strictly_increases, lemma_pow2_unfold, pow2};
use vstd::prelude::*;

verus! {

/// The bit that holds the sign.
pub const SIGN: u64 = 0x8000_0000_0000_0000;

/// The pattern of positive infinity; a larger magnitude is not a number.
pub const INFINITY: u64 = 0x7FF0_0000_0000_0000;

/// Two to the power 52: what one step of the exponent is worth in the
/// pattern, and the leading bit that a normal number's fraction leaves out.
pub const HIDDEN: u64 = 0x10_0000_0000_0000;

/// The pattern of zero.
pub const ZERO: u64 = 0;

/// The pattern of one.
pub const ONE: u64 = 0x3FF0_0000_0000_0000;

/// A double-precision number, held as the 64 bits of its binary64 encoding:
/// one bit of sign, eleven of exponent, fifty-two of fraction.
#[derive(Clone, Copy, Debug)]
pub struct Scalar {
    pub bits: u64,
}

impl Scalar {
    /// The double with the given pattern.
    pub open spec fn of(bits: u64) -> Scalar {
        Scalar { bits }
    }

    /// Whether the sign bit is set.
    pub open spec fn negative(self) -> bool {
        self.bits >= SIGN
    }

    /// The pattern without its sign bit.
    pub open spec fn magnitude(self) -> int {
        if self.bits >= SIGN {
            self.bits - SIGN
        } else {
            self.bits as int
        }
    }

    /// Whether the pattern stands for a number: anything up to infinity.
    pub open spec fn is_number(self) -> bool {
        self.magnitude() <= INFINITY
    }

    /// The place of a number among all of them: patterns of one sign are
    /// ordered as their magnitudes, both zeros stand at 0, and the negative
    /// numbers mirror the positive ones.
    pub open spec fn rank(self) -> int {
        if self.negative() {
            -self.magnitude()
        } else {
            self.magnitude()
        }
    }

    /// `self < other` as doubles compare: false as soon as either side is
    /// not a number.
    pub open spec fn less(self, other: Scalar) -> bool {
        self.is_number() && other.is_number() && self.rank() < other.rank()
    }

    /// `self <= other` as doubles compare.
    pub open spec fn at_most(self, other: Scalar) -> bool {
        self.is_number() && other.is_number() && self.rank() <= other.rank()
    }

    /// The eleven bits of exponent.
    pub open spec fn exponent(self) -> int {
        self.magnitude() / (HIDDEN as int)
    }

    /// The fifty-two bits of fraction.
    pub open spec fn fraction(self) -> int {
        self.magnitude() % (HIDDEN as int)
    }

    /// How large the number is, counted in steps of 2^-1074, the smallest
    /// positive double: a pattern with exponent 0 is its fraction, any other
    /// has the hidden bit before its fraction and doubles with each step of
    /// the exponent. Infinity gets what this gives for its pattern, which is
    /// above every finite size.
    pub open spec fn size(self) -> int {
        if self.exponent() == 0 {
            self.fraction()
        } else {
            (HIDDEN + self.fraction()) * pow2((self.exponent() - 1) as nat)
        }
    }

    /// The number itself in those steps, with its sign.
    pub open spec fn value(self) -> int {
        if self.negative() {
            -self.size()
        } else {
            self.size()
        }
    }

    /// The same number with the other sign.
    pub open spec fn negated(self) -> Scalar {
        if self.bits >= SIGN {
            Scalar { bits: (self.bits - SIGN) as u64 }
        } else {
            Scalar { bits: (self.bits + SIGN) as u64 }
        }
    }

    /// The double with the given pattern.
    pub fn from_bits(bits: u64) -> (s: Scalar)
        ensures
            s == Scalar::of(bits),
    {
        Scalar { bits }
    }

    /// The pattern of the double.
    pub fn to_bits(self) -> (bits: u64)
        ensures
            bits == self.bits,
    {
        self.bits
    }

    /// Negation, which flips the sign bit and touches nothing else.
    pub fn neg(self) -> (r: Scalar)
        ensures
            r == self.negated(),
    {
        if self.bits >= SIGN {
            Scalar { bits: self.bits - SIGN }
        } else {
            Scalar { bits: self.bits + SIGN }
        }
    }

    /// Whether the pattern stands for no number.
    pub fn is_nan(self) -> (r: bool)
        ensures
            r == !self.is_number(),
    {
        let magnitude: u64 = if self.bits >= SIGN {
            self.bits - SIGN
        } else {
            self.bits
        };
        magnitude > INFINITY
    }

    /// The rank as a machine integer.
    fn key(self) -> (k: i64)
        ensures
            k == self.rank(),
    {
        if self.bits >= SIGN {
            let magnitude: u64 = self.bits - SIGN;
            -(magnitude as i64)
        } else {
            self.bits as i64
        }
    }

    /// `self < other` on doubles.
    pub fn lt(self, other: Scalar) -> (r: bool)
        ensures
            r == self.less(other),
    {
        !self.is_nan() && !other.is_nan() && self.key() < other.key()
    }

    /// `self > other` on doubles.
    pub fn gt(self, other: Scalar) -> (r: bool)
        ensures
            r == other.less(self),
    {
        other.lt(self)
    }

    /// `self <= other` on doubles.
    pub fn le(self, other: Scalar) -> (r: bool)
        ensures
            r == self.at_most(other),
    {
        !self.is_nan() && !other.is_nan() && self.key() <= other.key()
    }

    /// `self >= other` on doubles.
    pub fn ge(self, other: Scalar) -> (r: bool)
        ensures
            r == other.at_most(self),
    {
        other.le(self)
    }
}

/// A larger magnitude is a larger size.
proof fn lemma_size_grows(a: Scalar, b: Scalar)
    requires
        a.magnitude() < b.magnitude(),
    ensures
        0 <= a.size() < b.size(),
{
    let h = HIDDEN as int;
    let (ea, fa) = (a.exponent(), a.fraction());
    let (eb, fb) = (b.exponent(), b.fraction());
    assert(ea <= eb && (ea == eb ==> fa < fb)) by {
        assert(a.magnitude() == h * ea + fa && b.magnitude() == h * eb + fb);
        if ea > eb {
            assert(h * ea >= h * (eb + 1)) by (nonlinear_arith)
                requires
                    ea >= eb + 1,
                    h > 0,
            ;
        }
    }
    if ea > 0 {
        lemma_pow2_pos((ea - 1) as nat);
    }
    lemma_pow2_pos((eb - 1) as nat);
    let pa = pow2((ea - 1) as nat) as int;
    let pb = pow2((eb - 1) as nat) as int;
    if ea == eb {
        if ea > 0 {
            assert((h + fa) * pa < (h + fb) * pa) by (nonlinear_arith)
                requires
                    fa < fb,
                    pa > 0,
            ;
        }
    } else if ea == 0 {
        assert(h <= (h + fb) * pb) by (nonlinear_arith)
            requires
                fb >= 0,
                pb >= 1,
                h > 0,
        ;
    } else {
        assert(2 * pa <= pb) by {
            lemma_pow2_unfold(ea as nat);
            if ea < eb - 1 {
                lemma_pow2_strictly_increases(ea as nat, (eb - 1) as nat);
            }
        }
        assert((h + fa) * pa < (h + fb) * pb) by (nonlinear_arith)
            requires
                0 <= fa < h,
                0 <= fb,
                pa > 0,
                2 * pa <= pb,
        ;
    }
    assert(a.size() >= 0) by (nonlinear_arith)
        requires
            a.size() == if ea == 0 {
                fa
            } else {
                (h + fa) * pa
            },
            fa >= 0,
            h > 0,
            ea > 0 ==> pa > 0,
    ;
}

/// Negation mirrors the order: it keeps what is a number a number, and turns
/// its rank and its value to their opposites.
pub proof fn lemma_negated_mirrors(a: Scalar)
    ensures
        a.negated().is_number() == a.is_number(),
        a.negated().rank() == -a.rank(),
        a.negated().value() == -a.value(),
        a.negated().negated() == a,
{
}

/// The rank orders the numbers as their values do: of two numbers the one
/// with the smaller value has the smaller rank, and two numbers have one rank
/// exactly when they have one value. So `less` and `at_most` are `<` and `<=`
/// on the values, and both zeros are equal.
pub proof fn lemma_rank_orders_values(a: Scalar, b: Scalar)
    ensures
        a.rank() < b.rank() <==> a.value() < b.value(),
        a.rank() == b.rank() <==> a.value() == b.value(),
{
    let zero = Scalar::of(ZERO);
    if a.magnitude() > 0 {
        lemma_size_grows(zero, a);
    }
    if b.magnitude() > 0 {
        lemma_size_grows(zero, b);
    }
    if a.magnitude() < b.magnitude() {
        lemma_size_grows(a, b);
    }
    if b.magnitude() < a.magnitude() {
        lemma_size_grows(b, a);
    }
}

} // verus!
