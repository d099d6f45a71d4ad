//! Single-precision numbers as bit patterns.
//!
//! Coordinates, colours and confidences are IEEE 754 `binary32` values. The
//! library stores and compares them; it does no arithmetic on them. A value is
//! therefore kept as its bit pattern, and what a comparison means is stated over
//! the real number that the pattern encodes.
use vstd::arithmetic::power2::{lemma_pow2_adds, lemma_pow2_pos, pow2};
use vstd::prelude::*;

verus! {

/// An IEEE 754 `binary32` value, held as its bit pattern.
#[derive(Clone, Copy, Debug, PartialEq, Eq, Structural)]
pub struct Binary32 {
    pub bits: u32,
}

/// The pattern of 0.0.
pub const ZERO: u32 = 0;

/// The pattern of 1.0.
pub const ONE: u32 = 0x3F80_0000;

/// The pattern of 90.0.
pub const NINETY: u32 = 0x42B4_0000;

/// How far from zero the number is that a pattern encodes, where `m` is the pattern
/// without its sign bit. The unit is the smallest positive number, 2 to the power of
/// -149. Infinity gets 2 to the power of 277, which is beyond every finite number.
pub open spec fn distance(m: int) -> int {
    let exponent = m / 0x80_0000;
    let fraction = m % 0x80_0000;
    if exponent == 0 {
        fraction
    } else {
        (0x80_0000 + fraction) * pow2((exponent - 1) as nat)
    }
}

impl Binary32 {
    /// Whether the sign bit is set.
    pub open spec fn negative(self) -> bool {
        self.bits >= 0x8000_0000
    }

    /// The pattern without its sign bit.
    pub open spec fn magnitude(self) -> int {
        if self.negative() {
            self.bits - 0x8000_0000
        } else {
            self.bits as int
        }
    }

    /// Whether the pattern encodes no number.
    pub open spec fn is_nan(self) -> bool {
        self.magnitude() > 0x7F80_0000
    }

    /// The encoded number, in units of 2 to the power of -149, which makes it an
    /// integer. See [`distance`] on the infinities. Meaningless where there is no
    /// number.
    pub open spec fn value(self) -> int {
        if self.negative() {
            -distance(self.magnitude())
        } else {
            distance(self.magnitude())
        }
    }

    /// IEEE 754 `<`: false as soon as either side is not a number.
    pub open spec fn is_less(self, other: Self) -> bool {
        !self.is_nan() && !other.is_nan() && self.value() < other.value()
    }

    /// IEEE 754 `<=`: false as soon as either side is not a number.
    pub open spec fn is_at_most(self, other: Self) -> bool {
        !self.is_nan() && !other.is_nan() && self.value() <= other.value()
    }

    /// Position in the IEEE 754 `totalOrder`: negative NaNs, negative infinity,
    /// the negative numbers, -0, +0, the positive numbers, positive infinity,
    /// positive NaNs.
    pub open spec fn rank(self) -> int {
        if self.negative() {
            -self.magnitude() - 1
        } else {
            self.magnitude()
        }
    }

    /// Reads `self < other`.
    pub fn less(self, other: Self) -> (r: bool)
        ensures
            r == self.is_less(other),
    {
        if self.nan() || other.nan() {
            return false;
        }
        proof {
            lemma_value_order(self, other);
        }
        self.signed_magnitude() < other.signed_magnitude()
    }

    /// Reads `self <= other`.
    pub fn at_most(self, other: Self) -> (r: bool)
        ensures
            r == self.is_at_most(other),
    {
        if self.nan() || other.nan() {
            return false;
        }
        proof {
            lemma_value_order(other, self);
        }
        self.signed_magnitude() <= other.signed_magnitude()
    }

    /// Whether `self` comes before `other` in the total order.
    pub fn before(self, other: Self) -> (r: bool)
        ensures
            r == (self.rank() < other.rank()),
    {
        self.total_rank() < other.total_rank()
    }

    fn nan(self) -> (r: bool)
        ensures
            r == self.is_nan(),
    {
        if self.bits >= 0x8000_0000 {
            self.bits - 0x8000_0000 > 0x7F80_0000
        } else {
            self.bits > 0x7F80_0000
        }
    }

    fn signed_magnitude(self) -> (r: i64)
        ensures
            r == (if self.negative() { -self.magnitude() } else { self.magnitude() }),
    {
        if self.bits >= 0x8000_0000 {
            0 - (self.bits - 0x8000_0000) as i64
        } else {
            self.bits as i64
        }
    }

    fn total_rank(self) -> (r: i64)
        ensures
            r == self.rank(),
    {
        if self.bits >= 0x8000_0000 {
            -1 - (self.bits - 0x8000_0000) as i64
        } else {
            self.bits as i64
        }
    }
}

/// The distance from zero grows with the pattern.
proof fn lemma_distance_grows(m: int, n: int)
    requires
        0 <= m < n < 0x8000_0000,
    ensures
        0 <= distance(m) < distance(n),
{
    let e = m / 0x80_0000;
    let f = m % 0x80_0000;
    let g = n / 0x80_0000;
    let h = n % 0x80_0000;
    assert(m == e * 0x80_0000 + f && n == g * 0x80_0000 + h && 0 <= e <= g);
    if g == 0 {
    } else if e == g {
        let p = pow2((e - 1) as nat) as int;
        lemma_pow2_pos((e - 1) as nat);
        assert((0x80_0000 + f) * p < (0x80_0000 + h) * p && 0 <= (0x80_0000 + f) * p) by (nonlinear_arith)
            requires
                0 <= f < h,
                p > 0,
        ;
    } else {
        let q = pow2((g - 1) as nat) as int;
        lemma_pow2_pos((g - 1) as nat);
        assert((0x80_0000 + h) * q >= 0x80_0000 * q && 0x80_0000 * q >= 0x80_0000) by (nonlinear_arith)
            requires
                0 <= h,
                q >= 1,
        ;
        if e > 0 {
            let p = pow2((e - 1) as nat) as int;
            lemma_pow2_pos((e - 1) as nat);
            let k = (g - e - 1) as nat;
            lemma_pow2_pos(k);
            lemma_pow2_adds((e - 1) as nat, k);
            lemma_pow2_adds((e - 1) as nat + k, 1);
            vstd::arithmetic::power2::lemma2_to64();
            assert(((e - 1) as nat + k) as nat + 1 == (g - 1) as nat);
            assert(p * pow2(k) >= p) by (nonlinear_arith)
                requires
                    p > 0,
                    pow2(k) >= 1,
            ;
            assert(q >= 2 * p);
            assert((0x80_0000 + f) * p < 0x80_0000 * q && 0 <= (0x80_0000 + f) * p) by (nonlinear_arith)
                requires
                    0 <= f < 0x80_0000,
                    p > 0,
                    q >= 2 * p,
            ;
        }
    }
}

/// Where both sides are numbers, the order of the encoded numbers is the order of
/// the patterns read as sign and magnitude.
pub proof fn lemma_value_order(a: Binary32, b: Binary32)
    requires
        !a.is_nan(),
        !b.is_nan(),
    ensures
        a.value() < b.value() <==> (if a.negative() {
            -a.magnitude()
        } else {
            a.magnitude()
        }) < (if b.negative() {
            -b.magnitude()
        } else {
            b.magnitude()
        }),
{
    let m = a.magnitude();
    let n = b.magnitude();
    assert(distance(0) == 0);
    if m < n {
        lemma_distance_grows(m, n);
    }
    if n < m {
        lemma_distance_grows(n, m);
    }
    if 0 < m {
        lemma_distance_grows(0, m);
    }
    if 0 < n {
        lemma_distance_grows(0, n);
    }
}

/// The total order tells all patterns apart.
pub proof fn lemma_rank_tells_apart(a: Binary32, b: Binary32)
    ensures
        a.rank() == b.rank() ==> a == b,
{
}

/// Among numbers, what comes first in the total order is no greater.
pub proof fn lemma_rank_follows_value(a: Binary32, b: Binary32)
    requires
        !a.is_nan(),
        !b.is_nan(),
        a.rank() <= b.rank(),
    ensures
        a.value() <= b.value(),
        a.is_at_most(b),
{
    lemma_value_order(b, a);
}

/// The named patterns encode the numbers that they are named after.
pub proof fn lemma_named_values()
    ensures
        (Binary32 { bits: ZERO }).value() == 0,
        (Binary32 { bits: ONE }).value() == pow2(149),
        (Binary32 { bits: NINETY }).value() == 90 * pow2(149),
{
    vstd::arithmetic::power2::lemma2_to64();
    lemma_pow2_adds(23, 126);
    lemma_pow2_adds(17, 132);
    assert((Binary32 { bits: ONE }).magnitude() == 127 * 0x80_0000);
    assert((Binary32 { bits: NINETY }).magnitude() == 133 * 0x80_0000 + 0x34_0000);
    assert(pow2(149) == 0x2_0000 * pow2(132));
    assert((Binary32 { bits: NINETY }).value() == 0xB4_0000 * pow2(132));
}

/// What `less` answers, by the patterns alone. Read as a number of 31 bits, a pattern
/// without its sign bit grows with the number's distance from zero, up to infinity at
/// `0x7F80_0000`; whatever is beyond is no number and is less than nothing.
pub proof fn lemma_less_by_pattern(a: Binary32, b: Binary32, r: bool)
    requires
        call_ensures(Binary32::less, (a, b), r),
    ensures
        r <==> a.bits % 0x8000_0000 <= 0x7F80_0000 && b.bits % 0x8000_0000 <= 0x7F80_0000 && (if a.bits
            < 0x8000_0000 {
            a.bits as int
        } else {
            0x8000_0000 - a.bits
        }) < (if b.bits < 0x8000_0000 {
            b.bits as int
        } else {
            0x8000_0000 - b.bits
        }),
{
    if !a.is_nan() && !b.is_nan() {
        lemma_value_order(a, b);
    }
}

/// `at_most` is the opposite of `less` with the sides exchanged, except that it is
/// false too where either side is no number.
pub proof fn lemma_at_most_is_not_more(a: Binary32, b: Binary32, r: bool, more: bool)
    requires
        call_ensures(Binary32::at_most, (a, b), r),
        call_ensures(Binary32::less, (b, a), more),
    ensures
        r <==> !more && a.bits % 0x8000_0000 <= 0x7F80_0000 && b.bits % 0x8000_0000 <= 0x7F80_0000,
{
}

/// What `before` answers, by the patterns alone: patterns with the sign bit come
/// first and in falling order, the others follow in rising order.
pub proof fn lemma_before_by_pattern(a: Binary32, b: Binary32, r: bool)
    requires
        call_ensures(Binary32::before, (a, b), r),
    ensures
        a.bits < 0x8000_0000 && b.bits < 0x8000_0000 ==> (r <==> a.bits < b.bits),
        a.bits >= 0x8000_0000 && b.bits >= 0x8000_0000 ==> (r <==> a.bits > b.bits),
        a.bits >= 0x8000_0000 && b.bits < 0x8000_0000 ==> r,
        a.bits < 0x8000_0000 && b.bits >= 0x8000_0000 ==> !r,
{
}

/// The encoded numbers start at zero, and from one pattern to the next they grow by
/// one unit in the last place: by 1 up to exponent 1, and twice as much for every
/// further exponent. The sign bit negates them.
pub proof fn lemma_value_steps(a: Binary32, next: Binary32, negated: Binary32)
    requires
        a.bits < 0x7F80_0000,
        next.bits == a.bits + 1,
        negated.bits == a.bits + 0x8000_0000,
    ensures
        a.bits == 0 ==> a.value() == 0,
        next.value() - a.value() == pow2(
            (if a.bits < 0x80_0000 {
                0
            } else {
                a.bits as int / 0x80_0000 - 1
            }) as nat,
        ),
        negated.value() == -a.value(),
{
    let m = a.bits as int;
    let e = m / 0x80_0000;
    let f = m % 0x80_0000;
    vstd::arithmetic::power2::lemma2_to64();
    if f + 1 < 0x80_0000 {
        assert((m + 1) / 0x80_0000 == e && (m + 1) % 0x80_0000 == f + 1);
        if e > 0 {
            let p = pow2((e - 1) as nat) as int;
            assert((0x80_0000 + f + 1) * p - (0x80_0000 + f) * p == p) by (nonlinear_arith);
        }
    } else {
        assert((m + 1) / 0x80_0000 == e + 1 && (m + 1) % 0x80_0000 == 0);
        if e > 0 {
            let p = pow2((e - 1) as nat) as int;
            lemma_pow2_adds((e - 1) as nat, 1);
            assert(pow2(e as nat) == 2 * p);
            assert(0x80_0000 * (2 * p) - (0x80_0000 + 0x7F_FFFF) * p == p) by (nonlinear_arith);
        }
    }
}

} // verus!
