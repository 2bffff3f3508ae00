//! Unsigned 256-bit integers.
//!
//! A value is held as two 128-bit halves; its meaning is the natural number
//! `hi * 2^128 + lo`.  Every operation is specified on that number.

use vstd::prelude::*;
use vstd::arithmetic::div_mod::lemma_fundamental_div_mod_converse;
use vstd::arithmetic::power2::{lemma2_to64, lemma_pow2_adds, lemma_pow2_pos, lemma_pow2_unfold, pow2};

verus! {

/// `2^64`, the base in which the 128-bit halves are split for multiplication.
pub const BASE_64: u128 = 0x1_0000_0000_0000_0000;

/// `2^127`, the weight of the top bit of a 128-bit half.
pub const TOP_BIT_128: u128 = 0x8000_0000_0000_0000_0000_0000_0000_0000;

/// `2^128`.
pub open spec fn two_pow_128() -> int {
    0x1_0000_0000_0000_0000_0000_0000_0000_0000int
}

/// `2^256`, one more than the largest value of a [`U256`].
pub open spec fn two_pow_256() -> int {
    two_pow_128() * two_pow_128()
}

/// An unsigned 256-bit integer.
#[derive(Clone, Copy, Debug, PartialEq, Eq, Structural)]
pub struct U256 {
    pub hi: u128,
    pub lo: u128,
}

impl View for U256 {
    type V = nat;

    open spec fn view(&self) -> nat {
        (self.hi as int * two_pow_128() + self.lo as int) as nat
    }
}

impl From<u128> for U256 {
    fn from(value: u128) -> (r: U256) {
        U256 { hi: 0, lo: value }
    }
}

impl vstd::std_specs::convert::FromSpecImpl<u128> for U256 {
    open spec fn obeys_from_spec() -> bool {
        true
    }

    open spec fn from_spec(value: u128) -> U256 {
        U256 { hi: 0, lo: value }
    }
}

/// Two values with the same meaning are the same value.
pub proof fn lemma_view_injective(a: U256, b: U256)
    requires
        a@ == b@,
    ensures
        a == b,
{
}

/// Every value is below `2^256`.
pub proof fn lemma_view_bound(a: U256)
    ensures
        a@ < two_pow_256(),
{
    assert(a.hi as int * two_pow_128() <= (two_pow_128() - 1) * two_pow_128()) by (nonlinear_arith)
        requires
            a.hi as int <= two_pow_128() - 1,
            two_pow_128() > 0,
    ;
    assert((two_pow_128() - 1) * two_pow_128() == two_pow_256() - two_pow_128())
        by (nonlinear_arith);
}

/// The product of two 64-bit digits fits in 128 bits, with room to spare.
proof fn lemma_half_product_bound(x: int, y: int)
    requires
        0 <= x < BASE_64,
        0 <= y < BASE_64,
    ensures
        0 <= x * y <= (BASE_64 - 1) * (BASE_64 - 1),
        x * y <= u128::MAX - 2 * BASE_64 + 2,
{
    assert(0 <= x * y <= (BASE_64 - 1) * (BASE_64 - 1)) by (nonlinear_arith)
        requires
            0 <= x <= BASE_64 - 1,
            0 <= y <= BASE_64 - 1,
    ;
}

/// The product of two two-digit numbers in base `w`.
proof fn lemma_two_digit_product(a1: int, a0: int, b1: int, b0: int, w: int)
    ensures
        (a1 * w + a0) * (b1 * w + b0) == (a1 * b1) * (w * w) + (a1 * b0 + a0 * b1) * w + a0 * b0,
{
    let x = a1 * w;
    let y = b1 * w;
    assert((x + a0) * (y + b0) == x * y + x * b0 + a0 * y + a0 * b0) by (nonlinear_arith);
    assert(x * y == (a1 * b1) * (w * w)) by (nonlinear_arith)
        requires
            x == a1 * w,
            y == b1 * w,
    ;
    assert(x * b0 == (a1 * b0) * w) by (nonlinear_arith)
        requires
            x == a1 * w,
    ;
    assert(a0 * y == (a0 * b1) * w) by (nonlinear_arith)
        requires
            y == b1 * w,
    ;
    assert((a1 * b0 + a0 * b1) * w == (a1 * b0) * w + (a0 * b1) * w) by (nonlinear_arith);
}

/// Schoolbook multiplication in base `2^64`.
proof fn lemma_split_product(a0: int, a1: int, b0: int, b1: int)
    ensures
        (a1 * BASE_64 + a0) * (b1 * BASE_64 + b0) == (a1 * b1) * two_pow_128() + (a0 * b1 + a1
            * b0) * BASE_64 + a0 * b0,
{
    lemma_two_digit_product(a1, a0, b1, b0, BASE_64 as int);
}

/// What a product below `2^256` says of the halves of its factors.
proof fn lemma_product_parts(ah: int, al: int, bh: int, bl: int)
    requires
        0 <= ah < two_pow_128(),
        0 <= al < two_pow_128(),
        0 <= bh < two_pow_128(),
        0 <= bl < two_pow_128(),
        (ah * two_pow_128() + al) * (bh * two_pow_128() + bl) < two_pow_256(),
    ensures
        ah * bh == 0,
        0 <= ah * bl,
        0 <= al * bh,
        0 <= al * bl,
        (ah * two_pow_128() + al) * (bh * two_pow_128() + bl) == (ah * bl + al * bh)
            * two_pow_128() + al * bl,
        (ah * bl + al * bh) * two_pow_128() + al * bl < two_pow_256(),
        ah * bl + al * bh < two_pow_128(),
{
    let w = two_pow_128();
    lemma_two_digit_product(ah, al, bh, bl, w);
    assert(0 <= ah * bl && 0 <= al * bh && 0 <= al * bl && 0 <= ah * bh) by (nonlinear_arith)
        requires
            0 <= ah,
            0 <= al,
            0 <= bh,
            0 <= bl,
    ;
    assert(ah * bh == 0) by (nonlinear_arith)
        requires
            0 <= ah * bh,
            (ah * bh) * (w * w) + (ah * bl + al * bh) * w + al * bl < w * w,
            0 <= (ah * bl + al * bh),
            0 <= al * bl,
            w > 0,
    ;
    assert(ah * bl + al * bh < w) by (nonlinear_arith)
        requires
            (ah * bl + al * bh) * w + al * bl < w * w,
            0 <= al * bl,
            w > 0,
    ;
}

/// `2^256` as a power of two.
proof fn lemma_pow2_256()
    ensures
        pow2(0) == 1,
        pow2(256) == two_pow_256(),
{
    lemma2_to64();
    lemma_pow2_adds(64, 64);
    lemma_pow2_adds(128, 128);
}

/// One round of binary long division.
///
/// Before the round the top bits of the dividend `n` have been divided by `d`
/// into `q` and `r`, and `rest` holds the bits that remain, of which `m` is
/// the copy shifted to the top.  The round brings down the next bit `b`.
proof fn lemma_div_round(
    n: int,
    d: int,
    q: int,
    r: int,
    rest: int,
    m: int,
    pj: int,
    pk: int,
    b: int,
    m2: int,
    c: int,
    r2: int,
    take: bool,
    r3: int,
    q2: int,
    cq: int,
)
    requires
        pj >= 1,
        pk >= 1,
        pj * (2 * pk) == two_pow_256(),
        0 < d < two_pow_256(),
        0 <= r < d,
        0 <= q < pj,
        0 <= rest < 2 * pk,
        n == (q * d + r) * (2 * pk) + rest,
        m == rest * pj,
        0 <= m2 < two_pow_256(),
        0 <= b <= 1,
        2 * m == m2 + b * two_pow_256(),
        0 <= r2 < two_pow_256(),
        0 <= c <= 1,
        2 * r + b == r2 + c * two_pow_256(),
        take == (c == 1 || d <= r2),
        take && r2 >= d ==> r3 == r2 - d,
        take && r2 < d ==> r3 == r2 - d + two_pow_256(),
        !take ==> r3 == r2,
        0 <= q2 < two_pow_256(),
        0 <= cq <= 1,
        2 * q + (if take { 1int } else { 0int }) == q2 + cq * two_pow_256(),
    ensures
        0 <= rest - b * pk < pk,
        n == (q2 * d + r3) * pk + (rest - b * pk),
        m2 == (rest - b * pk) * (2 * pj),
        0 <= r3 < d,
        0 <= q2 < 2 * pj,
{
    let w = two_pow_256();
    let t: int = if take { 1 } else { 0 };
    let rest2 = rest - b * pk;
    // the shifted copy of the remaining bits
    assert(m2 == rest2 * (2 * pj)) by (nonlinear_arith)
        requires
            m == rest * pj,
            2 * m == m2 + b * w,
            pj * (2 * pk) == w,
            rest2 == rest - b * pk,
    ;
    assert(0 <= rest2 < pk) by (nonlinear_arith)
        requires
            m2 == rest2 * (2 * pj),
            0 <= m2 < w,
            pj * (2 * pk) == w,
            pj >= 1,
            pk >= 1,
    ;
    // the quotient gains one bit and stays below its bound
    assert(2 * pj <= w) by (nonlinear_arith)
        requires
            pj * (2 * pk) == w,
            pj >= 1,
            pk >= 1,
    ;
    assert(cq == 0);
    assert(q2 == 2 * q + t);
    // the remainder is reduced below the divisor again
    assert(r3 == 2 * r + b - t * d);
    assert((q2 * d + r3) == 2 * (q * d + r) + b) by (nonlinear_arith)
        requires
            q2 == 2 * q + t,
            r3 == 2 * r + b - t * d,
    ;
    assert(n == (q2 * d + r3) * pk + rest2) by (nonlinear_arith)
        requires
            n == (q * d + r) * (2 * pk) + rest,
            (q2 * d + r3) == 2 * (q * d + r) + b,
            rest2 == rest - b * pk,
    ;
}

impl U256 {
    /// The value zero.
    pub fn zero() -> (r: U256)
        ensures
            r@ == 0,
    {
        U256 { hi: 0, lo: 0 }
    }

    /// The value one.
    pub fn one() -> (r: U256)
        ensures
            r@ == 1,
    {
        U256 { hi: 0, lo: 1 }
    }

    /// The largest value, `2^256 - 1`.
    pub fn max_value() -> (r: U256)
        ensures
            r@ == two_pow_256() - 1,
    {
        let r = U256 { hi: u128::MAX, lo: u128::MAX };
        assert(r@ == two_pow_256() - 1) by (nonlinear_arith)
            requires
                r@ == (two_pow_128() - 1) * two_pow_128() + (two_pow_128() - 1),
        ;
        r
    }

    /// Widens a 128-bit value.
    pub fn from_u128(value: u128) -> (r: U256)
        ensures
            r@ == value,
    {
        U256 { hi: 0, lo: value }
    }

    /// Whether the value is zero.
    pub fn is_zero(&self) -> (r: bool)
        ensures
            r == (self@ == 0),
    {
        self.hi == 0 && self.lo == 0
    }

    /// Whether the value can be narrowed to 128 bits without loss.
    pub fn fits_u128(&self) -> (r: bool)
        ensures
            r == (self@ <= u128::MAX),
    {
        self.hi == 0
    }

    /// Narrows a value that fits in 128 bits.
    pub fn as_u128(&self) -> (r: u128)
        requires
            self@ <= u128::MAX,
        ensures
            r == self@,
    {
        self.lo
    }

    /// Strict numeric order.
    pub fn lt(&self, other: &U256) -> (r: bool)
        ensures
            r == (self@ < other@),
    {
        self.hi < other.hi || (self.hi == other.hi && self.lo < other.lo)
    }

    /// Numeric order.
    pub fn le(&self, other: &U256) -> (r: bool)
        ensures
            r == (self@ <= other@),
    {
        self.hi < other.hi || (self.hi == other.hi && self.lo <= other.lo)
    }

    /// The smaller of two values.
    pub fn min(self, other: U256) -> (r: U256)
        ensures
            r@ == if self@ <= other@ { self@ } else { other@ },
    {
        if self.le(&other) {
            self
        } else {
            other
        }
    }

    /// Sum of two values whose sum is below `2^256`.
    pub fn add(self, other: U256) -> (r: U256)
        requires
            self@ + other@ < two_pow_256(),
        ensures
            r@ == self@ + other@,
    {
        let room: u128 = u128::MAX - self.lo;
        if other.lo <= room {
            U256 { hi: self.hi + other.hi, lo: self.lo + other.lo }
        } else {
            let lo: u128 = other.lo - room - 1;
            U256 { hi: self.hi + other.hi + 1, lo }
        }
    }

    /// Difference of two values, the first being at least the second.
    pub fn sub(self, other: U256) -> (r: U256)
        requires
            self@ >= other@,
        ensures
            r@ == self@ - other@,
    {
        if self.lo >= other.lo {
            U256 { hi: self.hi - other.hi, lo: self.lo - other.lo }
        } else {
            let lo: u128 = u128::MAX - (other.lo - self.lo) + 1;
            U256 { hi: self.hi - other.hi - 1, lo }
        }
    }

    /// Difference modulo `2^256`.
    fn wrapping_sub(self, other: U256) -> (r: U256)
        ensures
            self@ >= other@ ==> r@ == self@ - other@,
            self@ < other@ ==> r@ == self@ - other@ + two_pow_256(),
    {
        if self.le(&other) && !other.le(&self) {
            // 2^256 - (other - self) = (2^256 - 1 - (other - self)) + 1
            let gap = other.sub(self);
            let below = U256::max_value().sub(gap);
            below.add(U256::one())
        } else {
            self.sub(other)
        }
    }

    /// The full product of two 128-bit values.
    pub fn full_mul(a: u128, b: u128) -> (r: U256)
        ensures
            r@ == a * b,
    {
        let a0: u128 = a % BASE_64;
        let a1: u128 = a / BASE_64;
        let b0: u128 = b % BASE_64;
        let b1: u128 = b / BASE_64;
        proof {
            lemma_half_product_bound(a0 as int, b0 as int);
            lemma_half_product_bound(a0 as int, b1 as int);
            lemma_half_product_bound(a1 as int, b0 as int);
            lemma_half_product_bound(a1 as int, b1 as int);
        }
        let low_low: u128 = a0 * b0;
        let low_high: u128 = a0 * b1;
        let high_low: u128 = a1 * b0;
        let high_high: u128 = a1 * b1;
        let cross: u128 = low_low / BASE_64 + low_high % BASE_64 + high_low % BASE_64;
        let lo: u128 = (cross % BASE_64) * BASE_64 + low_low % BASE_64;
        let hi: u128 = high_high + low_high / BASE_64 + high_low / BASE_64 + cross / BASE_64;
        proof {
            lemma_split_product(a0 as int, a1 as int, b0 as int, b1 as int);
        }
        U256 { hi, lo }
    }

    /// Product of two values whose product is below `2^256`.
    pub fn mul(self, other: U256) -> (r: U256)
        requires
            self@ * other@ < two_pow_256(),
        ensures
            r@ == self@ * other@,
    {
        proof {
            lemma_product_parts(
                self.hi as int,
                self.lo as int,
                other.hi as int,
                other.lo as int,
            );
        }
        let low = U256::full_mul(self.lo, other.lo);
        let cross_a: u128 = self.hi * other.lo;
        let cross_b: u128 = self.lo * other.hi;
        U256 { hi: low.hi + cross_a + cross_b, lo: low.lo }
    }

    /// Quotient of the division by a value other than zero, rounded down.
    pub fn div(self, other: U256) -> (r: U256)
        requires
            other@ != 0,
        ensures
            r@ == self@ / other@,
    {
        let mut quotient = U256::zero();
        let mut remainder = U256::zero();
        let mut pending = self;
        let mut done: u32 = 0;
        let ghost mut rest: int = self@ as int;
        proof {
            lemma_pow2_256();
            lemma_view_bound(self);
            assert((quotient@ * other@ + remainder@) * pow2(256) == 0) by (nonlinear_arith)
                requires
                    quotient@ == 0,
                    remainder@ == 0,
            ;
            assert(rest * pow2(0) == rest) by (nonlinear_arith)
                requires
                    pow2(0) == 1,
            ;
        }
        while done < 256
            invariant
                done <= 256,
                other@ != 0,
                0 <= rest < pow2((256 - done) as nat),
                self@ == (quotient@ * other@ + remainder@) * pow2((256 - done) as nat) + rest,
                pending@ == rest * pow2(done as nat),
                remainder@ < other@,
                quotient@ < pow2(done as nat),
            decreases 256 - done,
        {
            let (shifted, bit) = pending.shl1_carry(false);
            let (doubled, over) = remainder.shl1_carry(bit);
            let take = over || other.le(&doubled);
            let next_remainder = if take {
                doubled.wrapping_sub(other)
            } else {
                doubled
            };
            let (next_quotient, spill) = quotient.shl1_carry(take);
            proof {
                let j = done as nat;
                let k = (256 - done) as nat;
                lemma_pow2_256();
                lemma_pow2_pos(j);
                lemma_pow2_pos((k - 1) as nat);
                lemma_pow2_unfold(k);
                lemma_pow2_unfold(j + 1);
                lemma_pow2_adds(j, k);
                lemma_view_bound(shifted);
                lemma_view_bound(doubled);
                lemma_view_bound(next_quotient);
                lemma_view_bound(other);
                let b: int = if bit { 1 } else { 0 };
                lemma_div_round(
                    self@ as int,
                    other@ as int,
                    quotient@ as int,
                    remainder@ as int,
                    rest,
                    pending@ as int,
                    pow2(j) as int,
                    pow2((k - 1) as nat) as int,
                    b,
                    shifted@ as int,
                    if over { 1 } else { 0 },
                    doubled@ as int,
                    take,
                    next_remainder@ as int,
                    next_quotient@ as int,
                    if spill { 1 } else { 0 },
                );
                rest = rest - b * pow2((k - 1) as nat);
            }
            pending = shifted;
            remainder = next_remainder;
            quotient = next_quotient;
            done = done + 1;
        }
        proof {
            lemma_pow2_256();
            assert(self@ == quotient@ * other@ + remainder@) by (nonlinear_arith)
                requires
                    self@ == (quotient@ * other@ + remainder@) * pow2(0) + rest,
                    pow2(0) == 1,
                    rest == 0,
            ;
            lemma_fundamental_div_mod_converse(
                self@ as int,
                other@ as int,
                quotient@ as int,
                remainder@ as int,
            );
        }
        quotient
    }

    /// Half of the value, rounded down.
    pub fn shr1(self) -> (r: U256)
        ensures
            r@ == self@ / 2,
    {
        let carried: u128 = if self.hi % 2 == 1 { TOP_BIT_128 } else { 0 };
        U256 { hi: self.hi / 2, lo: self.lo / 2 + carried }
    }

    /// Doubles the value and adds `bit`; the second result is the bit that
    /// leaves at the top.
    fn shl1_carry(self, bit: bool) -> (r: (U256, bool))
        ensures
            2 * self@ + (if bit { 1int } else { 0int }) == r.0@ + (if r.1 { two_pow_256() } else { 0int }),
    {
        let lo_top: u128 = self.lo / TOP_BIT_128;
        let hi_top: u128 = self.hi / TOP_BIT_128;
        let low_in: u128 = if bit { 1 } else { 0 };
        let lo: u128 = (self.lo % TOP_BIT_128) * 2 + low_in;
        let hi: u128 = (self.hi % TOP_BIT_128) * 2 + lo_top;
        (U256 { hi, lo }, hi_top == 1)
    }
}

/// The product of two 128-bit values is below `2^256`.
pub proof fn lemma_product_fits(a: int, b: int)
    requires
        0 <= a < two_pow_128(),
        0 <= b < two_pow_128(),
    ensures
        0 <= a * b < two_pow_256(),
{
    assert(0 <= a * b <= (two_pow_128() - 1) * (two_pow_128() - 1)) by (nonlinear_arith)
        requires
            0 <= a <= two_pow_128() - 1,
            0 <= b <= two_pow_128() - 1,
    ;
}

/// `a * b / c` on 256-bit integers, for 128-bit `a`, `b` and a divisor
/// other than zero.
pub fn mul_div(a: u128, b: u128, c: U256) -> (r: U256)
    requires
        c@ != 0,
    ensures
        r@ == (a * b) / (c@ as int),
{
    proof {
        lemma_product_fits(a as int, b as int);
    }
    U256::from(a).mul(U256::from(b)).div(c)
}

} // verus!
