//! The 256-bit unsigned integer value type of the virtual machine.
//!
//! A `u256` is a value of the ring Z/2^256: every arithmetic operation
//! wraps, and division or remainder by zero yields zero (the rule of the
//! machine, not of native integers). The value is held as two 128-bit
//! halves; the contracts speak only of the mathematical value
//! [`u256::as_nat`], so the representation never shows through.

use vstd::arithmetic::div_mod::{
    lemma_basic_div, lemma_div_nonincreasing, lemma_fundamental_div_mod,
    lemma_fundamental_div_mod_converse_div, lemma_fundamental_div_mod_converse_mod,
    lemma_mod_division_less_than_divisor, lemma_mod_multiples_vanish, lemma_small_mod,
};
use vstd::arithmetic::power::pow;
use vstd::arithmetic::power2::{lemma2_to64, lemma_pow2_adds, lemma_pow2_pos, pow2};
use vstd::bits::lemma_u128_shr_is_div;
use vstd::prelude::*;

verus! {

/// 2^128, the weight of the upper half.
pub open spec fn p128() -> nat {
    0x1_00000000_00000000_00000000_00000000nat
}

/// 2^256, the modulus of all arithmetic.
pub open spec fn p256() -> nat {
    0x1_00000000_00000000_00000000_00000000_00000000_00000000_00000000_00000000nat
}

#[allow(non_camel_case_types)]
#[derive(Debug, Clone, Copy, PartialEq, Eq, Structural)]
pub struct u256 {
    upper: u128,
    lower: u128,
}

impl u256 {
    /// The mathematical value: an integer in [0, 2^256).
    pub closed spec fn as_nat(self) -> nat {
        self.upper as nat * p128() + self.lower as nat
    }

    pub proof fn lemma_as_nat_bound(self)
        ensures
            self.as_nat() < p256(),
    {
    }

    /// Two values with the same mathematical value are the same value.
    pub proof fn lemma_as_nat_injective(self, other: u256)
        ensures
            (self.as_nat() == other.as_nat()) <==> (self == other),
    {
    }

    /// The zero value, as a specification-level constant.
    pub closed spec fn spec_zero() -> u256 {
        u256 { upper: 0, lower: 0 }
    }

    /// The zero value is the value whose mathematical value is zero.
    pub proof fn lemma_spec_zero()
        ensures
            u256::spec_zero().as_nat() == 0,
    {
    }

    pub fn zero() -> (r: u256)
        ensures
            r == u256::spec_zero(),
            r.as_nat() == 0,
    {
        u256 { upper: 0, lower: 0 }
    }

    pub fn one() -> (r: u256)
        ensures
            r.as_nat() == 1,
    {
        u256 { upper: 0, lower: 1 }
    }

    pub fn max() -> (r: u256)
        ensures
            r.as_nat() == p256() - 1,
    {
        u256 { upper: u128::MAX, lower: u128::MAX }
    }

    pub fn from_u8(lower: u8) -> (r: u256)
        ensures
            r.as_nat() == lower as nat,
    {
        u256 { upper: 0, lower: lower as u128 }
    }

    pub fn from_u128(lower: u128) -> (r: u256)
        ensures
            r.as_nat() == lower as nat,
    {
        u256 { upper: 0, lower }
    }

    pub fn from_u128s(upper: u128, lower: u128) -> (r: u256)
        ensures
            r.as_nat() == upper as nat * p128() + lower as nat,
    {
        u256 { upper, lower }
    }

    /// Wrapping addition on the ring.
    pub fn add(self, rhs: u256) -> (r: u256)
        ensures
            r.as_nat() == (self.as_nat() + rhs.as_nat()) % p256(),
    {
        let lower = self.lower.wrapping_add(rhs.lower);
        let carry: u128 = if lower < self.lower {
            1
        } else {
            0
        };
        let upper = self.upper.wrapping_add(rhs.upper).wrapping_add(carry);
        proof {
            assert(lower as int + carry as int * p128() == self.lower as int + rhs.lower as int);
            assert(upper as int == (self.upper as int + rhs.upper as int + carry as int) % (
            p128() as int));
            lemma_mod_split(self.upper as int + rhs.upper as int + carry as int, lower as int);
        }
        u256 { upper, lower }
    }

    /// Wrapping subtraction on the ring.
    pub fn sub(self, rhs: u256) -> (r: u256)
        ensures
            r.as_nat() == (self.as_nat() - rhs.as_nat()) % (p256() as int),
    {
        let lower = self.lower.wrapping_sub(rhs.lower);
        let borrow: u128 = if self.lower < rhs.lower {
            1
        } else {
            0
        };
        let upper = self.upper.wrapping_sub(rhs.upper).wrapping_sub(borrow);
        proof {
            assert(lower as int == self.lower as int - rhs.lower as int + borrow as int * p128());
            assert(upper as int == (self.upper as int - rhs.upper as int - borrow as int) % (
            p128() as int));
            lemma_mod_split(self.upper as int - rhs.upper as int - borrow as int, lower as int);
            assert((self.upper as int - rhs.upper as int - borrow as int) * p128() + lower as int
                == self.as_nat() - rhs.as_nat()) by {
                lemma_mul_sub_distribute(
                    self.upper as int - rhs.upper as int - borrow as int,
                    p128() as int,
                );
            }
        }
        u256 { upper, lower }
    }

    /// The single comparison primitive: strictly-less when `equal` is
    /// false, less-or-equal when `equal` is true.
    pub fn less_than(&self, other: &Self, equal: bool) -> (r: bool)
        ensures
            r == if equal {
                self.as_nat() <= other.as_nat()
            } else {
                self.as_nat() < other.as_nat()
            },
    {
        if self.upper < other.upper {
            true
        } else if self.upper > other.upper {
            false
        } else if self.lower < other.lower {
            true
        } else if self.lower > other.lower {
            false
        } else {
            equal
        }
    }

    /// Bitwise complement; as a ring value, `2^256 - 1 - x`.
    pub fn not(self) -> (r: u256)
        ensures
            r == self.spec_not(),
            r.as_nat() == p256() - 1 - self.as_nat(),
    {
        let u = self.upper;
        let l = self.lower;
        let upper = !u;
        let lower = !l;
        proof {
            assert(!u == u128::MAX - u) by (bit_vector);
            assert(!l == u128::MAX - l) by (bit_vector);
        }
        u256 { upper, lower }
    }
}

impl u256 {
    /// What bitwise complement returns.
    pub closed spec fn spec_not(self) -> u256 {
        u256 { upper: !self.upper, lower: !self.lower }
    }

    /// What bitwise conjunction returns.
    pub closed spec fn spec_and(self, rhs: u256) -> u256 {
        u256 { upper: self.upper & rhs.upper, lower: self.lower & rhs.lower }
    }

    /// What bitwise disjunction returns.
    pub closed spec fn spec_or(self, rhs: u256) -> u256 {
        u256 { upper: self.upper | rhs.upper, lower: self.lower | rhs.lower }
    }

    /// What bitwise exclusive-or returns.
    pub closed spec fn spec_xor(self, rhs: u256) -> u256 {
        u256 { upper: self.upper ^ rhs.upper, lower: self.lower ^ rhs.lower }
    }

    /// Bitwise conjunction.
    pub fn and(self, rhs: u256) -> (r: u256)
        ensures
            r == self.spec_and(rhs),
    {
        u256 { upper: self.upper & rhs.upper, lower: self.lower & rhs.lower }
    }

    /// Bitwise disjunction.
    pub fn or(self, rhs: u256) -> (r: u256)
        ensures
            r == self.spec_or(rhs),
    {
        u256 { upper: self.upper | rhs.upper, lower: self.lower | rhs.lower }
    }

    /// Bitwise exclusive-or.
    pub fn xor(self, rhs: u256) -> (r: u256)
        ensures
            r == self.spec_xor(rhs),
    {
        u256 { upper: self.upper ^ rhs.upper, lower: self.lower ^ rhs.lower }
    }

    /// Wrapping multiplication on the ring.
    pub fn mul(self, rhs: u256) -> (r: u256)
        ensures
            r.as_nat() == (self.as_nat() * rhs.as_nat()) % p256(),
    {
        let au = self.upper;
        let al = self.lower;
        let bu = rhs.upper;
        let bl = rhs.lower;
        let (hi, lo) = mul_128_full(al, bl);
        let c1 = al.wrapping_mul(bu);
        let c2 = au.wrapping_mul(bl);
        let upper = hi.wrapping_add(c1).wrapping_add(c2);
        proof {
            let p = p128() as int;
            let cross = al as int * bu as int + au as int * bl as int;
            assert(upper as int == (hi as int + cross) % p) by {
                assert(c1 as int == (al as int * bu as int) % p);
                assert(c2 as int == (au as int * bl as int) % p);
                vstd::arithmetic::div_mod::lemma_add_mod_noop(
                    al as int * bu as int,
                    au as int * bl as int,
                    p,
                );
                vstd::arithmetic::div_mod::lemma_add_mod_noop_right(hi as int, cross, p);
                assert((hi as int + (c1 as int + c2 as int)) % p == (hi as int + cross) % p) by {
                    vstd::arithmetic::div_mod::lemma_add_mod_noop_right(
                        hi as int,
                        c1 as int + c2 as int,
                        p,
                    );
                    assert((c1 as int + c2 as int) % p == cross % p);
                }
            }
            let x = au as int * bu as int * p + cross + hi as int;
            assert(self.as_nat() * rhs.as_nat() == x * p + lo as int) by {
                lemma_product_expand(au as int, al as int, bu as int, bl as int, p);
                lemma_four_way_distribute(
                    au as int * bu as int * p,
                    al as int * bu as int,
                    au as int * bl as int,
                    hi as int,
                    p,
                );
                vstd::arithmetic::mul::lemma_mul_is_associative(au as int * bu as int, p, p);
            }
            lemma_mod_split(x, lo as int);
            lemma_mod_multiples_vanish(au as int * bu as int, cross + hi as int, p);
            assert(x % p == (hi as int + cross) % p);
        }
        u256 { upper, lower: lo }
    }
}

/// The full 256-bit product of two 128-bit values, as a (high, low) pair.
fn mul_128_full(x: u128, y: u128) -> (r: (u128, u128))
    ensures
        r.0 as nat * p128() + r.1 as nat == x as nat * y as nat,
{
    let p64: u128 = 0x1_0000_0000_0000_0000;
    let x1 = x / p64;
    let x0 = x % p64;
    let y1 = y / p64;
    let y0 = y % p64;
    proof {
        lemma_64_bound(x0 as int, y0 as int, p64 as int);
        lemma_64_bound(x1 as int, y0 as int, p64 as int);
        lemma_64_bound(x0 as int, y1 as int, p64 as int);
        lemma_64_bound(x1 as int, y1 as int, p64 as int);
    }
    let c = x0 * y0;
    let s1 = x1 * y0;
    let s2 = x0 * y1;
    let h = x1 * y1;
    let m = c / p64 + s1 % p64 + s2 % p64;
    let lo = c % p64 + (m % p64) * p64;
    let hi = h + s1 / p64 + s2 / p64 + m / p64;
    proof {
        let p = p64 as int;
        let pp = p * p;
        assert(pp == p128());
        lemma_fundamental_div_mod(c as int, p);
        lemma_fundamental_div_mod(s1 as int, p);
        lemma_fundamental_div_mod(s2 as int, p);
        lemma_fundamental_div_mod(m as int, p);
        lemma_decomp_scale(s1 as int, s1 as int / p, s1 as int % p, p);
        lemma_decomp_scale(s2 as int, s2 as int / p, s2 as int % p, p);
        lemma_decomp_scale(m as int, m as int / p, m as int % p, p);
        lemma_four_way_distribute(
            h as int,
            s1 as int / p,
            s2 as int / p,
            m as int / p,
            pp,
        );
        lemma_four_way_distribute(c as int / p, s1 as int % p, s2 as int % p, 0, p);
        assert(hi as int * pp + lo as int == h as int * pp + s1 as int * p + s2 as int * p
            + c as int);
        lemma_product_expand(x1 as int, x0 as int, y1 as int, y0 as int, p);
        vstd::arithmetic::mul::lemma_mul_is_associative(x1 as int * y1 as int, p, p);
        assert(x as int * y as int == h as int * pp + s1 as int * p + s2 as int * p + c as int);
    }
    (hi, lo)
}

/// Expanding the product of two two-half values.
proof fn lemma_product_expand(au: int, al: int, bu: int, bl: int, p: int)
    ensures
        (au * p + al) * (bu * p + bl) == (au * bu * p) * p + al * bu * p + au * bl * p + al * bl,
{
    broadcast use vstd::arithmetic::mul::group_mul_properties;

    assert((au * p + al) * (bu * p + bl) == (au * p) * (bu * p) + al * (bu * p) + (au * p) * bl
        + al * bl);
    assert((au * p) * (bu * p) == (au * bu * p) * p) by (nonlinear_arith);
    assert(al * (bu * p) == al * bu * p) by (nonlinear_arith);
    assert((au * p) * bl == au * bl * p) by (nonlinear_arith);
}

/// Scaling a quotient-remainder decomposition by the divisor.
proof fn lemma_decomp_scale(t: int, td: int, tm: int, p: int)
    requires
        t == p * td + tm,
    ensures
        t * p == td * (p * p) + tm * p,
{
    broadcast use vstd::arithmetic::mul::group_mul_properties;

    assert((p * td) * p == td * (p * p)) by (nonlinear_arith);
}

/// Distributing a multiplication over a four-way sum.
#[verifier::nonlinear]
proof fn lemma_four_way_distribute(a: int, b: int, c: int, d: int, p: int)
    ensures
        (a + b + c + d) * p == a * p + b * p + c * p + d * p,
{
}

/// The product of two values below 2^64 is at most (2^64 - 1)^2.
proof fn lemma_64_bound(a: int, b: int, p: int)
    requires
        0 <= a < p,
        0 <= b < p,
    ensures
        0 <= a * b <= (p - 1) * (p - 1),
{
    assert(0 <= a * b <= (p - 1) * (p - 1)) by (nonlinear_arith)
        requires
            0 <= a < p,
            0 <= b < p,
    ;
}

impl PartialOrd for u256 {
    /// The unsigned total order, for `<` and friends; the signed
    /// comparisons go through [`u256::signed_less_than`] instead.
    fn partial_cmp(&self, other: &Self) -> (r: Option<core::cmp::Ordering>) {
        if self.less_than(other, false) {
            Some(core::cmp::Ordering::Less)
        } else if other.less_than(self, false) {
            Some(core::cmp::Ordering::Greater)
        } else {
            Some(core::cmp::Ordering::Equal)
        }
    }
}

impl vstd::std_specs::cmp::PartialOrdSpecImpl for u256 {
    open spec fn obeys_partial_cmp_spec() -> bool {
        true
    }

    open spec fn partial_cmp_spec(&self, other: &Self) -> Option<core::cmp::Ordering> {
        if self.as_nat() < other.as_nat() {
            Some(core::cmp::Ordering::Less)
        } else if self.as_nat() == other.as_nat() {
            Some(core::cmp::Ordering::Equal)
        } else {
            Some(core::cmp::Ordering::Greater)
        }
    }
}

/// The absolute value of an integer.
pub open spec fn int_abs(a: int) -> int {
    if a >= 0 {
        a
    } else {
        -a
    }
}

/// Signed division as the machine rounds it: toward zero.
pub open spec fn truncated_div(a: int, b: int) -> int {
    if (a >= 0) == (b >= 0) {
        int_abs(a) / int_abs(b)
    } else {
        -(int_abs(a) / int_abs(b))
    }
}

/// Signed remainder as the machine takes it: with the dividend's sign.
pub open spec fn truncated_rem(a: int, b: int) -> int {
    if a >= 0 {
        int_abs(a) % int_abs(b)
    } else {
        -(int_abs(a) % int_abs(b))
    }
}

/// Whether bit `i` (least significant bit first) of `a` is set.
pub open spec fn nth_bit(a: nat, i: nat) -> bool {
    (a / pow2(i)) % 2 == 1
}

impl u256 {
    /// Whether the value is zero.
    pub fn is_zero(&self) -> (r: bool)
        ensures
            r == (self.as_nat() == 0),
    {
        self.upper == 0 && self.lower == 0
    }

    /// The value as a `usize`, where it fits.
    pub fn try_to_usize(&self) -> (r: Option<usize>)
        ensures
            r is Some <==> self.as_nat() <= usize::MAX,
            r matches Some(v) ==> v as nat == self.as_nat(),
    {
        if self.upper == 0 && self.lower <= usize::MAX as u128 {
            Some(self.lower as usize)
        } else {
            None
        }
    }

    /// The value reinterpreted as two's complement: an integer in
    /// [-2^255, 2^255).
    pub open spec fn as_int(self) -> int {
        if self.as_nat() >= p256() / 2 {
            self.as_nat() - p256()
        } else {
            self.as_nat() as int
        }
    }

    /// Whether the value is negative under the signed reading.
    pub fn is_negative(&self) -> (r: bool)
        ensures
            r == (self.as_int() < 0),
    {
        self.upper >= 0x80000000_00000000_00000000_00000000u128
    }

    /// The signed magnitude: `|as_int|`, as a ring value. The one value
    /// that is its own negation, -2^255, keeps its bit pattern.
    fn magnitude(self) -> (r: u256)
        ensures
            r.as_nat() == int_abs(self.as_int()),
    {
        if self.is_negative() {
            proof {
                let a = self.as_nat() as int;
                lemma_fundamental_div_mod_converse_mod(0 - a, p256() as int, -1, p256() - a);
            }
            u256::zero().sub(self)
        } else {
            self
        }
    }

    /// Signed division, truncating toward zero; division by zero gives
    /// zero, and -2^255 / -1 wraps back to -2^255.
    pub fn sdiv(self, rhs: u256) -> (r: u256)
        ensures
            rhs.as_nat() == 0 ==> r.as_nat() == 0,
            rhs.as_nat() != 0 ==> r.as_nat() == truncated_div(self.as_int(), rhs.as_int()) % (
            p256() as int),
    {
        if rhs.is_zero() {
            return u256::zero();
        }
        let mag_self = self.magnitude();
        let mag_rhs = rhs.magnitude();
        let q = mag_self.div(mag_rhs);
        proof {
            q.lemma_as_nat_bound();
        }
        if self.is_negative() != rhs.is_negative() {
            u256::zero().sub(q)
        } else {
            proof {
                lemma_small_mod(q.as_nat(), p256());
            }
            q
        }
    }

    /// Signed remainder, with the sign of the dividend; a zero divisor
    /// gives zero.
    pub fn smod(self, rhs: u256) -> (r: u256)
        ensures
            rhs.as_nat() == 0 ==> r.as_nat() == 0,
            rhs.as_nat() != 0 ==> r.as_nat() == truncated_rem(self.as_int(), rhs.as_int()) % (
            p256() as int),
    {
        if rhs.is_zero() {
            return u256::zero();
        }
        let mag_self = self.magnitude();
        let mag_rhs = rhs.magnitude();
        let m = mag_self.rem(mag_rhs);
        proof {
            m.lemma_as_nat_bound();
        }
        if self.is_negative() {
            u256::zero().sub(m)
        } else {
            proof {
                lemma_small_mod(m.as_nat(), p256());
            }
            m
        }
    }

    /// Signed comparison: whether this value is below the other under
    /// the two's-complement reading.
    pub fn signed_less_than(&self, other: &Self) -> (r: bool)
        ensures
            r == (self.as_int() < other.as_int()),
    {
        let neg_self = self.is_negative();
        let neg_other = other.is_negative();
        if neg_self != neg_other {
            neg_self
        } else {
            self.less_than(other, false)
        }
    }

    /// The power of two with exponent `k`, as a value of the ring.
    pub fn power_of_two(k: usize) -> (r: u256)
        requires
            k < 256,
        ensures
            r.as_nat() == pow2(k as nat),
    {
        let mut r = u256::one();
        let mut i: usize = 0;
        proof {
            lemma2_to64();
        }
        while i < k
            invariant
                i <= k,
                k < 256,
                r.as_nat() == pow2(i as nat),
            decreases k - i,
        {
            proof {
                vstd::arithmetic::power2::lemma_pow2_unfold((i + 1) as nat);
                lemma_pow2_constants();
                vstd::arithmetic::power2::lemma_pow2_strictly_increases((i + 1) as nat, 256);
                lemma_small_mod(2 * pow2(i as nat), p256());
            }
            r = r.add(r);
            i = i + 1;
        }
        r
    }

    /// The sum modulo `n` of two values already below `n`; the true sum
    /// may not fit the ring, so the carry bit is tracked by hand.
    fn add_mod_bounded(self, rhs: u256, n: u256) -> (r: u256)
        requires
            self.as_nat() < n.as_nat(),
            rhs.as_nat() < n.as_nat(),
        ensures
            r.as_nat() == (self.as_nat() + rhs.as_nat()) % n.as_nat(),
    {
        let ghost t = self.as_nat() + rhs.as_nat();
        let s = self.add(rhs);
        let carry = s.less_than(&self, false);
        proof {
            n.lemma_as_nat_bound();
            if t < p256() {
                lemma_small_mod(t, p256());
            } else {
                lemma_fundamental_div_mod_converse_mod(t as int, p256() as int, 1, t - p256());
            }
            assert(s.as_nat() + (if carry {
                p256() as int
            } else {
                0
            }) == t);
        }
        if carry || !s.less_than(&n, false) {
            let r = s.sub(n);
            proof {
                if carry {
                    lemma_fundamental_div_mod_converse_mod(
                        s.as_nat() - n.as_nat(),
                        p256() as int,
                        -1,
                        t - n.as_nat(),
                    );
                } else {
                    lemma_small_mod((t - n.as_nat()) as nat, p256());
                }
                lemma_fundamental_div_mod_converse_mod(t as int, n.as_nat() as int, 1, t - n.as_nat());
            }
            r
        } else {
            proof {
                lemma_small_mod(t, n.as_nat());
            }
            s
        }
    }

    /// ADDMOD's arithmetic: the sum of two values modulo `n`, taken over
    /// the true sum rather than the wrapped one; a zero modulus gives
    /// zero.
    pub fn add_mod(self, rhs: u256, n: u256) -> (r: u256)
        ensures
            n.as_nat() == 0 ==> r.as_nat() == 0,
            n.as_nat() != 0 ==> r.as_nat() == (self.as_nat() + rhs.as_nat()) % n.as_nat(),
    {
        if n.is_zero() {
            return u256::zero();
        }
        let a = self.rem(n);
        let b = rhs.rem(n);
        proof {
            lemma_mod_division_less_than_divisor(self.as_nat() as int, n.as_nat() as int);
            lemma_mod_division_less_than_divisor(rhs.as_nat() as int, n.as_nat() as int);
            vstd::arithmetic::div_mod::lemma_add_mod_noop(
                self.as_nat() as int,
                rhs.as_nat() as int,
                n.as_nat() as int,
            );
        }
        a.add_mod_bounded(b, n)
    }

    /// MULMOD's arithmetic: the product of two values modulo `n`, taken
    /// over the true 512-bit product, by binary double-and-add; a zero
    /// modulus gives zero.
    pub fn mul_mod(self, rhs: u256, n: u256) -> (r: u256)
        ensures
            n.as_nat() == 0 ==> r.as_nat() == 0,
            n.as_nat() != 0 ==> r.as_nat() == (self.as_nat() * rhs.as_nat()) % n.as_nat(),
    {
        if n.is_zero() {
            return u256::zero();
        }
        let ghost an = self.as_nat();
        let ghost nn = n.as_nat();
        let b = rhs.rem(n);
        let ghost bn = b.as_nat();
        let mut acc = u256::zero();
        let mut i: usize = 0;
        proof {
            lemma_pow2_constants();
            lemma_basic_div(an as int, pow2(256) as int);
            lemma_small_mod(0, nn);
            assert(0nat * bn == 0) by (nonlinear_arith);
        }
        while i < 256
            invariant
                i <= 256,
                an == self.as_nat(),
                nn == n.as_nat(),
                nn > 0,
                bn == b.as_nat(),
                bn < nn,
                acc.as_nat() == ((an / pow2((256 - i) as nat)) * bn) % nn,
            decreases 256 - i,
        {
            let ghost k = (256 - i) as nat;
            let ghost prefix: nat = an / pow2(k);
            let bit = self.bit(255 - i);
            let ghost bitn: nat = if bit {
                1nat
            } else {
                0nat
            };
            let ghost prefix2: nat = an / pow2((k - 1) as nat);
            proof {
                lemma_prefix_step(an, k);
                assert((k - 1) as nat == (255 - i) as nat);
                assert(prefix2 == 2 * prefix + bitn);
                lemma_mod_division_less_than_divisor((prefix * bn) as int, nn as int);
            }
            acc = acc.add_mod_bounded(acc, n);
            proof {
                vstd::arithmetic::div_mod::lemma_add_mod_noop(
                    (prefix * bn) as int,
                    (prefix * bn) as int,
                    nn as int,
                );
                assert(prefix * bn + prefix * bn == (2 * prefix) * bn) by (nonlinear_arith);
                assert(acc.as_nat() == ((2 * prefix) * bn) % nn);
                lemma_mod_division_less_than_divisor(((2 * prefix) * bn) as int, nn as int);
            }
            if bit {
                acc = acc.add_mod_bounded(b, n);
                proof {
                    vstd::arithmetic::div_mod::lemma_add_mod_noop(
                        ((2 * prefix) * bn) as int,
                        bn as int,
                        nn as int,
                    );
                    lemma_small_mod(bn, nn);
                    assert((2 * prefix) * bn + bn == (2 * prefix + 1) * bn) by (nonlinear_arith);
                    assert(acc.as_nat() == ((2 * prefix + 1) * bn) % nn);
                }
            }
            proof {
                assert(acc.as_nat() == (prefix2 * bn) % nn);
                assert((256 - (i + 1)) as nat == (k - 1) as nat);
            }
            i = i + 1;
        }
        proof {
            assert(pow2(0) == 1) by {
                lemma2_to64();
            }
            lemma_div_basics_self(an as int);
            vstd::arithmetic::div_mod::lemma_mul_mod_noop_right(
                an as int,
                rhs.as_nat() as int,
                nn as int,
            );
            lemma_small_mod(bn, nn);
        }
        acc
    }

    /// Sign extension: reads `self` as a signed integer of `i + 1`
    /// bytes and widens it to the full 256 bits; an index of 31 or more
    /// leaves the value unchanged.
    pub fn sign_extend(self, i: u256) -> (r: u256)
        ensures
            i.as_nat() >= 31 ==> r == self,
            i.as_nat() < 31 ==> r.as_nat() as int == ({
                let m = (8 * (i.as_nat() + 1)) as nat;
                if nth_bit(self.as_nat(), (m - 1) as nat) {
                    self.as_nat() % pow2(m) + p256() - pow2(m)
                } else {
                    (self.as_nat() % pow2(m)) as int
                }
            }),
    {
        let index = match i.try_to_usize() {
            Some(v) => {
                if v < 31 {
                    v
                } else {
                    return self;
                }
            },
            None => {
                return self;
            },
        };
        let m = 8 * (index + 1);
        let power = u256::power_of_two(m);
        proof {
            lemma_pow2_constants();
            lemma_pow2_pos(m as nat);
            vstd::arithmetic::power2::lemma_pow2_strictly_increases(m as nat, 256);
        }
        let low = self.rem(power);
        if self.bit(m - 1) {
            let fill = u256::max().sub(power.sub(u256::one()));
            proof {
                lemma_small_mod((pow2(m as nat) - 1) as nat, p256());
                lemma_small_mod((p256() - pow2(m as nat)) as nat, p256());
                lemma_mod_division_less_than_divisor(self.as_nat() as int, power.as_nat() as int);
                lemma_small_mod((low.as_nat() + (p256() - pow2(m as nat))) as nat, p256());
            }
            low.add(fill)
        } else {
            low
        }
    }

    /// Exponentiation on the ring: `self` to the power `e`, modulo
    /// 2^256, by binary square-and-multiply over the exponent's bits.
    pub fn exp(self, e: u256) -> (r: u256)
        ensures
            r.as_nat() as int == pow(self.as_nat() as int, e.as_nat()) % (p256() as int),
    {
        let ghost base = self.as_nat() as int;
        let ghost en = e.as_nat();
        let mut acc = u256::one();
        let mut i: usize = 0;
        proof {
            lemma_pow2_constants();
            lemma_basic_div(en as int, pow2(256) as int);
            vstd::arithmetic::power::lemma_pow0(base);
            lemma_small_mod(1, p256());
        }
        while i < 256
            invariant
                i <= 256,
                base == self.as_nat() as int,
                en == e.as_nat(),
                acc.as_nat() as int == pow(base, en / pow2((256 - i) as nat)) % (p256() as int),
            decreases 256 - i,
        {
            let ghost k = (256 - i) as nat;
            let ghost prefix = en / pow2(k);
            let ghost m = p256() as int;
            let b = e.bit(255 - i);
            let ghost bitv: nat = if b {
                1nat
            } else {
                0nat
            };
            proof {
                lemma_prefix_step(en, k);
                assert(en / pow2((k - 1) as nat) == 2 * prefix + bitv);
            }
            acc = acc.mul(acc);
            proof {
                vstd::arithmetic::div_mod::lemma_mul_mod_noop(
                    pow(base, prefix),
                    pow(base, prefix),
                    m,
                );
                vstd::arithmetic::power::lemma_pow_adds(base, prefix, prefix);
                assert(acc.as_nat() as int == pow(base, prefix + prefix) % m);
            }
            if b {
                acc = acc.mul(self);
                proof {
                    vstd::arithmetic::div_mod::lemma_mul_mod_noop_left(
                        pow(base, prefix + prefix),
                        base,
                        m,
                    );
                    vstd::arithmetic::power::lemma_pow_adds(base, prefix + prefix, 1);
                    vstd::arithmetic::power::lemma_pow1(base);
                    assert(acc.as_nat() as int == pow(base, prefix + prefix + 1) % m);
                }
            }
            i = i + 1;
        }
        proof {
            assert(pow2(0) == 1) by {
                lemma2_to64();
            }
            lemma_div_basics_self(en as int);
        }
        acc
    }

    /// Arithmetic shift right: the two's-complement value divided by
    /// 2^shift, rounding toward minus infinity; a shift of 256 or more
    /// leaves zero for a nonnegative value and all ones for a negative
    /// one.
    pub fn sar(self, shift: u256) -> (r: u256)
        ensures
            shift.as_nat() >= 256 ==> r.as_nat() == (if self.as_int() < 0 {
                (p256() - 1) as nat
            } else {
                0nat
            }),
            shift.as_nat() < 256 ==> r.as_nat() as int == (self.as_int() / (pow2(
                shift.as_nat(),
            ) as int)) % (p256() as int),
    {
        let k = match shift.try_to_usize() {
            Some(k) => {
                if k < 256 {
                    k
                } else {
                    return self.sar_saturated();
                }
            },
            None => {
                return self.sar_saturated();
            },
        };
        if k == 0 {
            proof {
                lemma2_to64();
                assert(self.as_int() == self.as_int() * 1 + 0) by (nonlinear_arith);
                lemma_fundamental_div_mod_converse_div(self.as_int(), 1, self.as_int(), 0);
                if self.as_int() < 0 {
                    lemma_fundamental_div_mod_converse_mod(
                        self.as_int(),
                        p256() as int,
                        -1,
                        self.as_nat() as int,
                    );
                } else {
                    lemma_small_mod(self.as_nat(), p256());
                }
            }
            return self;
        }
        let ghost a = self.as_nat() as int;
        let ghost pk = pow2(k as nat) as int;
        let ghost high = pow2((256 - k) as nat) as int;
        let power = u256::power_of_two(k);
        let q = self.div(power);
        proof {
            lemma_pow2_constants();
            lemma_pow2_pos(k as nat);
            lemma_pow2_pos((256 - k) as nat);
            lemma_pow2_adds((256 - k) as nat, k as nat);
            // the quotient fits below 2^(256-k)
            vstd::arithmetic::div_mod::lemma_multiply_divide_lt(a, pk, high);
        }
        if self.is_negative() {
            let fill = u256::max().sub(u256::power_of_two(256 - k).sub(u256::one()));
            proof {
                lemma_small_mod((high - 1) as nat, p256());
                lemma_small_mod((p256() - high) as nat, p256());
                vstd::arithmetic::div_mod::lemma_hoist_over_denominator(a, 0 - high, pk as nat);
                assert((0 - high) * pk == 0 - high * pk) by (nonlinear_arith);
                assert(high * pk == p256());
                // the signed value of the shift, then its ring encoding
                assert(self.as_int() / pk == a / pk - high);
                lemma_fundamental_div_mod_converse_mod(
                    a / pk - high,
                    p256() as int,
                    -1,
                    a / pk - high + p256(),
                );
                lemma_small_mod((q.as_nat() + (p256() - high)) as nat, p256());
            }
            q.add(fill)
        } else {
            proof {
                lemma_small_mod(q.as_nat(), p256());
            }
            q
        }
    }

    /// The arithmetic right shift by 256 or more: the sign spread over
    /// every bit.
    fn sar_saturated(self) -> (r: u256)
        ensures
            r.as_nat() == (if self.as_int() < 0 {
                (p256() - 1) as nat
            } else {
                0nat
            }),
    {
        if self.is_negative() {
            u256::max()
        } else {
            u256::zero()
        }
    }

    /// The least significant byte of the value.
    pub fn low_byte(&self) -> (b: u8)
        ensures
            b as nat == self.as_nat() % 256,
    {
        proof {
            let u = self.upper as int;
            let l = self.lower as int;
            lemma_mod_multiples_vanish(u * 0x100000000_00000000_00000000_000000, l, 256);
        }
        (self.lower % 256) as u8
    }

    /// Bit `i` of the value, least significant bit first.
    fn bit(&self, i: usize) -> (r: bool)
        requires
            i < 256,
        ensures
            r == nth_bit(self.as_nat(), i as nat),
    {
        proof {
            lemma_pow2_constants();
            lemma_u256_div_pow2(self.upper, self.lower, i as nat);
        }
        if i < 128 {
            let sh: u128 = i as u128;
            let r = ((self.lower >> sh) % 2) == 1;
            proof {
                lemma_u128_shr_is_div(self.lower, sh);
                // the upper half contributes an even amount
                vstd::arithmetic::power2::lemma_pow2_unfold((128 - i) as nat);
                assert(self.upper as nat * pow2((128 - i) as nat) == 2 * (self.upper as nat
                    * pow2((127 - i) as nat))) by (nonlinear_arith)
                    requires
                        pow2((128 - i) as nat) == 2 * pow2((127 - i) as nat),
                ;
                lemma_mod_multiples_vanish(
                    self.upper as int * pow2((127 - i) as nat),
                    (self.lower as nat / pow2(i as nat)) as int,
                    2,
                );
            }
            r
        } else {
            let sh: u128 = (i - 128) as u128;
            let r = ((self.upper >> sh) % 2) == 1;
            proof {
                lemma_u128_shr_is_div(self.upper, sh);
            }
            r
        }
    }

    /// Doubles the value; the boolean reports the bit shifted out at the
    /// top, so that `r.0 + (r.1 ? 2^256 : 0) == 2 * self`.
    fn double_with_carry(self) -> (r: (u256, bool))
        ensures
            r.0.as_nat() + (if r.1 {
                p256() as int
            } else {
                0
            }) == 2 * self.as_nat(),
    {
        let carry = self.upper >= 0x80000000_00000000_00000000_00000000u128;
        let doubled = self.add(self);
        proof {
            if carry {
                assert(self.as_nat() * 2 - p256() >= 0);
                lemma_fundamental_div_mod_converse_mod(
                    2 * self.as_nat() as int,
                    p256() as int,
                    1,
                    2 * self.as_nat() - p256(),
                );
            } else {
                lemma_small_mod((2 * self.as_nat()) as nat, p256());
            }
        }
        (doubled, carry)
    }

    /// Quotient and remainder of the mathematical values, by binary long
    /// division. The divisor must not be zero; the public [`u256::div`]
    /// and [`u256::rem`] wrap this with the zero-divisor rule.
    pub fn div_rem(self, rhs: u256) -> (r: (u256, u256))
        requires
            rhs.as_nat() > 0,
        ensures
            r.0.as_nat() == self.as_nat() / rhs.as_nat(),
            r.1.as_nat() == self.as_nat() % rhs.as_nat(),
    {
        let mut q = u256::zero();
        let mut rem = u256::zero();
        let mut i: usize = 0;
        proof {
            lemma_pow2_constants();
            lemma_basic_div(self.as_nat() as int, pow2(256) as int);
            lemma_small_mod(0, rhs.as_nat());
            assert(0nat % rhs.as_nat() == 0);
        }
        while i < 256
            invariant
                i <= 256,
                rhs.as_nat() > 0,
                q.as_nat() == (self.as_nat() / pow2((256 - i) as nat)) / rhs.as_nat(),
                rem.as_nat() == (self.as_nat() / pow2((256 - i) as nat)) % rhs.as_nat(),
            decreases 256 - i,
        {
            let ghost an = self.as_nat();
            let ghost dn = rhs.as_nat();
            let ghost q0 = q.as_nat();
            let ghost rem0 = rem.as_nat();
            let ghost k = (256 - i) as nat;
            let ghost prefix0 = an / pow2(k);
            let ghost prefix1 = an / pow2((k - 1) as nat);
            let b = self.bit(255 - i);
            let ghost bitv: nat = if b {
                1
            } else {
                0
            };
            proof {
                lemma_pow2_constants();
                lemma_prefix_step(an, k);
                assert(prefix1 == 2 * prefix0 + bitv);
                lemma_mod_division_less_than_divisor(prefix0 as int, dn as int);
                assert(rem0 < dn);
                lemma_fundamental_div_mod(prefix0 as int, dn as int);
                assert(prefix0 == dn * q0 + rem0);
                lemma_pow2_pos((k - 1) as nat);
                lemma_div_nonincreasing(an as int, pow2((k - 1) as nat) as int);
                assert(prefix1 < p256());
            }
            let (rem2, carry) = rem.double_with_carry();
            let rem3 = if b {
                proof {
                    lemma_small_mod((rem2.as_nat() + 1) as nat, p256());
                }
                rem2.add(u256::one())
            } else {
                rem2
            };
            let ghost t: nat = (2 * rem0 + bitv) as nat;
            proof {
                assert(rem3.as_nat() + (if carry {
                    p256() as int
                } else {
                    0
                }) == t);
                assert(t < 2 * dn);
            }
            if carry || !rem3.less_than(&rhs, false) {
                // the shifted remainder reaches the divisor: subtract it
                // and set the new quotient bit
                proof {
                    assert(t >= dn);
                    if carry {
                        lemma_fundamental_div_mod_converse_mod(
                            rem3.as_nat() - dn,
                            p256() as int,
                            -1,
                            t - dn,
                        );
                    } else {
                        lemma_small_mod((t - dn) as nat, p256());
                    }
                    // prefix1 == (2*q0 + 1) * dn + (t - dn)
                    assert(prefix1 == (2 * q0 + 1) * dn + (t - dn)) by (nonlinear_arith)
                        requires
                            prefix1 == 2 * prefix0 + bitv,
                            prefix0 == dn * q0 + rem0,
                            t == 2 * rem0 + bitv,
                            t >= dn,
                    ;
                    assert((2 * q0 + 1) * dn >= 2 * q0 + 1) by (nonlinear_arith)
                        requires
                            dn >= 1,
                            q0 >= 0,
                    ;
                    assert(2 * q0 + 1 < p256());
                    lemma_small_mod((2 * q0) as nat, p256());
                    lemma_small_mod((2 * q0 + 1) as nat, p256());
                    lemma_fundamental_div_mod_converse_div(
                        prefix1 as int,
                        dn as int,
                        2 * (q0 as int) + 1,
                        t - dn,
                    );
                    lemma_fundamental_div_mod_converse_mod(
                        prefix1 as int,
                        dn as int,
                        2 * (q0 as int) + 1,
                        t - dn,
                    );
                }
                rem = rem3.sub(rhs);
                q = q.add(q).add(u256::one());
            } else {
                proof {
                    assert(t < dn);
                    assert(prefix1 == (2 * q0) * dn + t) by (nonlinear_arith)
                        requires
                            prefix1 == 2 * prefix0 + bitv,
                            prefix0 == dn * q0 + rem0,
                            t == 2 * rem0 + bitv,
                    ;
                    assert((2 * q0) * dn >= 2 * q0 || q0 == 0) by (nonlinear_arith)
                        requires
                            dn >= 1,
                            q0 >= 0,
                    ;
                    assert(2 * q0 < p256());
                    lemma_small_mod((2 * q0) as nat, p256());
                    lemma_fundamental_div_mod_converse_div(prefix1 as int, dn as int, 2 * (q0 as int), t as int);
                    lemma_fundamental_div_mod_converse_mod(prefix1 as int, dn as int, 2 * (q0 as int), t as int);
                }
                rem = rem3;
                q = q.add(q);
            }
            i = i + 1;
        }
        proof {
            lemma_pow2_constants();
            assert(pow2(0) == 1) by {
                lemma2_to64();
            }
            lemma_div_basics_self(self.as_nat() as int);
        }
        (q, rem)
    }

    /// Division with the rule of the machine: anything divided by zero
    /// is zero.
    pub fn div(self, rhs: u256) -> (r: u256)
        ensures
            rhs.as_nat() == 0 ==> r.as_nat() == 0,
            rhs.as_nat() != 0 ==> r.as_nat() == self.as_nat() / rhs.as_nat(),
    {
        if rhs.is_zero() {
            u256::zero()
        } else {
            self.div_rem(rhs).0
        }
    }

    /// Remainder with the rule of the machine: anything modulo zero is
    /// zero.
    pub fn rem(self, rhs: u256) -> (r: u256)
        ensures
            rhs.as_nat() == 0 ==> r.as_nat() == 0,
            rhs.as_nat() != 0 ==> r.as_nat() == self.as_nat() % rhs.as_nat(),
    {
        if rhs.is_zero() {
            u256::zero()
        } else {
            self.div_rem(rhs).1
        }
    }
}

/// The value of a byte sequence read as a big-endian integer.
pub open spec fn be_val(s: Seq<u8>) -> nat
    decreases s.len(),
{
    if s.len() == 0 {
        0
    } else {
        be_val(s.drop_last()) * 256 + s.last() as nat
    }
}

/// The `n`-byte big-endian encoding of `x mod 2^(8n)`.
pub open spec fn be_bytes_of(x: nat, n: nat) -> Seq<u8>
    decreases n,
{
    if n == 0 {
        Seq::empty()
    } else {
        be_bytes_of(x / 256, (n - 1) as nat).push((x % 256) as u8)
    }
}

impl u256 {
    /// The value of a big-endian byte slice of at most 32 bytes.
    pub fn from_be_bytes(bytes: &[u8]) -> (r: u256)
        requires
            bytes@.len() <= 32,
        ensures
            r.as_nat() == be_val(bytes@),
    {
        let p120: u128 = 0x1000000_00000000_00000000_00000000;
        let n = bytes.len();
        let mut upper: u128 = 0;
        let mut lower: u128 = 0;
        let mut i: usize = 0;
        proof {
            assert(bytes@.subrange(0, 0) =~= Seq::<u8>::empty());
            lemma_pow2_constants();
            lemma2_to64();
        }
        while i < n
            invariant
                i <= n,
                n == bytes@.len(),
                n <= 32,
                p120 == 0x1000000_00000000_00000000_00000000u128,
                upper as nat * p128() + lower as nat == be_val(bytes@.subrange(0, i as int)),
                upper as nat * p128() + (lower as nat) < pow2((8 * i) as nat),
            decreases n - i,
        {
            let ghost v0 = upper as nat * p128() + lower as nat;
            proof {
                lemma_pow2_constants();
                if 8 * i < 248 {
                    vstd::arithmetic::power2::lemma_pow2_strictly_increases((8 * i) as nat, 248);
                }
                assert(v0 < pow2(248));
                assert(upper < 0x1000000_00000000_00000000_00000000u128);
            }
            let b = bytes[i];
            let new_upper = upper * 256 + lower / p120;
            let new_lower = (lower % p120) * 256 + (b as u128);
            proof {
                lemma_fundamental_div_mod(lower as int, p120 as int);
                assert(new_upper as nat * p128() + new_lower as nat == v0 * 256 + b as nat);
                assert(bytes@.subrange(0, i + 1).drop_last() =~= bytes@.subrange(0, i as int));
                assert(bytes@.subrange(0, i + 1).last() == bytes@[i as int]);
                lemma_pow2_adds((8 * i) as nat, 8);
                assert(v0 * 256 + (b as nat) < pow2((8 * (i + 1)) as nat)) by (nonlinear_arith)
                    requires
                        v0 < pow2((8 * i) as nat),
                        (b as nat) < 256,
                        pow2((8 * (i + 1)) as nat) == pow2((8 * i) as nat) * 256,
                ;
            }
            upper = new_upper;
            lower = new_lower;
            i = i + 1;
        }
        proof {
            assert(bytes@.subrange(0, n as int) =~= bytes@);
        }
        u256 { upper, lower }
    }

    /// The 32-byte big-endian encoding of the value.
    pub fn to_be_bytes(self) -> (r: Vec<u8>)
        ensures
            r@.len() == 32,
            r@ == be_bytes_of(self.as_nat(), 32),
    {
        let ghost a = self.as_nat();
        let mut out: Vec<u8> = Vec::new();
        let mut i: usize = 0;
        proof {
            lemma_pow2_constants();
            lemma_basic_div(a as int, pow2(256) as int);
        }
        while i < 32
            invariant
                i <= 32,
                a == self.as_nat(),
                out@.len() == i,
                out@ == be_bytes_of(a / pow2((8 * (32 - i)) as nat), i as nat),
            decreases 32 - i,
        {
            let j = 8 * (31 - i);
            let ghost m = (8 * (32 - i)) as nat;
            proof {
                lemma_pow2_constants();
                lemma2_to64();
                lemma_u256_div_pow2(self.upper, self.lower, j as nat);
                lemma_pow2_pos(j as nat);
            }
            let byte: u8;
            if j >= 128 {
                let sh: u128 = (j - 128) as u128;
                byte = ((self.upper >> sh) % 256) as u8;
                proof {
                    lemma_u128_shr_is_div(self.upper, sh);
                }
            } else {
                let sh: u128 = j as u128;
                byte = ((self.lower >> sh) % 256) as u8;
                proof {
                    lemma_u128_shr_is_div(self.lower, sh);
                    // the upper half contributes a multiple of 256
                    lemma_pow2_adds(8, (120 - j) as nat);
                    assert(self.upper as nat * pow2((128 - j) as nat) == 256 * (self.upper as nat
                        * pow2((120 - j) as nat))) by (nonlinear_arith)
                        requires
                            pow2((128 - j) as nat) == 256 * pow2((120 - j) as nat),
                    ;
                    lemma_mod_multiples_vanish(
                        self.upper as int * pow2((120 - j) as nat),
                        (self.lower as nat / pow2(j as nat)) as int,
                        256,
                    );
                }
            }
            proof {
                assert(byte as nat == (a / pow2(j as nat)) % 256);
                lemma_pow2_adds((j) as nat, 8);
                vstd::arithmetic::div_mod::lemma_div_denominator(
                    a as int,
                    pow2(j as nat) as int,
                    256,
                );
                assert((a / pow2(j as nat)) / 256 == a / pow2(m));
            }
            out.push(byte);
            i = i + 1;
        }
        proof {
            assert(pow2(0) == 1) by {
                lemma2_to64();
            }
            lemma_div_basics_self(a as int);
        }
        out
    }
}

/// Reading back the big-endian encoding of a value below 2^(8n) yields
/// the value: the byte round trip at the level of the encodings.
pub proof fn lemma_be_val_of_be_bytes(x: nat, n: nat)
    requires
        x < pow2((8 * n) as nat),
    ensures
        be_val(be_bytes_of(x, n)) == x,
    decreases n,
{
    if n == 0 {
        assert(pow2(0) == 1) by {
            lemma2_to64();
        }
    } else {
        let s = be_bytes_of(x / 256, (n - 1) as nat);
        assert(be_bytes_of(x, n) == s.push((x % 256) as u8));
        assert(s.push((x % 256) as u8).drop_last() =~= s);
        lemma_pow2_adds((8 * (n - 1)) as nat, 8);
        assert(pow2(8) == 256) by {
            lemma2_to64();
        }
        lemma_fundamental_div_mod(x as int, 256);
        assert((x / 256) < pow2((8 * (n - 1)) as nat)) by (nonlinear_arith)
            requires
                x < pow2((8 * n) as nat),
                pow2((8 * n) as nat) == pow2((8 * (n - 1)) as nat) * 256,
                x == 256 * (x / 256) + x % 256,
                0 <= x % 256 < 256,
                0 <= x / 256,
        ;
        lemma_be_val_of_be_bytes(x / 256, (n - 1) as nat);
    }
}

/// Dividing a nonnegative value by one leaves it unchanged.
proof fn lemma_div_basics_self(x: int)
    requires
        x >= 0,
    ensures
        x / 1 == x,
{
    lemma_fundamental_div_mod_converse_div(x, 1, x, 0);
}

/// The powers of two this module leans on.
proof fn lemma_pow2_constants()
    ensures
        pow2(8) == 256,
        pow2(64) == 0x1_00000000_00000000nat,
        pow2(120) == 0x1000000_00000000_00000000_00000000nat,
        pow2(128) == p128(),
        pow2(248) == pow2(120) * p128(),
        pow2(256) == p256(),
{
    lemma2_to64();
    vstd::arithmetic::power2::lemma2_to64_rest();
    lemma_pow2_adds(64, 56);
    lemma_pow2_adds(64, 64);
    lemma_pow2_adds(120, 128);
    lemma_pow2_adds(128, 128);
    assert(pow2(120) == 0x1000000_00000000_00000000_00000000nat) by (nonlinear_arith)
        requires
            pow2(120) == pow2(64) * pow2(56),
            pow2(64) == 0x1_00000000_00000000nat,
            pow2(56) == 0x100000000000000nat,
    ;
    assert(pow2(256) == p256()) by (nonlinear_arith)
        requires
            pow2(256) == pow2(128) * pow2(128),
            pow2(128) == p128(),
    ;
}

/// Dividing a two-half value by a power of two, in both ranges of the
/// exponent.
proof fn lemma_u256_div_pow2(u: u128, l: u128, j: nat)
    requires
        j < 256,
    ensures
        j < 128 ==> (u as nat * p128() + l as nat) / pow2(j) == u as nat * pow2((128 - j) as nat)
            + l as nat / pow2(j),
        j >= 128 ==> (u as nat * p128() + l as nat) / pow2(j) == u as nat / pow2((j - 128) as nat),
{
    lemma_pow2_constants();
    let a = u as nat * p128() + l as nat;
    if j < 128 {
        let pj = pow2(j);
        let pc = pow2((128 - j) as nat);
        lemma_pow2_adds(j, (128 - j) as nat);
        lemma_pow2_pos(j);
        lemma_pow2_pos((128 - j) as nat);
        lemma_fundamental_div_mod(l as int, pj as int);
        lemma_mod_division_less_than_divisor(l as int, pj as int);
        let ld = l as nat / pj;
        let lm = l as nat % pj;
        assert(a == (u as nat * pc + ld) * pj + lm) by (nonlinear_arith)
            requires
                a == u as nat * (pj * pc) + l as nat,
                l as nat == pj * ld + lm,
        ;
        lemma_fundamental_div_mod_converse_div(
            a as int,
            pj as int,
            (u as nat * pc + ld) as int,
            lm as int,
        );
    } else {
        let pj = pow2(j);
        let pd = pow2((j - 128) as nat);
        lemma_pow2_adds((j - 128) as nat, 128);
        lemma_pow2_pos(j);
        lemma_pow2_pos((j - 128) as nat);
        lemma_fundamental_div_mod(u as int, pd as int);
        lemma_mod_division_less_than_divisor(u as int, pd as int);
        let ud = u as nat / pd;
        let um = u as nat % pd;
        assert(a == ud * pj + (um * p128() + l as nat)) by (nonlinear_arith)
            requires
                a == u as nat * p128() + l as nat,
                u as nat == pd * ud + um,
                pj == pd * p128(),
        ;
        assert(um * p128() + (l as nat) < pj) by (nonlinear_arith)
            requires
                um < pd,
                (l as nat) < p128(),
                pj == pd * p128(),
        ;
        lemma_fundamental_div_mod_converse_div(
            a as int,
            pj as int,
            ud as int,
            (um * p128() + l as nat) as int,
        );
    }
}

/// One step of reading a value most-significant-bit first: halving the
/// power of two doubles the prefix and brings in the next bit.
proof fn lemma_prefix_step(a: nat, k: nat)
    requires
        k >= 1,
    ensures
        a / pow2((k - 1) as nat) == 2 * (a / pow2(k)) + (if nth_bit(a, (k - 1) as nat) {
            1nat
        } else {
            0nat
        }),
{
    lemma_pow2_pos((k - 1) as nat);
    lemma_pow2_adds((k - 1) as nat, 1);
    assert(pow2(1) == 2) by {
        lemma2_to64();
    }
    vstd::arithmetic::div_mod::lemma_div_denominator(a as int, pow2((k - 1) as nat) as int, 2);
    let v = a / pow2((k - 1) as nat);
    lemma_fundamental_div_mod(v as int, 2);
    lemma_mod_division_less_than_divisor(v as int, 2);
}

/// Distributing a multiplication by 2^128 over a difference.
proof fn lemma_mul_sub_distribute(x: int, p: int)
    ensures
        x * p == (x + 1) * p - p,
{
    assert(x * p == (x + 1) * p - p) by (nonlinear_arith);
}

/// Adding zero on the ring leaves a value unchanged: `x + 0 = x`.
pub proof fn lemma_add_zero(x: u256)
    ensures
        (x.as_nat() + 0) % p256() == x.as_nat(),
{
    x.lemma_as_nat_bound();
    lemma_small_mod(x.as_nat(), p256());
}

/// Multiplying by one on the ring leaves a value unchanged: `x * 1 = x`.
pub proof fn lemma_mul_one(x: u256)
    ensures
        (x.as_nat() * 1) % p256() == x.as_nat(),
{
    x.lemma_as_nat_bound();
    lemma_small_mod(x.as_nat(), p256());
}

/// Subtracting a value from itself on the ring gives zero: `x - x = 0`.
pub proof fn lemma_sub_self(x: u256)
    ensures
        (x.as_nat() - x.as_nat()) % (p256() as int) == 0,
{
    lemma_small_mod(0, p256());
}

/// Addition on the ring is associative: `(x + y) + z = x + (y + z)`
/// under wrapping.
pub proof fn lemma_add_associative(x: u256, y: u256, z: u256)
    ensures
        ((x.as_nat() + y.as_nat()) % p256() + z.as_nat()) % p256() == (x.as_nat() + (y.as_nat()
            + z.as_nat()) % p256()) % p256(),
{
    let m = p256() as int;
    let a = x.as_nat() as int;
    let b = y.as_nat() as int;
    let c = z.as_nat() as int;
    x.lemma_as_nat_bound();
    y.lemma_as_nat_bound();
    z.lemma_as_nat_bound();
    lemma_small_mod(z.as_nat(), p256());
    lemma_small_mod(x.as_nat(), p256());
    vstd::arithmetic::div_mod::lemma_add_mod_noop(a + b, c, m);
    vstd::arithmetic::div_mod::lemma_add_mod_noop(a, b + c, m);
}

/// Complement is an involution: `not(not(x)) = x`.
pub proof fn lemma_not_involution(x: u256)
    ensures
        x.spec_not().spec_not() == x,
{
    let u = x.upper;
    let l = x.lower;
    assert(!(!u) == u) by (bit_vector);
    assert(!(!l) == l) by (bit_vector);
}

/// A value and its complement share no bit: `x and not(x) = 0`.
pub proof fn lemma_and_not_zero(x: u256)
    ensures
        x.spec_and(x.spec_not()).as_nat() == 0,
{
    let u = x.upper;
    let l = x.lower;
    assert(u & !u == 0) by (bit_vector);
    assert(l & !l == 0) by (bit_vector);
}

/// A value and its complement cover every bit: `x or not(x) = 2^256 - 1`.
pub proof fn lemma_or_not_max(x: u256)
    ensures
        x.spec_or(x.spec_not()).as_nat() == p256() - 1,
{
    let u = x.upper;
    let l = x.lower;
    assert(u | !u == 0xffffffff_ffffffff_ffffffff_ffffffffu128) by (bit_vector);
    assert(l | !l == 0xffffffff_ffffffff_ffffffff_ffffffffu128) by (bit_vector);
}

/// The order is total: of `x < y`, `x = y` and `x > y`, exactly one
/// holds, where equality of the mathematical values is equality of the
/// values themselves.
pub proof fn lemma_ordering_total(x: u256, y: u256)
    ensures
        (x.as_nat() < y.as_nat()) || (x == y) || (y.as_nat() < x.as_nat()),
        (x.as_nat() < y.as_nat()) ==> !(x == y) && !(y.as_nat() < x.as_nat()),
        (x == y) ==> !(x.as_nat() < y.as_nat()) && !(y.as_nat() < x.as_nat()),
        (y.as_nat() < x.as_nat()) ==> !(x == y) && !(x.as_nat() < y.as_nat()),
{
    x.lemma_as_nat_injective(y);
}

/// Splitting a value into its halves mod 2^256: for `0 <= lo < 2^128`,
/// `(x * 2^128 + lo) % 2^256 == (x % 2^128) * 2^128 + lo`.
proof fn lemma_mod_split(x: int, lo: int)
    requires
        0 <= lo < p128(),
    ensures
        (x * p128() + lo) % (p256() as int) == (x % (p128() as int)) * p128() + lo,
{
    let p = p128() as int;
    let q = p256() as int;
    lemma_fundamental_div_mod(x, p);
    let xd = x / p;
    let xm = x % p;
    assert(0 <= xm < p);
    assert(x * p + lo == q * xd + (xm * p + lo)) by (nonlinear_arith)
        requires
            x == p * xd + xm,
            q == p * p,
    ;
    assert(xm * p + lo < q) by (nonlinear_arith)
        requires
            0 <= lo < p,
            0 <= xm < p,
            q == p * p,
    ;
    assert(xm * p + lo >= 0) by (nonlinear_arith)
        requires
            0 <= lo,
            0 <= xm,
            0 < p,
    ;
    lemma_mod_multiples_vanish(xd, xm * p + lo, q);
    lemma_small_mod((xm * p + lo) as nat, q as nat);
}

} // verus!
