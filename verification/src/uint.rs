//! Unsigned 256-bit integers held as four 64-bit limbs.

use vstd::prelude::*;

verus! {

/// Two to the power 64, the weight of the second limb.
pub open spec fn limb_base() -> nat {
    0x1_0000_0000_0000_0000nat
}

/// Two to the power 256, one more than the largest value a `U256` holds.
pub open spec fn u256_modulus() -> nat {
    0x1_0000_0000_0000_0000_0000_0000_0000_0000_0000_0000_0000_0000_0000_0000_0000_0000nat
}

/// The number that four limbs stand for, least significant limb first.
pub open spec fn limbs_value(l0: u64, l1: u64, l2: u64, l3: u64) -> nat {
    (l0 as nat) + (l1 as nat) * 0x1_0000_0000_0000_0000nat + (l2 as nat)
        * 0x1_0000_0000_0000_0000_0000_0000_0000_0000nat + (l3 as nat)
        * 0x1_0000_0000_0000_0000_0000_0000_0000_0000_0000_0000_0000_0000nat
}

/// An unsigned 256-bit integer. Its view is the number it stands for.
#[derive(Clone, Copy, Debug, PartialEq, Eq, Structural)]
pub struct U256 {
    pub l0: u64,
    pub l1: u64,
    pub l2: u64,
    pub l3: u64,
}

impl View for U256 {
    type V = nat;

    open spec fn view(&self) -> nat {
        limbs_value(self.l0, self.l1, self.l2, self.l3)
    }
}

/// Two values that stand for the same number are the same value.
pub proof fn lemma_view_injective(a: U256, b: U256)
    requires
        a@ == b@,
    ensures
        a == b,
{
    if a.l3 != b.l3 {
        if a.l3 < b.l3 {
            assert(a@ < b@);
        } else {
            assert(b@ < a@);
        }
    } else if a.l2 != b.l2 {
        if a.l2 < b.l2 {
            assert(a@ < b@);
        } else {
            assert(b@ < a@);
        }
    } else if a.l1 != b.l1 {
        if a.l1 < b.l1 {
            assert(a@ < b@);
        } else {
            assert(b@ < a@);
        }
    }
}

impl U256 {
    /// The value zero.
    pub fn zero() -> (r: U256)
        ensures
            r@ == 0,
    {
        U256 { l0: 0, l1: 0, l2: 0, l3: 0 }
    }

    /// The largest value, two to the power 256 less one.
    pub fn max_value() -> (r: U256)
        ensures
            r@ == u256_modulus() - 1,
    {
        U256 { l0: u64::MAX, l1: u64::MAX, l2: u64::MAX, l3: u64::MAX }
    }

    /// The value of a 64-bit integer.
    pub fn from_u64(x: u64) -> (r: U256)
        ensures
            r@ == x,
    {
        U256 { l0: x, l1: 0, l2: 0, l3: 0 }
    }

    /// The value of a 128-bit integer.
    pub fn from_u128(x: u128) -> (r: U256)
        ensures
            r@ == x,
    {
        let lo: u64 = (x % 0x1_0000_0000_0000_0000u128) as u64;
        let hi: u64 = (x / 0x1_0000_0000_0000_0000u128) as u64;
        U256 { l0: lo, l1: hi, l2: 0, l3: 0 }
    }

    /// Builds a value from its limbs, least significant first.
    pub fn from_limbs(limbs: [u64; 4]) -> (r: U256)
        ensures
            r@ == limbs_value(limbs[0], limbs[1], limbs[2], limbs[3]),
    {
        U256 { l0: limbs[0], l1: limbs[1], l2: limbs[2], l3: limbs[3] }
    }

    /// The limbs of the value, least significant first.
    pub fn into_limbs(self) -> (r: [u64; 4])
        ensures
            limbs_value(r[0], r[1], r[2], r[3]) == self@,
            r[0] == self.l0,
            r[1] == self.l1,
            r[2] == self.l2,
            r[3] == self.l3,
    {
        [self.l0, self.l1, self.l2, self.l3]
    }

    /// Every value is below two to the power 256.
    pub proof fn lemma_bounded(self)
        ensures
            self@ < u256_modulus(),
    {
    }

    /// Whether the value is zero.
    pub fn is_zero(&self) -> (r: bool)
        ensures
            r == (self@ == 0),
    {
        self.l0 == 0 && self.l1 == 0 && self.l2 == 0 && self.l3 == 0
    }

    /// Whether `self` is strictly below `other`.
    pub fn lt(&self, other: &U256) -> (r: bool)
        ensures
            r == (self@ < other@),
    {
        if self.l3 != other.l3 {
            self.l3 < other.l3
        } else if self.l2 != other.l2 {
            self.l2 < other.l2
        } else if self.l1 != other.l1 {
            self.l1 < other.l1
        } else {
            self.l0 < other.l0
        }
    }

    /// Whether `self` is at most `other`.
    pub fn le(&self, other: &U256) -> (r: bool)
        ensures
            r == (self@ <= other@),
    {
        !other.lt(self)
    }

    /// The sum and whether it left the 256-bit range.
    pub fn overflowing_add(&self, other: &U256) -> (r: (U256, bool))
        ensures
            r.0@ + (if r.1 { u256_modulus() } else { 0 }) == self@ + other@,
    {
        let s0: u128 = self.l0 as u128 + other.l0 as u128;
        let c0: u128 = s0 / 0x1_0000_0000_0000_0000u128;
        let s1: u128 = self.l1 as u128 + other.l1 as u128 + c0;
        let c1: u128 = s1 / 0x1_0000_0000_0000_0000u128;
        let s2: u128 = self.l2 as u128 + other.l2 as u128 + c1;
        let c2: u128 = s2 / 0x1_0000_0000_0000_0000u128;
        let s3: u128 = self.l3 as u128 + other.l3 as u128 + c2;
        let c3: u128 = s3 / 0x1_0000_0000_0000_0000u128;
        let r = U256 {
            l0: (s0 % 0x1_0000_0000_0000_0000u128) as u64,
            l1: (s1 % 0x1_0000_0000_0000_0000u128) as u64,
            l2: (s2 % 0x1_0000_0000_0000_0000u128) as u64,
            l3: (s3 % 0x1_0000_0000_0000_0000u128) as u64,
        };
        (r, c3 != 0)
    }

    /// The sum modulo two to the power 256.
    pub fn wrapping_add(&self, other: &U256) -> (r: U256)
        ensures
            r@ == (self@ + other@) % u256_modulus(),
    {
        let (r, _) = self.overflowing_add(other);
        r
    }

    /// The sum, or `None` where it does not fit in 256 bits.
    pub fn checked_add(&self, other: &U256) -> (r: Option<U256>)
        ensures
            r matches Some(v) ==> v@ == self@ + other@,
            r is Some <==> self@ + other@ < u256_modulus(),
    {
        let (r, carry) = self.overflowing_add(other);
        if carry {
            None
        } else {
            Some(r)
        }
    }

    /// The difference and whether it fell below zero.
    pub fn overflowing_sub(&self, other: &U256) -> (r: (U256, bool))
        ensures
            r.0@ == self@ - other@ + (if r.1 { u256_modulus() } else { 0 }),
            r.1 == (self@ < other@),
    {
        let base: u128 = 0x1_0000_0000_0000_0000u128;
        let d0: u128 = base + self.l0 as u128 - other.l0 as u128;
        let (n0, b0): (u64, u128) = if d0 < base {
            (d0 as u64, 1)
        } else {
            ((d0 - base) as u64, 0)
        };
        let d1: u128 = base + self.l1 as u128 - other.l1 as u128 - b0;
        let (n1, b1): (u64, u128) = if d1 < base {
            (d1 as u64, 1)
        } else {
            ((d1 - base) as u64, 0)
        };
        let d2: u128 = base + self.l2 as u128 - other.l2 as u128 - b1;
        let (n2, b2): (u64, u128) = if d2 < base {
            (d2 as u64, 1)
        } else {
            ((d2 - base) as u64, 0)
        };
        let d3: u128 = base + self.l3 as u128 - other.l3 as u128 - b2;
        let (n3, b3): (u64, u128) = if d3 < base {
            (d3 as u64, 1)
        } else {
            ((d3 - base) as u64, 0)
        };
        let r = U256 { l0: n0, l1: n1, l2: n2, l3: n3 };
        proof {
            assert(n0 == self.l0 - other.l0 + b0 * base);
            assert(n1 == self.l1 - other.l1 - b0 + b1 * base);
            assert(n2 == self.l2 - other.l2 - b1 + b2 * base);
            assert(n3 == self.l3 - other.l3 - b2 + b3 * base);
            assert(r@ == self@ - other@ + b3 * u256_modulus());
            r.lemma_bounded();
            self.lemma_bounded();
            other.lemma_bounded();
        }
        (r, b3 != 0)
    }

    /// The difference modulo two to the power 256.
    pub fn wrapping_sub(&self, other: &U256) -> (r: U256)
        ensures
            r@ == (self@ - other@) % (u256_modulus() as int),
    {
        let (r, _) = self.overflowing_sub(other);
        r
    }

    /// The difference, or zero where `other` is the larger.
    pub fn saturating_sub(&self, other: &U256) -> (r: U256)
        ensures
            r@ == (if self@ >= other@ { self@ - other@ } else { 0 }),
    {
        let (r, borrow) = self.overflowing_sub(other);
        if borrow {
            U256::zero()
        } else {
            r
        }
    }

    /// Quotient and remainder of the division by ten.
    pub fn div_rem_10(&self) -> (r: (U256, u8))
        ensures
            r.0@ == self@ / 10,
            r.1 == self@ % 10,
    {
        let base: u128 = 0x1_0000_0000_0000_0000u128;
        let c3: u128 = self.l3 as u128;
        let q3: u128 = c3 / 10;
        let r3: u128 = c3 % 10;
        let c2: u128 = r3 * base + self.l2 as u128;
        let q2: u128 = c2 / 10;
        let r2: u128 = c2 % 10;
        let c1: u128 = r2 * base + self.l1 as u128;
        let q1: u128 = c1 / 10;
        let r1: u128 = c1 % 10;
        let c0: u128 = r1 * base + self.l0 as u128;
        let q0: u128 = c0 / 10;
        let r0: u128 = c0 % 10;
        let q = U256 { l0: q0 as u64, l1: q1 as u64, l2: q2 as u64, l3: q3 as u64 };
        assert(self@ == 10 * q@ + r0);
        (q, r0 as u8)
    }

    /// Ten times the value plus a digit, or `None` where that does not fit.
    pub fn mul10_add(&self, digit: u8) -> (r: Option<U256>)
        requires
            digit < 10,
        ensures
            r matches Some(v) ==> v@ == self@ * 10 + digit,
            r is Some <==> self@ * 10 + digit < u256_modulus(),
    {
        let base: u128 = 0x1_0000_0000_0000_0000u128;
        let t0: u128 = self.l0 as u128 * 10 + digit as u128;
        let k0: u128 = t0 / base;
        let t1: u128 = self.l1 as u128 * 10 + k0;
        let k1: u128 = t1 / base;
        let t2: u128 = self.l2 as u128 * 10 + k1;
        let k2: u128 = t2 / base;
        let t3: u128 = self.l3 as u128 * 10 + k2;
        let k3: u128 = t3 / base;
        let v = U256 {
            l0: (t0 % base) as u64,
            l1: (t1 % base) as u64,
            l2: (t2 % base) as u64,
            l3: (t3 % base) as u64,
        };
        assert(self@ * 10 + digit == v@ + k3 * u256_modulus());
        if k3 != 0 {
            None
        } else {
            Some(v)
        }
    }
}

} // verus!
