//! An unsigned 256-bit integer built from four 64-bit limbs, least
//! significant first. Stake amounts are 256-bit quantities, and summing
//! them must never silently wrap, so addition here is checked and proved
//! exact against the mathematical value of the limbs.

use vstd::prelude::*;

verus! {

/// An unsigned 256-bit integer; `l0` is the least significant limb.
#[derive(Clone, Copy, Debug, PartialEq, Eq, Structural)]
pub struct U256 {
    pub l0: u64,
    pub l1: u64,
    pub l2: u64,
    pub l3: u64,
}

impl U256 {
    /// The mathematical value of the four limbs.
    pub open spec fn as_nat(self) -> nat {
        (self.l0 + self.l1 * 0x1_0000_0000_0000_0000
            + self.l2 * 0x1_0000_0000_0000_0000_0000_0000_0000_0000
            + self.l3 * 0x1_0000_0000_0000_0000_0000_0000_0000_0000_0000_0000_0000_0000) as nat
    }

    pub fn zero() -> (r: U256)
        ensures
            r.as_nat() == 0,
    {
        U256 { l0: 0, l1: 0, l2: 0, l3: 0 }
    }

    pub fn from_u64(v: u64) -> (r: U256)
        ensures
            r.as_nat() == v,
    {
        U256 { l0: v, l1: 0, l2: 0, l3: 0 }
    }

    pub fn is_zero(&self) -> (r: bool)
        ensures
            r == (self.as_nat() == 0),
    {
        proof {
            if self.l1 > 0 {
                assert(self.l1 * 0x1_0000_0000_0000_0000 >= 0x1_0000_0000_0000_0000)
                    by (nonlinear_arith)
                    requires self.l1 >= 1;
            }
            if self.l2 > 0 {
                assert(self.l2 * 0x1_0000_0000_0000_0000_0000_0000_0000_0000
                    >= 0x1_0000_0000_0000_0000_0000_0000_0000_0000)
                    by (nonlinear_arith)
                    requires self.l2 >= 1;
            }
            if self.l3 > 0 {
                assert(self.l3
                    * 0x1_0000_0000_0000_0000_0000_0000_0000_0000_0000_0000_0000_0000
                    >= 0x1_0000_0000_0000_0000_0000_0000_0000_0000_0000_0000_0000_0000)
                    by (nonlinear_arith)
                    requires self.l3 >= 1;
            }
        }
        self.l0 == 0 && self.l1 == 0 && self.l2 == 0 && self.l3 == 0
    }

    /// The limbs as an array, least significant first.
    pub fn limbs(&self) -> (r: [u64; 4])
        ensures
            r == ([self.l0, self.l1, self.l2, self.l3]),
    {
        [self.l0, self.l1, self.l2, self.l3]
    }

    /// Rebuilds a value from an array of limbs, least significant first.
    pub fn from_limb_array(l: [u64; 4]) -> (r: U256)
        ensures
            r == (U256 { l0: l[0], l1: l[1], l2: l[2], l3: l[3] }),
    {
        U256 { l0: l[0], l1: l[1], l2: l[2], l3: l[3] }
    }

    /// Limb addition with carry propagation; `None` exactly when the
    /// mathematical sum does not fit in 256 bits.
    pub fn checked_add(&self, other: &U256) -> (r: Option<U256>)
        ensures
            match r {
                Some(s) => s.as_nat() == self.as_nat() + other.as_nat(),
                None => self.as_nat() + other.as_nat()
                    >= 0x1_0000_0000_0000_0000_0000_0000_0000_0000_0000_0000_0000_0000_0000_0000_0000_0000,
            },
    {
        let s0: u128 = self.l0 as u128 + other.l0 as u128;
        let r0: u64 = (s0 & 0xffff_ffff_ffff_ffff) as u64;
        let c1: u64 = (s0 >> 64) as u64;
        let s1: u128 = self.l1 as u128 + other.l1 as u128 + c1 as u128;
        let r1: u64 = (s1 & 0xffff_ffff_ffff_ffff) as u64;
        let c2: u64 = (s1 >> 64) as u64;
        let s2: u128 = self.l2 as u128 + other.l2 as u128 + c2 as u128;
        let r2: u64 = (s2 & 0xffff_ffff_ffff_ffff) as u64;
        let c3: u64 = (s2 >> 64) as u64;
        let s3: u128 = self.l3 as u128 + other.l3 as u128 + c3 as u128;
        let r3: u64 = (s3 & 0xffff_ffff_ffff_ffff) as u64;
        let c4: u64 = (s3 >> 64) as u64;
        proof {
            lemma_carry_split(s0, r0, c1);
            lemma_carry_split(s1, r1, c2);
            lemma_carry_split(s2, r2, c3);
            lemma_carry_split(s3, r3, c4);
        }
        let r = U256 { l0: r0, l1: r1, l2: r2, l3: r3 };
        if c4 == 0 {
            Some(r)
        } else {
            None
        }
    }
}

/// A value below 2^65 splits into a 64-bit remainder and a carry bit.
proof fn lemma_carry_split(s: u128, r: u64, c: u64)
    requires
        s < 0x2_0000_0000_0000_0000,
        r == (s & 0xffff_ffff_ffff_ffff) as u64,
        c == (s >> 64) as u64,
    ensures
        s == r + c * 0x1_0000_0000_0000_0000,
        c <= 1,
{
    assert(s == ((s & 0xffff_ffff_ffff_ffff) as u64) + ((s >> 64) as u64) * 0x1_0000_0000_0000_0000
        && ((s >> 64) as u64) <= 1) by (bit_vector)
        requires s < 0x2_0000_0000_0000_0000;
}

} // verus!
