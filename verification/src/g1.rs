//! Points on the G1 group of the BN254 pairing-friendly curve, held as
//! plain affine coordinates. The group law itself is computed by the
//! `ark_bn254` / `ark_ec` crates behind one trusted wrapper; everything
//! this crate states about an aggregate key is phrased over the
//! uninterpreted name `g1_add_spec` for that sum.

use vstd::prelude::*;

use crate::u256::U256;
use ark_ec::AffineRepr;
use ark_ec::CurveGroup;
use ark_ff::BigInt;
use ark_ff::PrimeField;

verus! {

/// A G1 public key: an affine point, both coordinates below the base
/// field's modulus. The group identity is not representable here; where
/// an aggregate can be the identity it is carried as `Option<G1PublicKey>`
/// with `None` for the identity.
#[derive(Clone, Copy, Debug, PartialEq, Eq, Structural)]
pub struct G1PublicKey {
    pub x: U256,
    pub y: U256,
}

impl G1PublicKey {
    /// The mathematical coordinates of the point.
    pub open spec fn coords(self) -> (nat, nat) {
        (self.x.as_nat(), self.y.as_nat())
    }
}

/// The modulus of the BN254 base field.
pub open spec fn fq_modulus() -> nat {
    21888242871839275222246405745257275088696311157297823662689037894645226208583nat
}

/// The affine curve equation of BN254's G1: y^2 = x^3 + 3 over the base
/// field, with both coordinates reduced. Since the curve's G1 cofactor is
/// one, every such point lies in the G1 subgroup.
pub open spec fn on_curve(p: (nat, nat)) -> bool {
    &&& p.0 < fq_modulus()
    &&& p.1 < fq_modulus()
    &&& (p.1 * p.1) % fq_modulus() == (p.0 * p.0 * p.0 + 3) % fq_modulus()
}

/// The curve-group sum of two non-identity affine G1 points; `None` stands
/// for the group identity. Named, not written out: the group law is the
/// curve library's to compute.
pub uninterp spec fn g1_add_spec(a: (nat, nat), b: (nat, nat)) -> Option<(nat, nat)>;

/// One accumulation step, with the identity acting as the additive zero.
pub open spec fn g1_acc(acc: Option<(nat, nat)>, k: (nat, nat)) -> Option<(nat, nat)> {
    match acc {
        None => Some(k),
        Some(a) => g1_add_spec(a, k),
    }
}

/// The coordinates of an optional point; `None` is the identity.
pub open spec fn key_view(k: Option<G1PublicKey>) -> Option<(nat, nat)> {
    match k {
        None => None,
        Some(p) => Some(p.coords()),
    }
}

/// Relies on `ark_bn254` with `ark_ec`'s short-Weierstrass group law: the
/// sum of two on-curve G1 points, converted back to canonical affine
/// coordinates (`None` when the sum is the group identity). The sum is a
/// deterministic function of the two points alone; group addition is
/// commutative; and the group is closed, so a non-identity sum is again
/// on the curve. `Affine::new` panics off the curve, which the
/// precondition rules out.
#[verifier::external_body]
pub fn g1_add(a: &G1PublicKey, b: &G1PublicKey) -> (r: Option<G1PublicKey>)
    requires
        on_curve(a.coords()),
        on_curve(b.coords()),
    ensures
        key_view(r) == g1_add_spec(a.coords(), b.coords()),
        key_view(r) == g1_add_spec(b.coords(), a.coords()),
        r matches Some(p) ==> on_curve(p.coords()),
{
    let pa = ark_bn254::G1Affine::new(
        ark_bn254::Fq::new(BigInt(a.x.limbs())),
        ark_bn254::Fq::new(BigInt(a.y.limbs())),
    );
    let pb = ark_bn254::G1Affine::new(
        ark_bn254::Fq::new(BigInt(b.x.limbs())),
        ark_bn254::Fq::new(BigInt(b.y.limbs())),
    );
    match (ark_bn254::G1Projective::from(pa) + pb).into_affine().xy() {
        Some((x, y)) => Some(G1PublicKey {
            x: U256::from_limb_array(x.into_bigint().0),
            y: U256::from_limb_array(y.into_bigint().0),
        }),
        None => None,
    }
}

} // verus!
