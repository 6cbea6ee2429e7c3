//! Points of the BLS12-381 G1 group, held in canonical affine form.
use crate::field::{limbs_value, scalar_values, Scalar};
use lambdaworks_math::cyclic_group::IsGroup;
use lambdaworks_math::elliptic_curve::short_weierstrass::curves::bls12_381::curve::{
    BLS12381Curve, BLS12381FieldElement,
};
use lambdaworks_math::elliptic_curve::short_weierstrass::point::ShortWeierstrassProjectivePoint;
use lambdaworks_math::elliptic_curve::traits::IsEllipticCurve;
use lambdaworks_math::msm::pippenger::parallel_msm_with;
use lambdaworks_math::unsigned_integer::element::{U256, U384};
use vstd::prelude::*;

verus! {

/// Affine coordinates `(x, y, z)` of a point: `z` is 1, or the point is the
/// neutral element `(0, 1, 0)` (see `on_curve`).
pub type PointModel = (nat, nat, nat);

/// A G1 point, as big-endian limbs of the representatives of its normalised
/// projective coordinates.
#[derive(Clone, Copy, Debug, PartialEq, Eq)]
pub struct Point {
    pub x: [u64; 6],
    pub y: [u64; 6],
    pub z: [u64; 6],
}

impl View for Point {
    type V = PointModel;

    open spec fn view(&self) -> PointModel {
        (limbs_value(self.x@), limbs_value(self.y@), limbs_value(self.z@))
    }
}

/// The views of a sequence of points.
pub open spec fn point_models(s: Seq<Point>) -> Seq<PointModel> {
    s.map_values(|p: Point| p@)
}

/// The modulus of the base field of BLS12-381.
pub open spec fn base_modulus() -> nat {
    limbs_value(seq![0x1a0111ea397fe69au64, 0x4b1ba7b6434bacd7u64, 0x64774b84f38512bfu64,
        0x6730d2a0f6b0f624u64, 0x1eabfffeb153ffffu64, 0xb9feffffffffaaabu64])
}

/// A canonical affine point of the curve `y^2 = x^3 + 4` over the base field:
/// `z = 1` with reduced coordinates on the curve, or the neutral point `(0, 1, 0)`.
pub open spec fn on_curve(p: PointModel) -> bool {
    p == (0nat, 1nat, 0nat) || {
        &&& p.2 == 1
        &&& p.0 < base_modulus()
        &&& p.1 < base_modulus()
        &&& (p.1 * p.1) % base_modulus() == (p.0 * p.0 * p.0 + 4) % base_modulus()
    }
}

/// Every point of the sequence is a canonical point of the curve.
pub open spec fn all_on_curve(s: Seq<Point>) -> bool {
    forall|i: int| 0 <= i < s.len() ==> on_curve(#[trigger] s[i]@)
}

/// The fixed generator of G1, in affine form.
pub open spec fn generator_model() -> PointModel {
    (
        limbs_value(seq![0x17f1d3a73197d794u64, 0x2695638c4fa9ac0fu64, 0xc3688c4f9774b905u64,
            0xa14e3a3f171bac58u64, 0x6c55e83ff97a1aefu64, 0xfb3af00adb22c6bbu64]),
        limbs_value(seq![0x08b3f481e3aaa0f1u64, 0xa09e30ed741d8ae4u64, 0xfcf5e095d5d00af6u64,
            0x00db18cb2c04b3edu64, 0xd03cc744a2888ae4u64, 0x0caa232946c5e7e1u64]),
        limbs_value(seq![0u64, 0u64, 0u64, 0u64, 0u64, 1u64]),
    )
}

/// The affine form of the group sum of two points.
pub uninterp spec fn point_sum(p: PointModel, q: PointModel) -> PointModel;

/// The affine form of `k` times a point.
pub uninterp spec fn point_scaled(p: PointModel, k: nat) -> PointModel;

/// The affine form of the inverse of a point.
pub uninterp spec fn point_negated(p: PointModel) -> PointModel;

/// The affine form of the weighted sum of `points[i]` by `scalars[i]`.
pub uninterp spec fn weighted_sum(scalars: Seq<nat>, points: Seq<PointModel>) -> PointModel;

/// Relies on lambdaworks' `BLS12381Curve::generator`, whose coordinates are fixed
/// constants of a curve point with `z = 1`.
#[verifier::external_body]
pub(crate) fn generator() -> (r: Point)
    ensures
        r@ == generator_model(),
        on_curve(r@),
{
    let [x, y, z] = BLS12381Curve::generator().to_affine().coordinates().clone();
    Point { x: x.representative().limbs, y: y.representative().limbs, z: z.representative().limbs }
}

impl Point {
    /// Relies on lambdaworks' projective `operate_with` and `to_affine`.
    #[verifier::external_body]
    pub(crate) fn add(&self, other: &Point) -> (r: Point)
        requires
            on_curve(self@),
            on_curve(other@),
        ensures
            on_curve(r@),
            r@ == point_sum(self@, other@),
    {
        let [a, b, c] = [self.x, self.y, self.z].map(|l| BLS12381FieldElement::new(U384 { limbs: l }));
        let [d, e, f] = [other.x, other.y, other.z].map(|l| BLS12381FieldElement::new(U384 { limbs: l }));
        let p = ShortWeierstrassProjectivePoint::<BLS12381Curve>::new_unchecked([a, b, c]);
        let q = ShortWeierstrassProjectivePoint::<BLS12381Curve>::new_unchecked([d, e, f]);
        let [x, y, z] = p.operate_with(&q).to_affine().coordinates().clone();
        Point { x: x.representative().limbs, y: y.representative().limbs, z: z.representative().limbs }
    }

    /// Relies on lambdaworks' `operate_with_self` (double and add) and `to_affine`.
    #[verifier::external_body]
    pub(crate) fn scale(&self, k: &Scalar) -> (r: Point)
        requires
            on_curve(self@),
        ensures
            on_curve(r@),
            r@ == point_scaled(self@, k@),
    {
        let [a, b, c] = [self.x, self.y, self.z].map(|l| BLS12381FieldElement::new(U384 { limbs: l }));
        let p = ShortWeierstrassProjectivePoint::<BLS12381Curve>::new_unchecked([a, b, c]);
        let [x, y, z] = p.operate_with_self(U256 { limbs: k.limbs }).to_affine().coordinates().clone();
        Point { x: x.representative().limbs, y: y.representative().limbs, z: z.representative().limbs }
    }

    /// Relies on lambdaworks' projective `neg` and `to_affine`.
    #[verifier::external_body]
    pub(crate) fn neg(&self) -> (r: Point)
        requires
            on_curve(self@),
        ensures
            on_curve(r@),
            r@ == point_negated(self@),
    {
        let [a, b, c] = [self.x, self.y, self.z].map(|l| BLS12381FieldElement::new(U384 { limbs: l }));
        let p = ShortWeierstrassProjectivePoint::<BLS12381Curve>::new_unchecked([a, b, c]);
        let [x, y, z] = p.neg().to_affine().coordinates().clone();
        Point { x: x.representative().limbs, y: y.representative().limbs, z: z.representative().limbs }
    }
}

/// Relies on lambdaworks' `parallel_msm_with` (windowed bucket method over rayon)
/// and `to_affine`: the affine form of the weighted sum does not depend on the
/// window or on how the work was split, the group law being associative on curve
/// points. The window is kept to 1 to 32 bits, so that the table of
/// `2^window - 1` buckets stays allocatable.
#[verifier::external_body]
pub(crate) fn windowed_msm(scalars: &Vec<Scalar>, points: &[Point], window: usize) -> (r: Point)
    requires
        scalars.len() == points.len(),
        1 <= window <= 32,
        all_on_curve(points@),
    ensures
        on_curve(r@),
        r@ == weighted_sum(scalar_values(scalars@), point_models(points@)),
{
    let cs: Vec<U256> = scalars.iter().map(|s| U256 { limbs: s.limbs }).collect();
    let ps: Vec<_> = points.iter().map(|p| {
        let [a, b, c] = [p.x, p.y, p.z].map(|l| BLS12381FieldElement::new(U384 { limbs: l }));
        ShortWeierstrassProjectivePoint::<BLS12381Curve>::new_unchecked([a, b, c])
    }).collect();
    let [x, y, z] = parallel_msm_with(&cs, &ps, window).to_affine().coordinates().clone();
    Point { x: x.representative().limbs, y: y.representative().limbs, z: z.representative().limbs }
}

} // verus!
