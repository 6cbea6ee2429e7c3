//! The reference string as a flat list of affine coordinate pairs, each written
//! as a hexadecimal string.
use crate::field::limbs_value;
use crate::group::{all_on_curve, base_modulus, on_curve, Point, PointModel};
use lambdaworks_math::elliptic_curve::short_weierstrass::curves::bls12_381::curve::{
    BLS12381Curve, BLS12381FieldElement,
};
use lambdaworks_math::elliptic_curve::traits::IsEllipticCurve;
use lambdaworks_math::unsigned_integer::element::U384;
use vstd::arithmetic::power2::pow2;
use vstd::prelude::*;

verus! {

/// The lower-case hexadecimal digit of `d < 16`.
pub open spec fn hex_digit(d: nat) -> char {
    if d < 10 {
        (('0' as nat) + d) as char
    } else {
        (('a' as nat) + d - 10) as char
    }
}

/// The digits of `v` in lower-case hexadecimal, without leading zeros.
pub open spec fn hex_digits(v: nat) -> Seq<char>
    decreases v,
{
    if v < 16 {
        seq![hex_digit(v)]
    } else {
        hex_digits(v / 16).push(hex_digit(v % 16))
    }
}

/// `v` written as `0x` followed by its hexadecimal digits.
pub open spec fn hex_string(v: nat) -> Seq<char> {
    seq!['0', 'x'] + hex_digits(v)
}

/// Every pair encodes a curve point.
pub open spec fn all_encoded(points: Seq<(String, String)>) -> bool {
    forall|i: int| 0 <= i < points.len() ==> exists|p: PointModel|
        encodes_point(#[trigger] points[i].0@, points[i].1@, p)
}

/// `x` and `y` are the hexadecimal coordinates of the curve point `p`.
pub open spec fn encodes_point(x: Seq<char>, y: Seq<char>, p: PointModel) -> bool {
    &&& p.2 == 1
    &&& on_curve(p)
    &&& x == hex_string(p.0)
    &&& y == hex_string(p.1)
}

/// Relies on the `Display` of lambdaworks' `UnsignedInteger`: `0x`, then the
/// most significant non-zero limb in lower-case hex, then the others padded to
/// 16 digits (`0x0` for zero).
#[verifier::external_body]
fn coordinate_hex(limbs: [u64; 6]) -> (r: String)
    ensures
        r@ == hex_string(limbs_value(limbs@)),
{
    U384 { limbs }.to_string()
}

/// Relies on lambdaworks' `UnsignedInteger::from_hex`, which reads an optional
/// `0x` and up to 96 hexadecimal digits, and fails on anything else.
#[verifier::external_body]
fn parse_coordinate(s: &String) -> (r: Option<[u64; 6]>)
    ensures
        forall|v: nat| v < pow2(384) && s@ == hex_string(v) ==> r.is_some() && limbs_value(r->Some_0@) == v,
{
    U384::from_hex(s).ok().map(|u| u.limbs)
}

/// Relies on lambdaworks' `BLS12381Curve::create_point_from_affine`, which
/// builds `(x, y, 1)` and fails when it is not on the curve, and on `to_affine`,
/// which leaves such a point as it is.
#[verifier::external_body]
fn point_from_affine(x: [u64; 6], y: [u64; 6]) -> (r: Option<Point>)
    ensures
        r matches Some(p) ==> on_curve(p@),
        limbs_value(x@) < base_modulus() && limbs_value(y@) < base_modulus() ==> (r.is_some()
            <==> on_curve((limbs_value(x@), limbs_value(y@), 1nat))),
        limbs_value(x@) < base_modulus() && limbs_value(y@) < base_modulus() && r.is_some()
            ==> r->Some_0@ == (limbs_value(x@), limbs_value(y@), 1nat),
{
    let fx = BLS12381FieldElement::new(U384 { limbs: x });
    let fy = BLS12381FieldElement::new(U384 { limbs: y });
    let p = BLS12381Curve::create_point_from_affine(fx, fy).ok()?;
    let [a, b, c] = p.to_affine().coordinates().clone();
    Some(Point { x: a.representative().limbs, y: b.representative().limbs, z: c.representative().limbs })
}

/// A reference string as the hexadecimal affine coordinates of its points, in order.
pub struct SerializedSRS {
    pub points: Vec<(String, String)>,
}

impl SerializedSRS {
    /// The coordinates of each point, in order.
    pub fn from_points(srs: &Vec<Point>) -> (r: SerializedSRS)
        ensures
            r.points.len() == srs.len(),
            forall|i: int| 0 <= i < srs.len() ==> (#[trigger] r.points@[i]).0@ == hex_string(srs@[i]@.0)
                && r.points@[i].1@ == hex_string(srs@[i]@.1),
    {
        let mut points: Vec<(String, String)> = Vec::with_capacity(srs.len());
        let mut i: usize = 0;
        while i < srs.len()
            invariant
                points.len() == i,
                i <= srs.len(),
                forall|k: int| 0 <= k < i ==> (#[trigger] points@[k]).0@ == hex_string(srs@[k]@.0)
                    && points@[k].1@ == hex_string(srs@[k]@.1),
            decreases srs.len() - i,
        {
            let x = coordinate_hex(srs[i].x);
            let y = coordinate_hex(srs[i].y);
            points.push((x, y));
            i = i + 1;
        }
        SerializedSRS { points }
    }

    /// The points again, or `None` when a coordinate is not hexadecimal or a
    /// pair is not on the curve. Pairs that encode curve points always load.
    pub fn to_ec_points(self) -> (r: Option<Vec<Point>>)
        ensures
            all_encoded(self.points@) ==> r.is_some(),
            r matches Some(ps) ==> {
                &&& ps.len() == self.points.len()
                &&& all_on_curve(ps@)
                &&& forall|i: int, p: PointModel| #![trigger ps@[i], encodes_point(self.points@[i].0@, self.points@[i].1@, p)]
                    0 <= i < ps.len() && encodes_point(self.points@[i].0@, self.points@[i].1@, p) ==> ps@[i]@ == p
            },
    {
        proof {
            crate::field::lemma_limbs_bound(seq![0x1a0111ea397fe69au64, 0x4b1ba7b6434bacd7u64, 0x64774b84f38512bfu64,
                0x6730d2a0f6b0f624u64, 0x1eabfffeb153ffffu64, 0xb9feffffffffaaabu64]);
            assert(seq![0x1a0111ea397fe69au64, 0x4b1ba7b6434bacd7u64, 0x64774b84f38512bfu64,
                0x6730d2a0f6b0f624u64, 0x1eabfffeb153ffffu64, 0xb9feffffffffaaabu64].len() == 6);
            assert(64 * 6 == 384nat);
        }
        let mut ps: Vec<Point> = Vec::with_capacity(self.points.len());
        let mut i: usize = 0;
        while i < self.points.len()
            invariant
                ps.len() == i,
                i <= self.points.len(),
                base_modulus() < pow2(384),
                all_on_curve(ps@),
                forall|k: int, p: PointModel| #![trigger ps@[k], encodes_point(self.points@[k].0@, self.points@[k].1@, p)]
                    0 <= k < i && encodes_point(self.points@[k].0@, self.points@[k].1@, p) ==> ps@[k]@ == p,
            decreases self.points.len() - i,
        {
            let ghost sx = self.points@[i as int].0@;
            let ghost sy = self.points@[i as int].1@;
            let x = match parse_coordinate(&self.points[i].0) {
                Some(l) => l,
                None => {
                    proof {
                        if all_encoded(self.points@) {
                            let p = choose|p: PointModel| encodes_point(sx, sy, p);
                        }
                    }
                    return None;
                },
            };
            let y = match parse_coordinate(&self.points[i].1) {
                Some(l) => l,
                None => {
                    proof {
                        if all_encoded(self.points@) {
                            let p = choose|p: PointModel| encodes_point(sx, sy, p);
                        }
                    }
                    return None;
                },
            };
            let p = match point_from_affine(x, y) {
                Some(p) => p,
                None => {
                    proof {
                        if all_encoded(self.points@) {
                            let q = choose|q: PointModel| encodes_point(sx, sy, q);
                            assert(limbs_value(x@) == q.0 && limbs_value(y@) == q.1);
                        }
                    }
                    return None;
                },
            };
            proof {
                assert forall|q: PointModel| encodes_point(sx, sy, q) implies p@ == q by {
                    assert(limbs_value(x@) == q.0 && limbs_value(y@) == q.1);
                }
            }
            let ghost pre = ps@;
            ps.push(p);
            proof {
                assert forall|k: int| 0 <= k < ps@.len() implies on_curve(#[trigger] ps@[k]@) by {
                    if k < i {
                        assert(ps@[k] == pre[k]);
                    }
                }
                assert forall|k: int, q: PointModel| #![trigger ps@[k], encodes_point(self.points@[k].0@, self.points@[k].1@, q)]
                    0 <= k < i + 1 && encodes_point(self.points@[k].0@, self.points@[k].1@, q) implies ps@[k]@ == q by {
                    if k < i {
                        assert(ps@[k] == pre[k]);
                    }
                }
            }
            i = i + 1;
        }
        Some(ps)
    }
}

} // verus!
