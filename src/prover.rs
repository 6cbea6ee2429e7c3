//! Committing to the product of a fixed base polynomial and a witness, through
//! either form of the reference string.
use crate::field::{all_canonical, pointwise_product, scalar_values, Scalar};
use crate::group::{all_on_curve, on_curve, point_models, weighted_sum, windowed_msm, Point};
use crate::poly::{
    domain_fits, domain_size, evaluate_fft, evaluations, interpolate_fft, interpolation,
    lemma_log2_of_pow2, trimmed_len,
};
use crate::utils::window_size;
use vstd::prelude::*;
use vstd::slice::slice_subrange;

verus! {

/// Why a transform or a commitment could not be computed.
#[derive(Clone, Copy, Debug, PartialEq, Eq)]
pub enum ProverError {
    /// The witness is evaluated on a domain of another size than the base polynomial.
    DomainMismatch,
    /// The requested domain is not a power of two that the scalar field supports.
    FftPrecondition,
    /// There are not as many points as scalars to weigh them.
    MsmPrecondition,
}

/// The longest coefficient vector accepted: far beyond what memory can hold.
pub const MAX_COEFFS: usize = 0xffff_ffff;

/// Holds the evaluations of a base polynomial, on a domain twice as large as
/// its coefficients need, so that products with a witness of the same size do
/// not wrap around the domain.
pub struct Prover {
    pub poly_eval: Vec<Scalar>,
}

/// The window used for an MSM over `len` terms: the heuristic, kept within 1 to 32.
fn msm_window(len: usize) -> (r: usize)
    ensures
        1 <= r <= 32,
{
    let w = window_size(len);
    proof {
        crate::poly::lemma_log2_below(len as nat);
    }
    if w == 0 {
        1
    } else if w > 32 {
        32
    } else {
        w
    }
}

/// The trimmed length of scalar values is 0 exactly when every value is 0.
proof fn lemma_trimmed_len_zero(c: Seq<nat>)
    ensures
        trimmed_len(c) == 0 <==> forall|i: int| 0 <= i < c.len() ==> c[i] == 0,
    decreases c.len(),
{
    if c.len() > 0 {
        lemma_trimmed_len_zero(c.drop_last());
        if trimmed_len(c) == 0 {
            assert forall|i: int| 0 <= i < c.len() implies c[i] == 0 by {
                if i < c.len() - 1 {
                    assert(c.drop_last()[i] == c[i]);
                }
            }
        } else if c.last() == 0 {
            let j = choose|i: int| 0 <= i < c.drop_last().len() && c.drop_last()[i] != 0;
            assert(c[j] != 0);
        }
    }
}

/// Whether every coefficient is zero, which leaves no polynomial to evaluate.
fn is_zero_polynomial(poly: &Vec<Scalar>) -> (r: bool)
    ensures
        r == (trimmed_len(scalar_values(poly@)) == 0),
{
    let mut i: usize = 0;
    while i < poly.len()
        invariant
            i <= poly.len(),
            forall|k: int| 0 <= k < i ==> (#[trigger] poly@[k])@ == 0,
        decreases poly.len() - i,
    {
        let l = poly[i].limbs;
        proof {
            crate::field::lemma_four_limbs(l[0], l[1], l[2], l[3]);
            assert(poly@[i as int].limbs@ == seq![l[0], l[1], l[2], l[3]]);
        }
        if l[0] != 0 || l[1] != 0 || l[2] != 0 || l[3] != 0 {
            proof {
                assert(poly@[i as int]@ > 0) by (nonlinear_arith)
                    requires
                        poly@[i as int]@ == ((l[0] as nat * 0x1_0000_0000_0000_0000 + l[1] as nat)
                            * 0x1_0000_0000_0000_0000 + l[2] as nat) * 0x1_0000_0000_0000_0000 + l[3] as nat,
                        l[0] != 0 || l[1] != 0 || l[2] != 0 || l[3] != 0;
                lemma_trimmed_len_zero(scalar_values(poly@));
                assert(scalar_values(poly@)[i as int] != 0);
            }
            return false;
        }
        proof {
            assert(poly@[i as int]@ == 0);
        }
        i = i + 1;
    }
    proof {
        lemma_trimmed_len_zero(scalar_values(poly@));
        assert forall|k: int| 0 <= k < poly.len() implies scalar_values(poly@)[k] == 0 by {
            assert(poly@[k]@ == 0);
        }
    }
    true
}

/// The product of the witness and the base polynomial, evaluated on the base's domain.
fn product_evaluations(witness_eval: &Vec<Scalar>, poly_eval: &Vec<Scalar>) -> (r: Vec<Scalar>)
    requires
        witness_eval.len() == poly_eval.len(),
        all_canonical(witness_eval@),
        all_canonical(poly_eval@),
    ensures
        scalar_values(r@) == pointwise_product(scalar_values(witness_eval@), scalar_values(poly_eval@)),
        all_canonical(r@),
        r.len() == poly_eval.len(),
{
    let n = poly_eval.len();
    let mut r: Vec<Scalar> = Vec::with_capacity(n);
    let mut i: usize = 0;
    while i < n
        invariant
            n == poly_eval.len(),
            witness_eval.len() == n,
            all_canonical(witness_eval@),
            all_canonical(poly_eval@),
            r.len() == i,
            i <= n,
            all_canonical(r@),
            forall|k: int| 0 <= k < i ==> (#[trigger] r@[k])@ == (witness_eval@[k]@ * poly_eval@[k]@)
                % crate::field::fr_modulus(),
        decreases n - i,
    {
        let p = witness_eval[i].mul(&poly_eval[i]);
        r.push(p);
        i = i + 1;
    }
    assert(scalar_values(r@) =~= pointwise_product(scalar_values(witness_eval@), scalar_values(poly_eval@)));
    r
}

impl View for Prover {
    type V = Seq<nat>;

    open spec fn view(&self) -> Seq<nat> {
        scalar_values(self.poly_eval@)
    }
}

impl Prover {
    /// Every cached evaluation is a canonical scalar.
    pub open spec fn wf(&self) -> bool {
        all_canonical(self.poly_eval@)
    }

    /// A prover for the base polynomial with coefficients `poly` (constant term
    /// first), evaluated with blowup factor 2. Fails on the zero polynomial,
    /// which has no degree to size a domain by.
    pub fn new(poly: Vec<Scalar>) -> (r: Result<Prover, ProverError>)
        requires
            all_canonical(poly@),
            poly.len() <= MAX_COEFFS,
        ensures
            r.is_ok() <==> (trimmed_len(scalar_values(poly@)) > 0 && domain_fits(scalar_values(poly@), 2)),
            r matches Ok(p) ==> p@ == evaluations(scalar_values(poly@), 2) && p.wf()
                && p.poly_eval.len() == domain_size(scalar_values(poly@), 2),
            r matches Err(e) ==> e == ProverError::FftPrecondition,
    {
        if is_zero_polynomial(&poly) {
            return Err(ProverError::FftPrecondition);
        }
        match evaluate_fft(&poly, 2) {
            Ok(eval) => Ok(Prover { poly_eval: eval }),
            Err(_) => Err(ProverError::FftPrecondition),
        }
    }

    /// The commitment to `witness * base` through the Lagrange-basis reference
    /// string: the product's evaluations weigh the points directly.
    pub fn commit_lagrange(&self, witness: &Vec<Scalar>, lagrange_srs: &Vec<Point>) -> (r: Result<Point, ProverError>)
        requires
            self.wf(),
            all_canonical(witness@),
            witness.len() <= MAX_COEFFS,
            all_on_curve(lagrange_srs@),
        ensures
            r matches Ok(c) ==> on_curve(c@),
            !domain_fits(scalar_values(witness@), 2) ==> r == Err::<Point, ProverError>(ProverError::FftPrecondition),
            domain_fits(scalar_values(witness@), 2) && domain_size(scalar_values(witness@), 2) != self.poly_eval.len()
                ==> r == Err::<Point, ProverError>(ProverError::DomainMismatch),
            domain_fits(scalar_values(witness@), 2) && domain_size(scalar_values(witness@), 2) == self.poly_eval.len()
                && lagrange_srs.len() != self.poly_eval.len()
                ==> r == Err::<Point, ProverError>(ProverError::MsmPrecondition),
            r matches Ok(c) ==> c@ == weighted_sum(
                pointwise_product(evaluations(scalar_values(witness@), 2), self@),
                point_models(lagrange_srs@),
            ),
            r.is_ok() <==> (domain_fits(scalar_values(witness@), 2)
                && domain_size(scalar_values(witness@), 2) == self.poly_eval.len()
                && lagrange_srs.len() == self.poly_eval.len()),
    {
        let witness_eval = match evaluate_fft(witness, 2) {
            Ok(e) => e,
            Err(_) => return Err(ProverError::FftPrecondition),
        };
        if witness_eval.len() != self.poly_eval.len() {
            return Err(ProverError::DomainMismatch);
        }
        if lagrange_srs.len() != self.poly_eval.len() {
            return Err(ProverError::MsmPrecondition);
        }
        let evaluations = product_evaluations(&witness_eval, &self.poly_eval);
        let window = msm_window(evaluations.len());
        Ok(windowed_msm(&evaluations, lagrange_srs.as_slice(), window))
    }

    /// The commitment to `witness * base` through the powers-of-tau reference
    /// string: the product is interpolated back to coefficients, which weigh
    /// the first points of `pwrs_tau`.
    pub fn commit_polynomial(&self, witness: &Vec<Scalar>, pwrs_tau: &Vec<Point>) -> (r: Result<Point, ProverError>)
        requires
            self.wf(),
            all_canonical(witness@),
            witness.len() <= MAX_COEFFS,
            all_on_curve(pwrs_tau@),
        ensures
            r matches Ok(c) ==> on_curve(c@),
            !domain_fits(scalar_values(witness@), 2) ==> r == Err::<Point, ProverError>(ProverError::FftPrecondition),
            domain_fits(scalar_values(witness@), 2) && domain_size(scalar_values(witness@), 2) != self.poly_eval.len()
                ==> r == Err::<Point, ProverError>(ProverError::DomainMismatch),
            domain_fits(scalar_values(witness@), 2) && domain_size(scalar_values(witness@), 2) == self.poly_eval.len()
                && pwrs_tau.len() >= self.poly_eval.len() ==> r.is_ok(),
            domain_fits(scalar_values(witness@), 2) && domain_size(scalar_values(witness@), 2) == self.poly_eval.len()
                ==> {
                let coeffs = interpolation(pointwise_product(evaluations(scalar_values(witness@), 2), self@));
                &&& pwrs_tau.len() < coeffs.len() ==> r == Err::<Point, ProverError>(ProverError::MsmPrecondition)
                &&& pwrs_tau.len() >= coeffs.len() ==> r == Ok::<Point, ProverError>(r->Ok_0)
                &&& pwrs_tau.len() >= coeffs.len() ==> r->Ok_0@ == weighted_sum(
                    coeffs,
                    point_models(pwrs_tau@).take(coeffs.len() as int),
                )
            },
    {
        let witness_eval = match evaluate_fft(witness, 2) {
            Ok(e) => e,
            Err(_) => return Err(ProverError::FftPrecondition),
        };
        if witness_eval.len() != self.poly_eval.len() {
            return Err(ProverError::DomainMismatch);
        }
        let evaluations = product_evaluations(&witness_eval, &self.poly_eval);
        proof {
            lemma_log2_of_pow2(crate::poly::ceil_log2(crate::poly::trimmed_len(scalar_values(witness@))) + 1);
            vstd::arithmetic::power2::lemma_pow2_unfold(
                crate::poly::ceil_log2(crate::poly::trimmed_len(scalar_values(witness@))) + 1);
        }
        let coeff = match interpolate_fft(&evaluations) {
            Ok(c) => c,
            Err(_) => return Err(ProverError::FftPrecondition),
        };
        if pwrs_tau.len() < coeff.len() {
            return Err(ProverError::MsmPrecondition);
        }
        let points = slice_subrange(pwrs_tau.as_slice(), 0, coeff.len());
        assert(point_models(points@) =~= point_models(pwrs_tau@).take(coeff.len() as int));
        assert(all_on_curve(points@)) by {
            assert forall|i: int| 0 <= i < points@.len() implies on_curve(#[trigger] points@[i]@) by {
                assert(points@[i] == pwrs_tau@[i]);
            }
        }
        let window = msm_window(evaluations.len());
        Ok(windowed_msm(&coeff, points, window))
    }
}

} // verus!
