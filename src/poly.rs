//! Scalar-domain FFTs and the root-of-unity tables, as lambdaworks computes them.
use crate::field::{all_canonical, scalar_values, Scalar};
use crate::group::Point;
use lambdaworks_math::elliptic_curve::short_weierstrass::curves::bls12_381::default_types::{
    FrElement, FrField,
};
use lambdaworks_math::fft::cpu::bit_reversing::in_place_bit_reverse_permute;
use lambdaworks_math::fft::cpu::roots_of_unity::get_twiddles;
use lambdaworks_math::fft::errors::FFTError;
use lambdaworks_math::field::traits::RootsConfig;
use lambdaworks_math::polynomial::Polynomial;
use lambdaworks_math::unsigned_integer::element::U256;
use vstd::arithmetic::power2::pow2;
use vstd::prelude::*;

verus! {

#[verifier::external_type_specification]
#[verifier::external_body]
pub struct ExFFTError(FFTError);

/// The largest `k` for which the scalar field has a root of unity of order `2^k`.
pub open spec fn two_adicity() -> nat {
    32
}

/// `floor(log2(n))`, and 0 for `n <= 1`.
pub open spec fn log2(n: nat) -> nat
    decreases n,
{
    if n <= 1 {
        0
    } else {
        1 + log2(n / 2)
    }
}

/// `ceil(log2(n))`, and 0 for `n <= 1`.
pub open spec fn ceil_log2(n: nat) -> nat
    decreases n,
{
    if n <= 1 {
        0
    } else {
        1 + ceil_log2(((n + 1) / 2) as nat)
    }
}

pub open spec fn is_power_of_two(n: nat) -> bool {
    n == pow2(log2(n)) && n > 0
}

/// The number of coefficients left once trailing zeros are dropped.
pub open spec fn trimmed_len(c: Seq<nat>) -> nat
    decreases c.len(),
{
    if c.len() == 0 {
        0
    } else if c.last() == 0 {
        trimmed_len(c.drop_last())
    } else {
        c.len()
    }
}

/// The size of the domain on which a polynomial with these coefficients is
/// evaluated: the next power of two above its length, times the blowup factor.
pub open spec fn domain_size(c: Seq<nat>, blowup: nat) -> nat {
    pow2(ceil_log2(trimmed_len(c))) * blowup
}

/// Whether that domain exists in the scalar field.
pub open spec fn domain_fits(c: Seq<nat>, blowup: nat) -> bool {
    ceil_log2(trimmed_len(c)) + log2(blowup) <= two_adicity()
}

/// The values of the polynomial with coefficients `c` at the successive powers
/// of a primitive root of unity of order `domain_size(c, blowup)`.
pub uninterp spec fn evaluations(c: Seq<nat>, blowup: nat) -> Seq<nat>;

/// The coefficients (trailing zeros dropped) of the polynomial that takes the
/// values `e` at the successive powers of a primitive root of unity of order `e.len()`.
pub uninterp spec fn interpolation(e: Seq<nat>) -> Seq<nat>;

/// The `2^order / 2` inverse twiddle factors of order `order`, in bit-reversed order.
pub uninterp spec fn inverse_twiddles(order: nat) -> Seq<nat>;

/// `i` with its lowest `bits` bits in reverse order (higher bits dropped).
pub open spec fn bit_rev(i: nat, bits: nat) -> nat
    decreases bits,
{
    if bits == 0 {
        0
    } else {
        (i % 2) * pow2((bits - 1) as nat) + bit_rev(i / 2, (bits - 1) as nat)
    }
}

/// The logarithm of a 64-bit value is below 64.
pub proof fn lemma_log2_below(n: nat)
    requires
        n <= 0xffff_ffff_ffff_ffff,
    ensures
        log2(n) < 64,
{
    vstd::arithmetic::power2::lemma2_to64();
    lemma_log2_le(n, 64);
}

/// `log2(n) < k` whenever `0 < k` and `n < 2^k`.
pub proof fn lemma_log2_le(n: nat, k: nat)
    requires
        n < pow2(k),
        k > 0,
    ensures
        log2(n) < k,
    decreases n,
{
    vstd::arithmetic::power2::lemma2_to64();
    if n > 1 {
        vstd::arithmetic::power2::lemma_pow2_unfold(k);
        if k == 1 {
            assert(false);
        }
        lemma_log2_le(n / 2, (k - 1) as nat);
    }
}

/// `2^k` is a power of two, with logarithm `k`.
pub proof fn lemma_log2_of_pow2(k: nat)
    ensures
        log2(pow2(k)) == k,
        is_power_of_two(pow2(k)),
    decreases k,
{
    vstd::arithmetic::power2::lemma_pow2_pos(k);
    if k == 0 {
        vstd::arithmetic::power2::lemma2_to64();
    } else {
        lemma_log2_of_pow2((k - 1) as nat);
        vstd::arithmetic::power2::lemma_pow2_unfold(k);
        vstd::arithmetic::power2::lemma_pow2_pos((k - 1) as nat);
        assert(pow2(k) / 2 == pow2((k - 1) as nat));
    }
}

/// A bit-reversed index stays below `2^bits`.
pub proof fn lemma_bit_rev_bound(i: nat, bits: nat)
    ensures
        bit_rev(i, bits) < pow2(bits),
    decreases bits,
{
    vstd::arithmetic::power2::lemma_pow2_pos(bits);
    if bits > 0 {
        lemma_bit_rev_bound(i / 2, (bits - 1) as nat);
        vstd::arithmetic::power2::lemma_pow2_unfold(bits);
        let h = pow2((bits - 1) as nat);
        assert((i % 2) * h <= h) by (nonlinear_arith)
            requires i % 2 <= 1, h > 0;
    } else {
        vstd::arithmetic::power2::lemma2_to64();
    }
}

/// `s` reordered so that position `i` holds the element at `bit_rev(i)`.
pub open spec fn bit_reversed<T>(s: Seq<T>) -> Seq<T> {
    Seq::new(s.len(), |i: int| s[bit_rev(i as nat, log2(s.len())) as int])
}

/// Relies on lambdaworks' `Polynomial::new` (drops trailing zeros) and
/// `Polynomial::evaluate_fft`, which fails only when the domain exceeds the
/// field's two-adicity.
#[verifier::external_body]
pub(crate) fn evaluate_fft(coeffs: &Vec<Scalar>, blowup: usize) -> (r: Result<Vec<Scalar>, FFTError>)
    requires
        all_canonical(coeffs@),
        blowup == 1 || blowup == 2,
        coeffs.len() <= 0xffff_ffff,
    ensures
        r.is_ok() <==> domain_fits(scalar_values(coeffs@), blowup as nat),
        r matches Ok(e) ==> {
            &&& scalar_values(e@) == evaluations(scalar_values(coeffs@), blowup as nat)
            &&& e.len() == domain_size(scalar_values(coeffs@), blowup as nat)
            &&& all_canonical(e@)
        },
{
    let cs: Vec<FrElement> = coeffs.iter().map(|s| FrElement::new(U256 { limbs: s.limbs })).collect();
    let e = Polynomial::evaluate_fft::<FrField>(&Polynomial::new(&cs), blowup, None)?;
    Ok(e.iter().map(|v| Scalar { limbs: v.representative().limbs }).collect())
}

/// Relies on lambdaworks' `Polynomial::interpolate_fft`, which fails only when
/// the length is not a power of two whose order the field has.
#[verifier::external_body]
pub(crate) fn interpolate_fft(evals: &Vec<Scalar>) -> (r: Result<Vec<Scalar>, FFTError>)
    requires
        all_canonical(evals@),
    ensures
        r.is_ok() <==> (is_power_of_two(evals.len() as nat) && log2(evals.len() as nat) <= two_adicity()),
        r matches Ok(c) ==> {
            &&& scalar_values(c@) == interpolation(scalar_values(evals@))
            &&& c.len() <= evals.len()
            &&& all_canonical(c@)
        },
{
    let es: Vec<FrElement> = evals.iter().map(|s| FrElement::new(U256 { limbs: s.limbs })).collect();
    let p = Polynomial::interpolate_fft::<FrField>(&es)?;
    Ok(p.coefficients().iter().map(|v| Scalar { limbs: v.representative().limbs }).collect())
}

/// Relies on lambdaworks' `get_twiddles` with `RootsConfig::BitReverseInversed`:
/// `2^order / 2` powers of the inverse of a primitive root of order `2^order`,
/// failing when the field has no such root.
#[verifier::external_body]
pub(crate) fn twiddles_inversed(order: u64) -> (r: Result<Vec<Scalar>, FFTError>)
    ensures
        r.is_ok() <==> order <= two_adicity(),
        r matches Ok(t) ==> {
            &&& scalar_values(t@) == inverse_twiddles(order as nat)
            &&& t.len() == pow2(order as nat) / 2
            &&& all_canonical(t@)
        },
{
    let t = get_twiddles::<FrField>(order, RootsConfig::BitReverseInversed)?;
    Ok(t.iter().map(|v| Scalar { limbs: v.representative().limbs }).collect())
}

/// Relies on lambdaworks' `in_place_bit_reverse_permute`, which swaps each
/// position with its bit-reversed counterpart.
#[verifier::external_body]
pub(crate) fn bit_reverse_permute(v: &mut Vec<Point>)
    requires
        is_power_of_two(old(v).len() as nat),
    ensures
        final(v)@ == bit_reversed(old(v)@),
{
    in_place_bit_reverse_permute(v.as_mut_slice());
}

} // verus!
