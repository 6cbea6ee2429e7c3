//! Scalars of the BLS12-381 subgroup field, held as their canonical representative.
use lambdaworks_math::elliptic_curve::short_weierstrass::curves::bls12_381::default_types::FrElement;
use lambdaworks_math::unsigned_integer::element::U256;
use vstd::arithmetic::power::pow;
use vstd::prelude::*;

verus! {

/// The order of the BLS12-381 G1 subgroup, which is the modulus of the scalar field.
pub open spec fn fr_modulus() -> nat {
    limbs_value(seq![0x73eda753299d7d48u64, 0x3339d80809a1d805u64, 0x53bda402fffe5bfeu64, 0xffffffff00000001u64])
}

/// The integer held by big-endian 64-bit limbs (the first limb is the most significant).
pub open spec fn limbs_value(limbs: Seq<u64>) -> nat
    decreases limbs.len(),
{
    if limbs.len() == 0 {
        0
    } else {
        limbs_value(limbs.drop_last()) * 0x1_0000_0000_0000_0000 + limbs.last() as nat
    }
}

/// A scalar field element, as four big-endian limbs of its representative.
#[derive(Clone, Copy, Debug, PartialEq, Eq)]
pub struct Scalar {
    pub limbs: [u64; 4],
}

impl View for Scalar {
    type V = nat;

    open spec fn view(&self) -> nat {
        limbs_value(self.limbs@)
    }
}

/// The values of a sequence of scalars.
pub open spec fn scalar_values(s: Seq<Scalar>) -> Seq<nat> {
    s.map_values(|x: Scalar| x@)
}

/// Every scalar of the sequence is canonical.
pub open spec fn all_canonical(s: Seq<Scalar>) -> bool {
    forall|i: int| 0 <= i < s.len() ==> #[trigger] s[i].wf()
}

/// The pointwise product of two sequences of field values.
pub open spec fn pointwise_product(a: Seq<nat>, b: Seq<nat>) -> Seq<nat> {
    Seq::new(a.len(), |i: int| (a[i] * b[i]) % fr_modulus())
}

/// The value of four limbs, written out.
pub proof fn lemma_four_limbs(a: u64, b: u64, c: u64, d: u64)
    ensures
        limbs_value(seq![a, b, c, d]) == ((a as nat * 0x1_0000_0000_0000_0000 + b as nat)
            * 0x1_0000_0000_0000_0000 + c as nat) * 0x1_0000_0000_0000_0000 + d as nat,
{
    let s = seq![a, b, c, d];
    assert(s.drop_last() == seq![a, b, c]);
    assert(s.drop_last().drop_last() == seq![a, b]);
    assert(s.drop_last().drop_last().drop_last() == seq![a]);
    assert(seq![a].drop_last() == Seq::<u64>::empty());
    reveal_with_fuel(limbs_value, 5);
}

/// `n` limbs hold a value below `2^(64 n)`.
pub proof fn lemma_limbs_bound(limbs: Seq<u64>)
    ensures
        limbs_value(limbs) < vstd::arithmetic::power2::pow2(64 * limbs.len()),
    decreases limbs.len(),
{
    vstd::arithmetic::power2::lemma2_to64();
    if limbs.len() > 0 {
        let rest = limbs.drop_last();
        lemma_limbs_bound(rest);
        vstd::arithmetic::power2::lemma_pow2_adds(64 * rest.len(), 64);
        assert(64 * limbs.len() == 64 * rest.len() + 64);
        let b = vstd::arithmetic::power2::pow2(64 * rest.len());
        let v = limbs_value(rest);
        let l = limbs.last() as nat;
        assert(v * 0x1_0000_0000_0000_0000 + l < b * 0x1_0000_0000_0000_0000) by (nonlinear_arith)
            requires v < b, l < 0x1_0000_0000_0000_0000;
    }
}

/// The modulus exceeds every 64-bit value.
pub proof fn lemma_modulus_is_large()
    ensures
        fr_modulus() > 0xffff_ffff_ffff_ffff,
{
    lemma_four_limbs(0x73eda753299d7d48u64, 0x3339d80809a1d805u64, 0x53bda402fffe5bfeu64, 0xffffffff00000001u64);
}

impl Scalar {
    /// Whether the limbs hold a canonical representative, below the modulus.
    pub open spec fn wf(&self) -> bool {
        self@ < fr_modulus()
    }

    /// The scalar whose representative is `v`.
    pub fn from_u64(v: u64) -> (r: Scalar)
        ensures
            r@ == v as nat,
            r.wf(),
    {
        proof {
            lemma_four_limbs(0, 0, 0, v);
            lemma_modulus_is_large();
        }
        let r = Scalar { limbs: [0u64, 0u64, 0u64, v] };
        assert(r.limbs@ == seq![0u64, 0u64, 0u64, v]);
        assert(r@ == v as nat);
        r
    }

    /// The field product of two scalars.
    ///
    /// Relies on lambdaworks' Montgomery field multiplication and `representative`,
    /// which returns the canonical residue.
    #[verifier::external_body]
    pub(crate) fn mul(&self, other: &Scalar) -> (r: Scalar)
        requires
            self.wf(),
            other.wf(),
        ensures
            r@ == (self@ * other@) % fr_modulus(),
            r.wf(),
    {
        let a = FrElement::new(U256 { limbs: self.limbs });
        let b = FrElement::new(U256 { limbs: other.limbs });
        Scalar { limbs: (a * b).representative().limbs }
    }

    /// This scalar raised to the power `exponent`, read as a plain integer.
    ///
    /// Relies on lambdaworks' `FieldElement::pow` (square and multiply).
    #[verifier::external_body]
    pub(crate) fn pow(&self, exponent: &Scalar) -> (r: Scalar)
        requires
            self.wf(),
        ensures
            r@ == pow(self@ as int, exponent@) % (fr_modulus() as int),
            r.wf(),
    {
        let a = FrElement::new(U256 { limbs: self.limbs });
        Scalar { limbs: a.pow(U256 { limbs: exponent.limbs }).representative().limbs }
    }
}

} // verus!
