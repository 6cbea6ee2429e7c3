//! The powers-of-tau reference string.
use crate::field::{fr_modulus, Scalar};
use crate::group::{all_on_curve, generator, generator_model, on_curve, point_models, point_scaled, Point, PointModel};
use vstd::arithmetic::power::pow;
use vstd::prelude::*;

verus! {

/// `x^i` in the scalar field.
pub open spec fn power_value(x: nat, i: nat) -> nat {
    (pow(x as int, i) % (fr_modulus() as int)) as nat
}

/// The `n` points `tau^i * G` for `i < n`, where the first is the generator itself.
pub open spec fn srs_model(n: nat, tau: nat) -> Seq<PointModel> {
    Seq::new(
        n,
        |i: int|
            if i == 0 {
                generator_model()
            } else {
                point_scaled(generator_model(), power_value(tau, i as nat))
            },
    )
}

/// The powers `x^1, ..., x^n`, each computed on its own.
pub fn vandemonde_challenge(x: &Scalar, n: usize) -> (r: Vec<Scalar>)
    requires
        x.wf(),
    ensures
        r.len() == n,
        forall|i: int| 0 <= i < n ==> (#[trigger] r@[i])@ == power_value(x@, (i + 1) as nat),
        forall|i: int| 0 <= i < n ==> (#[trigger] r@[i]).wf(),
{
    let mut powers: Vec<Scalar> = Vec::with_capacity(n);
    let mut i: usize = 0;
    while i < n
        invariant
            x.wf(),
            powers.len() == i,
            i <= n,
            forall|k: int| 0 <= k < i ==> (#[trigger] powers@[k])@ == power_value(x@, (k + 1) as nat),
            forall|k: int| 0 <= k < i ==> (#[trigger] powers@[k]).wf(),
        decreases n - i,
    {
        let e = Scalar::from_u64((i + 1) as u64);
        let p = x.pow(&e);
        powers.push(p);
        i = i + 1;
    }
    powers
}

/// The powers-of-tau reference string of length `n`: the generator scaled by
/// `tau^i` at position `i`.
pub fn generate_srs(n: usize, tau: Scalar) -> (r: Vec<Point>)
    requires
        tau.wf(),
    ensures
        point_models(r@) == srs_model(n as nat, tau@),
        all_on_curve(r@),
{
    let g1 = generator();
    let mut tau_g1: Vec<Point> = Vec::with_capacity(n);
    if n == 0 {
        assert(point_models(tau_g1@) =~= srs_model(0, tau@));
        return tau_g1;
    }
    let powers_of_tau = vandemonde_challenge(&tau, n - 1);
    tau_g1.push(g1);
    let mut i: usize = 1;
    while i < n
        invariant
            1 <= i <= n,
            tau_g1.len() == i,
            powers_of_tau.len() == n - 1,
            g1@ == generator_model(),
            on_curve(g1@),
            all_on_curve(tau_g1@),
            forall|k: int| 0 <= k < n - 1 ==> (#[trigger] powers_of_tau@[k])@ == power_value(tau@, (k + 1) as nat),
            forall|k: int| 0 <= k < i ==> (#[trigger] point_models(tau_g1@)[k]) == srs_model(n as nat, tau@)[k],
        decreases n - i,
    {
        let p = g1.scale(&powers_of_tau[i - 1]);
        let ghost pre = point_models(tau_g1@);
        tau_g1.push(p);
        assert(point_models(tau_g1@) =~= pre.push(p@));
        i = i + 1;
    }
    assert(point_models(tau_g1@) =~= srs_model(n as nat, tau@));
    tau_g1
}

/// The reference string depends on `n` and `tau` alone, has length `n`, and
/// starts with the generator whatever `tau` is.
pub proof fn lemma_srs_generation(n: nat, tau: nat, other_tau: nat)
    ensures
        srs_model(n, tau).len() == n,
        n > 0 ==> srs_model(n, tau)[0] == generator_model(),
        n > 0 ==> srs_model(n, tau)[0] == srs_model(n, other_tau)[0],
        tau == other_tau ==> srs_model(n, tau) == srs_model(n, other_tau),
{
}

} // verus!
