//! The group-domain FFT that turns a powers-of-tau SRS into a Lagrange-basis SRS,
//! and the window heuristic of the multi-scalar multiplication.
use crate::field::{
    all_canonical, fr_modulus, lemma_four_limbs, lemma_modulus_is_large, scalar_values, Scalar,
};
use crate::group::{
    all_on_curve, point_models, point_negated, point_scaled, point_sum, Point, PointModel,
};
use crate::poly::{
    bit_reverse_permute, bit_reversed, inverse_twiddles, is_power_of_two, lemma_bit_rev_bound, log2,
    twiddles_inversed, two_adicity,
};
use crate::prover::ProverError;
use lambdaworks_math::elliptic_curve::short_weierstrass::curves::bls12_381::default_types::FrElement;
use lambdaworks_math::unsigned_integer::element::U256;
use rand::Rng;
use vstd::arithmetic::div_mod::lemma_fundamental_div_mod_converse;
use vstd::arithmetic::power::pow;
use vstd::arithmetic::power2::{lemma_pow2_unfold, pow2};
use vstd::prelude::*;

verus! {

/// The window size of the multi-scalar multiplication over `k` terms:
/// `floor(log2(k)) * 4 / 5`, with 0 for `k <= 1`.
pub open spec fn window_heuristic(k: nat) -> nat {
    log2(k) * 4 / 5
}

/// The window size of the multi-scalar multiplication over `len` terms.
pub fn window_size(len: usize) -> (r: usize)
    ensures
        r == window_heuristic(len as nat),
{
    let mut v: usize = len;
    let mut lg: usize = 0;
    proof {
        vstd::arithmetic::power2::lemma2_to64();
    }
    while v > 1
        invariant
            lg + log2(v as nat) == log2(len as nat),
            v * pow2(lg as nat) <= len,
            lg <= 63,
        decreases v,
    {
        proof {
            lemma_pow2_unfold((lg + 1) as nat);
            assert((v / 2) * pow2((lg + 1) as nat) <= v * pow2(lg as nat)) by (nonlinear_arith)
                requires pow2((lg + 1) as nat) == 2 * pow2(lg as nat), v >= 2;
            assert(pow2(lg as nat) <= len) by (nonlinear_arith)
                requires v * pow2(lg as nat) <= len, v >= 1;
            if lg >= 63 {
                if lg > 63 {
                    vstd::arithmetic::power2::lemma_pow2_strictly_increases(63, lg as nat);
                }
                assert(2 * pow2(lg as nat) <= len) by (nonlinear_arith)
                    requires v * pow2(lg as nat) <= len, v >= 2;
                vstd::arithmetic::power2::lemma2_to64();
                assert(false);
            }
        }
        v = v / 2;
        lg = lg + 1;
    }
    lg * 4 / 5
}

/// `log2` never decreases as its argument grows.
pub proof fn lemma_log2_monotone(a: nat, b: nat)
    requires
        a <= b,
    ensures
        log2(a) <= log2(b),
    decreases b,
{
    if a > 1 {
        lemma_log2_monotone(a / 2, b / 2);
    }
}

/// The window heuristic is 0 on zero and one term, and never decreases as the
/// number of terms grows.
pub proof fn lemma_window_heuristic(a: nat, b: nat)
    requires
        a <= b,
    ensures
        window_heuristic(0) == 0,
        window_heuristic(1) == 0,
        window_heuristic(a) <= window_heuristic(b),
{
    lemma_log2_monotone(a, b);
    assert(log2(a) * 4 / 5 <= log2(b) * 4 / 5) by (nonlinear_arith)
        requires log2(a) <= log2(b);
}

/// One butterfly output: position `i` of a stage whose groups have `group_size`
/// elements. With `w` the twiddle of the group and `(a, b)` the pair that `i`
/// belongs to, the pair becomes `(a + w.b, a - w.b)`.
pub open spec fn butterfly(v: Seq<PointModel>, tw: Seq<nat>, group_size: nat, i: int) -> PointModel {
    let half = (group_size / 2) as int;
    let g = i / (group_size as int);
    if i % (group_size as int) < half {
        point_sum(v[i], point_scaled(v[i + half], tw[g]))
    } else {
        point_sum(v[i - half], point_negated(point_scaled(v[i], tw[g])))
    }
}

/// One stage of the butterfly network.
pub open spec fn butterfly_stage(v: Seq<PointModel>, tw: Seq<nat>, group_size: nat) -> Seq<PointModel> {
    Seq::new(v.len(), |i: int| butterfly(v, tw, group_size, i))
}

/// The stages from groups of `group_size` elements down to groups of two, in turn.
pub open spec fn butterfly_network(v: Seq<PointModel>, tw: Seq<nat>, group_size: nat) -> Seq<PointModel>
    decreases group_size,
{
    if group_size <= 1 {
        v
    } else {
        butterfly_network(butterfly_stage(v, tw, group_size), tw, group_size / 2)
    }
}

proof fn lemma_in_group(k: int, g: int, gs: int)
    requires
        gs > 0,
        g >= 0,
        g * gs <= k < g * gs + gs,
    ensures
        k / gs == g,
        k % gs == k - g * gs,
{
    lemma_fundamental_div_mod_converse(k, gs, g, k - g * gs);
}

/// The in-place, non-reordering radix-2 FFT over G1: at each stage the number
/// of groups doubles and their size halves; group `g` uses `twiddles[g]`.
pub fn in_place_nr_2radix_fft_g(input: &mut Vec<Point>, twiddles: &Vec<Scalar>)
    requires
        old(input).len() == 0 || is_power_of_two(old(input).len() as nat),
        twiddles.len() >= old(input).len() / 2,
        all_on_curve(old(input)@),
    ensures
        final(input).len() == old(input).len(),
        all_on_curve(final(input)@),
        point_models(final(input)@) == butterfly_network(
            point_models(old(input)@),
            scalar_values(twiddles@),
            old(input).len() as nat,
        ),
{
    let ghost tw = scalar_values(twiddles@);
    let ghost target = butterfly_network(point_models(input@), tw, input.len() as nat);
    let n = input.len();
    if n == 0 {
        return;
    }
    let mut group_count: usize = 1;
    let mut group_size: usize = n;
    let ghost mut lg: nat = log2(n as nat);
    assert(group_count * group_size == n);
    while group_count < n
        invariant
            input.len() == n,
            all_on_curve(input@),
            group_count >= 1,
            group_count * group_size == n,
            group_size == pow2(lg),
            twiddles.len() >= n / 2,
            tw == scalar_values(twiddles@),
            butterfly_network(point_models(input@), tw, group_size as nat) == target,
        decreases group_size,
    {
        proof {
            if lg == 0 {
                vstd::arithmetic::power2::lemma2_to64();
                assert(group_count * group_size == group_count);
                assert(false);
            }
            lemma_pow2_unfold(lg);
            vstd::arithmetic::power2::lemma_pow2_pos((lg - 1) as nat);
            assert(group_count <= n / 2) by (nonlinear_arith)
                requires group_count * group_size == n, group_size >= 2, group_count >= 1;
        }
        let half = group_size / 2;
        let ghost before = point_models(input@);
        let mut group: usize = 0;
        while group < group_count
            invariant
                input.len() == n,
                all_on_curve(input@),
                group <= group_count,
                group_count * group_size == n,
                group_count <= n / 2,
                group_size == 2 * half,
                half >= 1,
                twiddles.len() >= n / 2,
                tw == scalar_values(twiddles@),
                before.len() == n,
                forall|k: int| 0 <= k < group * group_size ==>
                    point_models(input@)[k] == #[trigger] butterfly(before, tw, group_size as nat, k),
                forall|k: int| group * group_size <= k < n ==>
                    #[trigger] point_models(input@)[k] == before[k],
            decreases group_count - group,
        {
            proof {
                assert(group * group_size + group_size <= n) by (nonlinear_arith)
                    requires group < group_count, group_count * group_size == n;
            }
            let first = group * group_size;
            let w = &twiddles[group];
            let mut i = first;
            while i < first + half
                invariant
                    input.len() == n,
                    all_on_curve(input@),
                    first == group * group_size,
                    first + group_size <= n,
                    first <= i <= first + half,
                    group_size == 2 * half,
                    group < group_count,
                    group < twiddles.len(),
                    w == twiddles@[group as int],
                    tw == scalar_values(twiddles@),
                    before.len() == n,
                    forall|k: int| 0 <= k < first ==>
                        point_models(input@)[k] == #[trigger] butterfly(before, tw, group_size as nat, k),
                    forall|k: int| (first <= k < i || first + half <= k < i + half) ==>
                        point_models(input@)[k] == #[trigger] butterfly(before, tw, group_size as nat, k),
                    forall|k: int| (i <= k < first + half || i + half <= k < n) ==>
                        #[trigger] point_models(input@)[k] == before[k],
                decreases first + half - i,
            {
                let wi = input[i + half].scale(w);
                let y0 = input[i].add(&wi);
                let y1 = input[i].add(&wi.neg());
                proof {
                    lemma_in_group(i as int, group as int, group_size as int);
                    lemma_in_group((i + half) as int, group as int, group_size as int);
                    assert(point_models(input@)[i as int] == before[i as int]);
                    assert(point_models(input@)[(i + half) as int] == before[(i + half) as int]);
                }
                let ghost pre = point_models(input@);
                input.set(i, y0);
                input.set(i + half, y1);
                assert(point_models(input@) =~= pre.update(i as int, y0@).update((i + half) as int, y1@));
                i = i + 1;
            }
            proof {
                assert forall|k: int| 0 <= k < (group + 1) * group_size implies
                    point_models(input@)[k] == #[trigger] butterfly(before, tw, group_size as nat, k) by {
                    assert((group + 1) * group_size == first + group_size) by (nonlinear_arith)
                        requires first == group * group_size;
                }
                assert((group + 1) * group_size == first + group_size) by (nonlinear_arith)
                    requires first == group * group_size;
            }
            group = group + 1;
        }
        proof {
            assert(group * group_size == n);
            assert(point_models(input@) =~= butterfly_stage(before, tw, group_size as nat));
            assert(group_size as nat / 2 == half);
            assert((group_count * 2) * half == n) by (nonlinear_arith)
                requires group_count * group_size == n, group_size == 2 * half;
            lg = (lg - 1) as nat;
        }
        group_count = group_count * 2;
        group_size = half;
    }
    proof {
        if group_size > 1 {
            assert(group_count * group_size >= group_count * 2) by (nonlinear_arith)
                requires group_size > 1, group_count >= 1;
        }
        assert(group_size <= 1);
    }
}

/// The Lagrange-basis reference string computed from a powers-of-tau one of
/// power-of-two length `n`: the butterfly network with the inverse twiddles of
/// order `log2(n)`, then the bit-reversal permutation, then every point scaled
/// by `n^(r - 2) = 1 / n` in the scalar field.
pub open spec fn lagrange_points(srs: Seq<PointModel>) -> Seq<PointModel> {
    let n = srs.len();
    let permuted = bit_reversed(butterfly_network(srs, inverse_twiddles(log2(n)), n));
    let inv_n = pow(n as int, (fr_modulus() - 2) as nat) % (fr_modulus() as int);
    Seq::new(n, |i: int| point_scaled(permuted[i], inv_n as nat))
}

/// `log2(n)` when `n` is a power of two, and `None` otherwise.
pub fn power_of_two_log(n: usize) -> (r: Option<usize>)
    ensures
        r.is_some() <==> is_power_of_two(n as nat),
        r matches Some(k) ==> k == log2(n as nat),
{
    let mut v: usize = n;
    let mut k: usize = 0;
    proof {
        vstd::arithmetic::power2::lemma2_to64();
    }
    while v > 1 && v % 2 == 0
        invariant
            n == v * pow2(k as nat),
            k + log2(v as nat) == log2(n as nat),
            k <= 64,
        decreases v,
    {
        proof {
            lemma_pow2_unfold((k + 1) as nat);
            assert(n == (v / 2) * pow2((k + 1) as nat)) by (nonlinear_arith)
                requires n == v * pow2(k as nat), pow2((k + 1) as nat) == 2 * pow2(k as nat), v % 2 == 0;
            vstd::arithmetic::power2::lemma_pow2_pos(k as nat);
            if k >= 63 {
                if k > 63 {
                    vstd::arithmetic::power2::lemma_pow2_strictly_increases(63, k as nat);
                }
                vstd::arithmetic::power2::lemma2_to64();
                assert(v * pow2(k as nat) >= 2 * pow2(k as nat)) by (nonlinear_arith)
                    requires v >= 2;
                assert(false);
            }
        }
        v = v / 2;
        k = k + 1;
    }
    if v == 1 {
        proof {
            assert(log2(1) == 0);
        }
        Some(k)
    } else {
        proof {
            if n > 0 && n == pow2(log2(n as nat)) {
                vstd::arithmetic::power2::lemma_pow2_adds(k as nat, log2(v as nat));
                assert(v > 1);
                assert(log2(v as nat) >= 1);
                lemma_pow2_unfold(log2(v as nat));
                assert(v * pow2(k as nat) == pow2(k as nat) * pow2(log2(v as nat)));
                vstd::arithmetic::power2::lemma_pow2_pos(k as nat);
                assert(v == pow2(log2(v as nat))) by (nonlinear_arith)
                    requires v * pow2(k as nat) == pow2(k as nat) * pow2(log2(v as nat)), pow2(k as nat) > 0;
                assert(v % 2 == 0);
            }
            if n == 0 {
                assert(v == 0);
            }
        }
        None
    }
}

/// The Lagrange-basis reference string for the domain of the `points.len()`-th
/// roots of unity, from the powers-of-tau one. Fails unless the length is a
/// power of two that the scalar field supports.
pub fn to_lagrange_basis(points: &Vec<Point>) -> (r: Result<Vec<Point>, ProverError>)
    requires
        all_on_curve(points@),
    ensures
        r matches Ok(l) ==> all_on_curve(l@),
        r.is_ok() <==> (is_power_of_two(points.len() as nat) && log2(points.len() as nat) <= two_adicity()),
        r matches Ok(l) ==> point_models(l@) == lagrange_points(point_models(points@)),
        r matches Err(e) ==> e == ProverError::FftPrecondition,
{
    let n = points.len();
    let order = match power_of_two_log(n) {
        Some(k) => k,
        None => return Err(ProverError::FftPrecondition),
    };
    let twiddles = match twiddles_inversed(order as u64) {
        Ok(t) => t,
        Err(_) => return Err(ProverError::FftPrecondition),
    };
    let mut results = points.clone();
    assert(results@ == points@);
    in_place_nr_2radix_fft_g(&mut results, &twiddles);
    let ghost transformed = results@;
    bit_reverse_permute(&mut results);
    let ghost permuted = point_models(results@);
    assert forall|j: int| 0 <= j < n implies #[trigger] permuted[j] == bit_reversed(point_models(transformed))[j] by {
        lemma_bit_rev_bound(j as nat, log2(n as nat));
    }
    assert(permuted =~= bit_reversed(point_models(transformed)));
    assert forall|j: int| 0 <= j < n implies crate::group::on_curve(#[trigger] results@[j]@) by {
        lemma_bit_rev_bound(j as nat, log2(n as nat));
        assert(results@[j] == transformed[crate::poly::bit_rev(j as nat, log2(n as nat)) as int]);
    }
    proof {
        lemma_modulus_is_large();
        lemma_four_limbs(0x73eda753299d7d48u64, 0x3339d80809a1d805u64, 0x53bda402fffe5bfeu64, 0xffffffff00000001u64);
        lemma_four_limbs(0x73eda753299d7d48u64, 0x3339d80809a1d805u64, 0x53bda402fffe5bfeu64, 0xfffffffeffffffffu64);
    }
    let exponent = Scalar { limbs: [0x73eda753299d7d48u64, 0x3339d80809a1d805u64, 0x53bda402fffe5bfeu64, 0xfffffffeffffffffu64] };
    assert(exponent.limbs@ == seq![0x73eda753299d7d48u64, 0x3339d80809a1d805u64, 0x53bda402fffe5bfeu64, 0xfffffffeffffffffu64]);
    assert(exponent@ == fr_modulus() - 2);
    let inv_length = Scalar::from_u64(n as u64).pow(&exponent);
    let mut i: usize = 0;
    while i < n
        invariant
            results.len() == n,
            all_on_curve(results@),
            n == points.len(),
            permuted.len() == n,
            inv_length@ == pow(n as int, (fr_modulus() - 2) as nat) % (fr_modulus() as int),
            forall|k: int| 0 <= k < i ==> #[trigger] point_models(results@)[k] == point_scaled(permuted[k], inv_length@),
            forall|k: int| i <= k < n ==> #[trigger] point_models(results@)[k] == permuted[k],
        decreases n - i,
    {
        let p = results[i].scale(&inv_length);
        let ghost pre = point_models(results@);
        assert(pre[i as int] == results@[i as int]@);
        results.set(i, p);
        assert(point_models(results@) =~= pre.update(i as int, p@));
        i = i + 1;
    }
    assert(point_models(results@) =~= lagrange_points(point_models(points@)));
    Ok(results)
}

/// The elements at even positions.
pub open spec fn even_positions<T>(s: Seq<T>) -> Seq<T> {
    Seq::new((s.len() + 1) / 2, |i: int| s[2 * i])
}

/// The elements at odd positions.
pub open spec fn odd_positions<T>(s: Seq<T>) -> Seq<T> {
    Seq::new(s.len() / 2, |i: int| s[2 * i + 1])
}

/// The recursive radix-2 FFT over G1 on `domain`: split the points by parity of
/// position, transform both halves on the even positions of the domain, and
/// combine output `i` and `i + n/2` as `a + d_i.b` and `a - d_i.b`.
pub open spec fn group_fft(points: Seq<PointModel>, domain: Seq<nat>) -> Seq<PointModel>
    decreases points.len(),
{
    if points.len() <= 1 {
        points
    } else {
        let a = group_fft(even_positions(points), even_positions(domain));
        let b = group_fft(odd_positions(points), even_positions(domain));
        let half = a.len();
        Seq::new(
            points.len(),
            |i: int|
                if i < half {
                    point_sum(a[i], point_scaled(b[i], domain[i]))
                } else {
                    point_sum(a[i - half], point_negated(point_scaled(b[i - half], domain[i - half])))
                },
        )
    }
}

/// The transform keeps the number of points.
pub proof fn lemma_group_fft_len(points: Seq<PointModel>, domain: Seq<nat>)
    ensures
        group_fft(points, domain).len() == points.len(),
    decreases points.len(),
{
}

/// The recursive FFT of `points` over G1, on the domain `domain` (whose first
/// `points.len()` entries are read, and of which every second one is passed down).
pub fn fft_g(points: &[Point], domain: &[Scalar]) -> (r: Vec<Point>)
    requires
        is_power_of_two(points.len() as nat),
        domain.len() >= points.len() / 2,
        all_on_curve(points@),
    ensures
        all_on_curve(r@),
        point_models(r@) == group_fft(point_models(points@), scalar_values(domain@)),
    decreases points.len(),
{
    let n = points.len();
    if n == 1 {
        let mut r: Vec<Point> = Vec::new();
        r.push(points[0]);
        assert(point_models(r@) =~= point_models(points@));
        return r;
    }
    proof {
        let lg = log2(n as nat);
        if lg == 0 {
            vstd::arithmetic::power2::lemma2_to64();
        }
        lemma_pow2_unfold(lg);
        crate::poly::lemma_log2_of_pow2((lg - 1) as nat);
        vstd::arithmetic::power2::lemma_pow2_pos((lg - 1) as nat);
    }
    let half = n / 2;
    let mut even_points: Vec<Point> = Vec::with_capacity(half);
    let mut odd_points: Vec<Point> = Vec::with_capacity(half);
    let mut i: usize = 0;
    while i < half
        invariant
            half == n / 2,
            n == points.len(),
            n % 2 == 0,
            i <= half,
            all_on_curve(points@),
            all_on_curve(even_points@),
            all_on_curve(odd_points@),
            even_points.len() == i,
            odd_points.len() == i,
            forall|k: int| 0 <= k < i ==> #[trigger] even_points@[k] == points@[2 * k],
            forall|k: int| 0 <= k < i ==> #[trigger] odd_points@[k] == points@[2 * k + 1],
        decreases half - i,
    {
        even_points.push(points[2 * i]);
        odd_points.push(points[2 * i + 1]);
        i = i + 1;
    }
    let m = domain.len();
    let sub_len = m / 2 + m % 2;
    let mut sub_domain: Vec<Scalar> = Vec::with_capacity(sub_len);
    let mut j: usize = 0;
    while j < sub_len
        invariant
            m == domain.len(),
            sub_len == (m + 1) / 2,
            j <= sub_len,
            sub_domain.len() == j,
            forall|k: int| 0 <= k < j ==> #[trigger] sub_domain@[k] == domain@[2 * k],
        decreases sub_len - j,
    {
        sub_domain.push(domain[2 * j]);
        j = j + 1;
    }
    assert(point_models(even_points@) =~= even_positions(point_models(points@)));
    assert(point_models(odd_points@) =~= odd_positions(point_models(points@)));
    assert(scalar_values(sub_domain@) =~= even_positions(scalar_values(domain@)));
    let a = fft_g(even_points.as_slice(), sub_domain.as_slice());
    let b = fft_g(odd_points.as_slice(), sub_domain.as_slice());
    proof {
        lemma_group_fft_len(point_models(even_points@), scalar_values(sub_domain@));
        lemma_group_fft_len(point_models(odd_points@), scalar_values(sub_domain@));
    }
    let ghost am = point_models(a@);
    let ghost bm = point_models(b@);
    let ghost dm = scalar_values(domain@);
    let g1 = crate::group::generator();
    let mut result: Vec<Point> = Vec::with_capacity(n);
    let mut k: usize = 0;
    while k < n
        invariant
            result.len() == k,
            k <= n,
            crate::group::on_curve(g1@),
            forall|t: int| 0 <= t < k ==> (#[trigger] result@[t]) == g1,
        decreases n - k,
    {
        result.push(g1);
        k = k + 1;
    }
    let mut i: usize = 0;
    while i < half
        invariant
            half == n / 2,
            n == points.len(),
            n % 2 == 0,
            i <= half,
            domain.len() >= half,
            a.len() == half,
            b.len() == half,
            result.len() == n,
            all_on_curve(a@),
            all_on_curve(b@),
            all_on_curve(result@),
            am == point_models(a@),
            bm == point_models(b@),
            dm == scalar_values(domain@),
            forall|t: int| 0 <= t < i ==> #[trigger] point_models(result@)[t] == point_sum(
                am[t], point_scaled(bm[t], dm[t])),
            forall|t: int| 0 <= t < i ==> #[trigger] point_models(result@)[t + half] == point_sum(
                am[t], point_negated(point_scaled(bm[t], dm[t]))),
        decreases half - i,
    {
        let even_times_root = b[i].scale(&domain[i]);
        let y0 = a[i].add(&even_times_root);
        let y1 = a[i].add(&even_times_root.neg());
        let ghost pre = point_models(result@);
        result.set(i, y0);
        result.set(i + half, y1);
        assert(point_models(result@) =~= pre.update(i as int, y0@).update((i + half) as int, y1@));
        i = i + 1;
    }
    proof {
        assert(am.len() == half);
        assert forall|t: int| 0 <= t < n implies #[trigger] point_models(result@)[t]
            == group_fft(point_models(points@), dm)[t] by {
            if t >= half {
                assert(point_models(result@)[(t - half) + half] == point_sum(
                    am[t - half], point_negated(point_scaled(bm[t - half], dm[t - half]))));
            }
        }
    }
    assert(point_models(result@) =~= group_fft(point_models(points@), scalar_values(domain@)));
    result
}

/// A random scalar field element.
///
/// Relies on rand's `thread_rng` for four uniform 64-bit limbs, which
/// lambdaworks' `FieldElement::new` reduces into the field; `representative`
/// returns the canonical residue. Nothing is known of the value.
#[verifier::external_body]
pub fn random_fr() -> (r: Scalar)
    ensures
        r.wf(),
{
    let mut rng = rand::thread_rng();
    let limbs = [rng.gen::<u64>(), rng.gen::<u64>(), rng.gen::<u64>(), rng.gen::<u64>()];
    Scalar { limbs: FrElement::new(U256 { limbs }).representative().limbs }
}

/// `n` random scalar field elements.
pub fn random_field_elements(n: usize) -> (r: Vec<Scalar>)
    ensures
        r.len() == n,
        all_canonical(r@),
{
    let mut result: Vec<Scalar> = Vec::with_capacity(n);
    let mut i: usize = 0;
    while i < n
        invariant
            result.len() == i,
            i <= n,
            all_canonical(result@),
        decreases n - i,
    {
        result.push(random_fr());
        i = i + 1;
    }
    result
}

/// The coefficients of a random polynomial of degree at most `degree`.
pub fn random_poly(degree: usize) -> (r: Vec<Scalar>)
    requires
        degree < usize::MAX,
    ensures
        r.len() == degree + 1,
        all_canonical(r@),
{
    random_field_elements(degree + 1)
}

} // verus!
