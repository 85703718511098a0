//! Fast samples: the normal approximation where it is good enough, and the
//! exact distribution elsewhere. The random numbers themselves come from the
//! caller.

use vstd::prelude::*;

use crate::arith::{constant, double, is_double, minus, rounds_to, times, unary};
use crate::arith::{Arithmetic, Formula, Rounding, Traced, Unary};
use crate::bits::Double;
use crate::density_curves::ONE;
use crate::gpu_setup::as_word;

verus! {

/// `r` is the nearest word to a number.
pub open spec fn is_nearest_word<A: Arithmetic>(ar: &A, how: Rounding, x: Double, r: u32) -> bool {
    exists|n: i64| #[trigger] rounds_to(ar, how, double(x), n) && r == as_word(n)
}

fn nearest_word<A: Arithmetic>(ar: &A, how: Rounding, x: Double) -> (r: u32)
    ensures
        is_nearest_word(ar, how, x, r),
{
    let v: Traced<Double> = Traced::new(ar, x);
    let n: i64 = v.rounded(ar, how);
    assert(rounds_to(ar, how, double(x), n));
    if n < 0 {
        0
    } else if n > 0xffff_ffff {
        0xffff_ffff
    } else {
        n as u32
    }
}

/// `r` is a Poisson sample for a rate: 0 where the rate is not above 0, a
/// rounded normal sample above 30, and a sample of `poisson` between.
pub open spec fn is_poisson_sample<
    A: Arithmetic,
    N: Fn(Double, Double) -> Double,
    P: Fn(Double) -> Double,
>(ar: &A, lambda: Double, normal: N, poisson: P, r: u32) -> bool {
    if lambda.at_most(Double { bits: 0 }) {
        r == 0
    } else if (Double { bits: 0x403e_0000_0000_0000 }).below(lambda) {
        exists|width: Double, x: Double|
            {
                &&& #[trigger] is_double(ar, unary(Unary::SquareRoot, double(lambda)), width)
                &&& #[trigger] call_ensures(normal, (lambda, width), x)
                &&& is_nearest_word(ar, Rounding::Nearest, x, r)
            }
    } else {
        exists|x: Double| #[trigger]
            call_ensures(poisson, (lambda,), x) && is_nearest_word(ar, Rounding::Down, x, r)
    }
}

/// A Poisson sample. `normal` gives a normal sample for a mean and a width,
/// `poisson` an exact one for a rate.
pub fn sample_poisson<A: Arithmetic, N: Fn(Double, Double) -> Double, P: Fn(Double) -> Double>(
    ar: &A,
    lambda: Double,
    normal: N,
    poisson: P,
) -> (r: u32)
    requires
        forall|m: Double, s: Double| #[trigger] call_requires(normal, (m, s)),
        forall|m: Double| #[trigger] call_requires(poisson, (m,)),
    ensures
        is_poisson_sample(ar, lambda, normal, poisson, r),
{
    if lambda.is_at_most(Double { bits: 0 }) {
        return 0;
    }
    let bound = Double { bits: 0x403e_0000_0000_0000 };
    if bound.is_below(lambda) {
        let l: Traced<Double> = Traced::new(ar, lambda);
        let width = l.unary(ar, Unary::SquareRoot).value;
        let x = normal(lambda, width);
        proof {
            assert(is_double(ar, unary(Unary::SquareRoot, double(lambda)), width));
            assert(call_ensures(normal, (lambda, width), x));
        }
        return nearest_word(ar, Rounding::Nearest, x);
    }
    let x = poisson(lambda);
    nearest_word(ar, Rounding::Down, x)
}

/// Mean of a binomial distribution.
pub open spec fn binomial_mean(n: u32, p: Double) -> Formula {
    times(Formula::Whole(n as u64), double(p))
}

/// Variance of a binomial distribution.
pub open spec fn binomial_variance(n: u32, p: Double) -> Formula {
    times(binomial_mean(n, p), minus(constant(ONE), double(p)))
}

/// How many of the first `k` uniform numbers are below `p`.
pub open spec fn successes(us: Seq<Double>, p: Double, k: int) -> int
    decreases k,
{
    if k <= 0 {
        0
    } else {
        successes(us, p, k - 1) + if us[k - 1].below(p) {
            1int
        } else {
            0int
        }
    }
}

/// A word kept to at most `n`.
pub open spec fn at_most_word(x: u32, n: u32) -> u32 {
    if x > n {
        n
    } else {
        x
    }
}

/// `us` is what `uniform` gives for the trials.
pub open spec fn are_uniforms<U: Fn(u32) -> Double>(uniform: U, us: Seq<Double>) -> bool {
    forall|i: int| 0 <= i < us.len() ==> call_ensures(uniform, (i as u32,), #[trigger] us[i])
}

/// `r` is a binomial sample: certain outcomes without a draw, a rounded
/// normal sample where the variance is above 9, and single trials elsewhere.
pub open spec fn is_binomial_sample<
    A: Arithmetic,
    N: Fn(Double, Double) -> Double,
    U: Fn(u32) -> Double,
>(ar: &A, n: u32, p: Double, normal: N, uniform: U, r: u32) -> bool {
    if n == 0 || p.at_most(Double { bits: 0 }) {
        r == 0
    } else if (Double { bits: ONE }).at_most(p) {
        r == n
    } else {
        exists|variance: Double| #[trigger]
            is_double(ar, binomial_variance(n, p), variance) && if (Double {
                bits: 0x4022_0000_0000_0000,
            }).below(variance) {
                is_normal_count(ar, n, p, variance, normal, r)
            } else {
                exists|us: Seq<Double>| #[trigger]
                    are_uniforms(uniform, us) && us.len() == n && r == successes(us, p, n as int)
            }
    }
}

/// `r` is a normal sample, rounded and kept between 0 and `n`.
pub open spec fn is_normal_count<A: Arithmetic, N: Fn(Double, Double) -> Double>(
    ar: &A,
    n: u32,
    p: Double,
    variance: Double,
    normal: N,
    r: u32,
) -> bool {
    exists|mean: Double, width: Double, x: Double, w: u32|
        {
            &&& #[trigger] is_double(ar, binomial_mean(n, p), mean)
            &&& is_double(ar, unary(Unary::SquareRoot, double(variance)), width)
            &&& #[trigger] call_ensures(normal, (mean, width), x)
            &&& #[trigger] is_nearest_word(ar, Rounding::Nearest, x, w)
            &&& r == at_most_word(w, n)
        }
}

/// A binomial sample. `normal` gives a normal sample for a mean and a width,
/// `uniform` the uniform number of a trial.
pub fn sample_binomial<A: Arithmetic, N: Fn(Double, Double) -> Double, U: Fn(u32) -> Double>(
    ar: &A,
    n: u32,
    p: Double,
    normal: N,
    uniform: U,
) -> (r: u32)
    requires
        forall|m: Double, s: Double| #[trigger] call_requires(normal, (m, s)),
        forall|i: u32| #[trigger] call_requires(uniform, (i,)),
    ensures
        is_binomial_sample(ar, n, p, normal, uniform, r),
        r <= n,
{
    if n == 0 || p.is_at_most(Double { bits: 0 }) {
        return 0;
    }
    let unit = Double { bits: ONE };
    if unit.is_at_most(p) {
        return n;
    }
    let nf: Traced<Double> = Traced::whole(ar, n as u64);
    let pt: Traced<Double> = Traced::new(ar, p);
    let one: Traced<Double> = Traced::constant(ar, ONE);
    let mean = nf.times(ar, pt);
    let variance = mean.times(ar, one.minus(ar, pt)).value;
    assert(is_double(ar, binomial_variance(n, p), variance));
    let nine = Double { bits: 0x4022_0000_0000_0000 };
    if nine.is_below(variance) {
        let v: Traced<Double> = Traced::new(ar, variance);
        let width = v.unary(ar, Unary::SquareRoot).value;
        let x = normal(mean.value, width);
        let w: u32 = nearest_word(ar, Rounding::Nearest, x);
        proof {
            assert(is_double(ar, binomial_mean(n, p), mean.value));
            assert(call_ensures(normal, (mean.value, width), x));
            assert(is_nearest_word(ar, Rounding::Nearest, x, w));
            assert(is_normal_count(ar, n, p, variance, normal, at_most_word(w, n)));
        }
        return if w > n {
            n
        } else {
            w
        };
    }
    let mut count: u32 = 0;
    let ghost mut us: Seq<Double> = Seq::empty();
    let mut i: u32 = 0;
    while i < n
        invariant
            i <= n,
            us.len() == i,
            forall|k: u32| #[trigger] call_requires(uniform, (k,)),
            are_uniforms(uniform, us),
            count == successes(us, p, i as int),
            count <= i,
        decreases n - i,
    {
        let u = uniform(i);
        let ghost before = us;
        proof {
            us = us.push(u);
            assert forall|k: int| 0 <= k < us.len() implies call_ensures(
                uniform,
                (k as u32,),
                #[trigger] us[k],
            ) by {
                if k < before.len() {
                    assert(us[k] == before[k]);
                }
            }
            lemma_successes_prefix(before, u, p, i as int);
        }
        if u.is_below(p) {
            count += 1;
        }
        i += 1;
    }
    assert(are_uniforms(uniform, us));
    count
}

proof fn lemma_successes_prefix(us: Seq<Double>, u: Double, p: Double, k: int)
    requires
        0 <= k <= us.len(),
    ensures
        successes(us.push(u), p, k) == successes(us, p, k),
    decreases k,
{
    if k > 0 {
        lemma_successes_prefix(us, u, p, k - 1);
    }
}

/// A lognormal sample: `e` to the power of a normal one.
pub fn sample_lognormal<A: Arithmetic, N: Fn(Double, Double) -> Double>(
    ar: &A,
    mu: Double,
    sigma: Double,
    normal: N,
) -> (r: Double)
    requires
        forall|m: Double, s: Double| #[trigger] call_requires(normal, (m, s)),
    ensures
        exists|x: Double| #[trigger]
            call_ensures(normal, (mu, sigma), x) && is_double(ar, unary(Unary::Exp, double(x)), r),
{
    let x = normal(mu, sigma);
    assert(call_ensures(normal, (mu, sigma), x));
    let v: Traced<Double> = Traced::new(ar, x);
    v.unary(ar, Unary::Exp).value
}

} // verus!
