//! The random streams of the grain: words of the Mersenne twister, uniform
//! numbers made of them, and normal, Poisson and binomial samples.
//!
//! A sampler that may reject its draws goes on until one is accepted. Its
//! tries are counted in 64 bits: it gives nothing where as many as such a
//! number can count were rejected one after the other, and the stream then
//! stands where the next try begins.

use vstd::prelude::*;

use crate::arith::{constant, double, is_double, minus, over, plus, rounds_to, smaller, times};
use crate::arith::unary;
use crate::arith::{Arithmetic, Formula, Rounding, Traced, Unary};
use crate::bits::Double;
use crate::density_curves::ONE;
use crate::pchip::{HALF, TWO};

verus! {

/// How often a draw can be tried.
pub const TRIES: u64 = 0xffff_ffff_ffff_ffff;

/// The 32-bit Mersenne twister of `rand_mt`.
#[verifier::external_type_specification]
#[verifier::external_body]
pub struct ExMt19937GenRand32(rand_mt::Mt19937GenRand32);

/// Word `n` of the twister's stream for a seed, as `rand_mt` computes it.
pub uninterp spec fn mt_word(seed: u32, n: nat) -> u32;

/// A twister with the place that it has reached in its stream.
pub struct MtStream {
    rng: rand_mt::Mt19937GenRand32,
    seed: Ghost<u32>,
    drawn: Ghost<nat>,
}

impl MtStream {
    /// The seed of the stream.
    pub closed spec fn seed(&self) -> u32 {
        self.seed@
    }

    /// How many words have been drawn.
    pub closed spec fn drawn(&self) -> nat {
        self.drawn@
    }

    /// `rand_mt::Mt19937GenRand32::new`: a twister at the start of the
    /// seed's stream.
    #[verifier::external_body]
    pub(crate) fn seeded(seed: u32) -> (r: MtStream)
        ensures
            r.seed() == seed,
            r.drawn() == 0,
    {
        MtStream {
            rng: rand_mt::Mt19937GenRand32::new(seed),
            seed: Ghost(seed),
            drawn: Ghost(0nat),
        }
    }

    /// `rand_mt::Mt19937GenRand32::next_u32`: the next word of the stream,
    /// and nothing else, is drawn.
    #[verifier::external_body]
    pub(crate) fn draw(&mut self) -> (r: u32)
        ensures
            r == mt_word(old(self).seed(), old(self).drawn()),
            final(self).seed() == old(self).seed(),
            final(self).drawn() == old(self).drawn() + 1,
    {
        let r = self.rng.next_u32();
        self.drawn = Ghost(self.drawn@ + 1);
        r
    }

    /// The stream of a seed.
    pub fn new(seed: u32) -> (r: MtStream)
        ensures
            r.seed() == seed,
            r.drawn() == 0,
    {
        MtStream::seeded(seed)
    }

    /// The next word of the stream.
    pub fn next_u32(&mut self) -> (r: u32)
        ensures
            r == mt_word(old(self).seed(), old(self).drawn()),
            final(self).seed() == old(self).seed(),
            final(self).drawn() == old(self).drawn() + 1,
    {
        self.draw()
    }
}

// ── Uniform numbers ──────────────────────────────────────────────────────

/// The uniform number that two words make: 53 bits, the upper 27 of the first
/// and the upper 26 of the second, over `2^53`.
pub open spec fn uniform_of(first: u32, second: u32) -> Formula {
    over(
        plus(
            times(Formula::Whole((first / 32) as u64), constant(0x4190_0000_0000_0000)),
            Formula::Whole((second / 64) as u64),
        ),
        constant(0x4340_0000_0000_0000),
    )
}

/// The uniform number of words `n` and `n + 1` of a stream.
pub open spec fn uniform(seed: u32, n: nat) -> Formula {
    uniform_of(mt_word(seed, n), mt_word(seed, n + 1))
}

/// The next uniform number of a stream.
pub fn rk_double<A: Arithmetic>(ar: &A, rng: &mut MtStream) -> (r: Traced<Double>)
    ensures
        r.holds(ar),
        r.formula@ == uniform(old(rng).seed(), old(rng).drawn()),
        final(rng).seed() == old(rng).seed(),
        final(rng).drawn() == old(rng).drawn() + 2,
{
    let first: u32 = rng.next_u32();
    let second: u32 = rng.next_u32();
    let a: Traced<Double> = Traced::whole(ar, (first / 32) as u64);
    let b: Traced<Double> = Traced::whole(ar, (second / 64) as u64);
    let high: Traced<Double> = Traced::constant(ar, 0x4190_0000_0000_0000);
    let all: Traced<Double> = Traced::constant(ar, 0x4340_0000_0000_0000);
    a.times(ar, high).plus(ar, b).over(ar, all)
}

/// The bits of a uniform number as one whole number of 53 bits.
pub open spec fn bits53(first: u32, second: u32) -> int {
    (first / 32) * 0x400_0000 + second / 64
}

/// Uniform numbers are one to one with 53 bits: different bits come from
/// different formulas, and all of them stay below `2^53`.
pub proof fn lemma_uniform_bits(first: u32, second: u32, first2: u32, second2: u32)
    ensures
        0 <= bits53(first, second) < 0x20_0000_0000_0000,
        uniform_of(first, second) == uniform_of(first2, second2) <==> bits53(first, second)
            == bits53(first2, second2),
{
    let a = uniform_of(first, second);
    let b = uniform_of(first2, second2);
    if a == b {
        match a {
            Formula::Binary(_, s, _) => match *s {
                Formula::Binary(_, p, q) => match *p {
                    Formula::Binary(_, h, _) => {
                        assert(*h == Formula::Whole((first / 32) as u64));
                        assert(*q == Formula::Whole((second / 64) as u64));
                        assert(*h == Formula::Whole((first2 / 32) as u64));
                        assert(*q == Formula::Whole((second2 / 64) as u64));
                    },
                    _ => {},
                },
                _ => {},
            },
            _ => {},
        }
    }
}

// ── Normal samples ───────────────────────────────────────────────────────

/// Samples of the polar method: each pass yields two, and the second waits
/// for the next request.
pub struct GaussRng {
    pub rng: MtStream,
    pub cached: Option<Double>,
}

/// A coordinate of the point, between -1 and 1.
pub open spec fn coordinate(seed: u32, n: nat) -> Formula {
    minus(times(constant(TWO), uniform(seed, n)), constant(ONE))
}

/// The squared distance of the point from the origin.
pub open spec fn distance_squared(seed: u32, n: nat) -> Formula {
    let x1 = coordinate(seed, n);
    let x2 = coordinate(seed, n + 2);
    plus(times(x1, x1), times(x2, x2))
}

/// The point is inside of the disc, and not its middle.
pub open spec fn in_disc(r2: Double) -> bool {
    r2.below(Double { bits: ONE }) && r2.rank() != 0
}

/// What turns the coordinates into samples.
pub open spec fn polar_factor(r2: Double) -> Formula {
    unary(
        Unary::SquareRoot,
        over(times(constant(0xc000_0000_0000_0000), unary(Unary::Ln, double(r2))), double(r2)),
    )
}

/// The point at place `n` of a stream is rejected.
pub open spec fn point_rejected<A: Arithmetic>(ar: &A, seed: u32, n: nat) -> bool {
    exists|r2: Double| #[trigger] is_double(ar, distance_squared(seed, n), r2) && !in_disc(r2)
}

/// The point at place `n` gives two samples.
pub open spec fn point_gives<A: Arithmetic>(
    ar: &A,
    seed: u32,
    n: nat,
    give: Double,
    keep: Double,
) -> bool {
    exists|r2: Double| #[trigger]
        is_double(ar, distance_squared(seed, n), r2) && in_disc(r2) && is_double(
            ar,
            times(polar_factor(r2), coordinate(seed, n)),
            keep,
        ) && is_double(ar, times(polar_factor(r2), coordinate(seed, n + 2)), give)
}

/// The first `k` points from place `n` on are rejected.
pub open spec fn points_rejected<A: Arithmetic>(ar: &A, seed: u32, n: nat, k: nat) -> bool
    decreases k,
{
    k == 0 || points_rejected(ar, seed, n, (k - 1) as nat) && point_rejected(
        ar,
        seed,
        (n + 4 * (k - 1)) as nat,
    )
}

impl GaussRng {
    pub fn new(seed: u32) -> (r: GaussRng)
        ensures
            r.rng.seed() == seed,
            r.rng.drawn() == 0,
            r.cached is None,
    {
        GaussRng { rng: MtStream::new(seed), cached: None }
    }

    /// Samples that continue a stream.
    pub fn from_mt(rng: MtStream) -> (r: GaussRng)
        ensures
            r.rng == rng,
            r.cached is None,
    {
        GaussRng { rng, cached: None }
    }

    /// A normal sample. A waiting sample is handed out and draws nothing;
    /// otherwise points are drawn until one is inside of the disc.
    pub fn gauss<A: Arithmetic>(&mut self, ar: &A) -> (r: Option<Double>)
        ensures
            final(self).rng.seed() == old(self).rng.seed(),
            old(self).cached is Some ==> {
                &&& r == old(self).cached
                &&& final(self).cached is None
                &&& final(self).rng == old(self).rng
            },
            old(self).cached is None ==> {
                let s = old(self).rng.seed();
                let n = old(self).rng.drawn();
                let end = final(self).rng.drawn();
                match r {
                    Some(give) => {
                        &&& n + 4 <= end <= n + 4 * TRIES
                        &&& (end - n) % 4 == 0
                        &&& points_rejected(ar, s, n, ((end - n) / 4 - 1) as nat)
                        &&& final(self).cached matches Some(keep) && point_gives(
                            ar,
                            s,
                            (end - 4) as nat,
                            give,
                            keep,
                        )
                    },
                    None => {
                        &&& end == n + 4 * TRIES
                        &&& points_rejected(ar, s, n, TRIES as nat)
                        &&& final(self).cached is None
                    },
                }
            },
    {
        if let Some(v) = self.cached {
            self.cached = None;
            return Some(v);
        }
        let ghost s = self.rng.seed();
        let ghost n = self.rng.drawn();
        let mut t: u64 = 0;
        while t < TRIES
            invariant
                t <= TRIES,
                old(self).cached is None,
                s == old(self).rng.seed(),
                n == old(self).rng.drawn(),
                self.cached is None,
                self.rng.seed() == s,
                self.rng.drawn() == n + 4 * t,
                points_rejected(ar, s, n, t as nat),
            decreases TRIES - t,
        {
            let ghost at = self.rng.drawn();
            let two: Traced<Double> = Traced::constant(ar, TWO);
            let one: Traced<Double> = Traced::constant(ar, ONE);
            let x1 = two.times(ar, rk_double(ar, &mut self.rng)).minus(ar, one);
            let x2 = two.times(ar, rk_double(ar, &mut self.rng)).minus(ar, one);
            let r2 = x1.times(ar, x1).plus(ar, x2.times(ar, x2)).value;
            assert(is_double(ar, distance_squared(s, at), r2));
            if r2.is_below(Double { bits: ONE }) && !r2.is_zero() {
                let d: Traced<Double> = Traced::new(ar, r2);
                let k: Traced<Double> = Traced::constant(ar, 0xc000_0000_0000_0000);
                let f = k.times(ar, d.unary(ar, Unary::Ln)).over(ar, d).unary(
                    ar,
                    Unary::SquareRoot,
                );
                let keep = f.times(ar, x1).value;
                let give = f.times(ar, x2).value;
                self.cached = Some(keep);
                proof {
                    assert(point_gives(ar, s, at, give, keep));
                    assert((self.rng.drawn() - n) / 4 - 1 == t);
                }
                return Some(give);
            }
            assert(point_rejected(ar, s, at));
            t += 1;
        }
        None
    }
}

// ── Poisson samples ──────────────────────────────────────────────────────

/// A value of the formula is above a limit.
pub open spec fn exceeds<A: Arithmetic>(ar: &A, f: Formula, limit: Double) -> bool {
    exists|v: Double| #[trigger] is_double(ar, f, v) && limit.below(v)
}

/// A value of the formula is not above a limit.
pub open spec fn falls_to<A: Arithmetic>(ar: &A, f: Formula, limit: Double) -> bool {
    exists|v: Double| #[trigger] is_double(ar, f, v) && !limit.below(v)
}

/// The product of `k` uniform numbers from place `n` on.
pub open spec fn product(seed: u32, n: nat, k: nat) -> Formula
    decreases k,
{
    if k == 0 {
        constant(ONE)
    } else {
        times(product(seed, n, (k - 1) as nat), uniform(seed, (n + 2 * (k - 1)) as nat))
    }
}

/// The products of one to `k` uniform numbers are above a limit.
pub open spec fn products_exceed<A: Arithmetic>(
    ar: &A,
    seed: u32,
    n: nat,
    k: nat,
    limit: Double,
) -> bool
    decreases k,
{
    k == 0 || products_exceed(ar, seed, n, (k - 1) as nat, limit) && exceeds(
        ar,
        product(seed, n, k),
        limit,
    )
}

/// `x` uniform numbers keep their product above a limit, and one more does
/// not.
pub open spec fn is_product_count<A: Arithmetic>(
    ar: &A,
    limit: Double,
    seed: u32,
    from: nat,
    to: nat,
    x: u64,
) -> bool {
    &&& to == from + 2 * (x + 1)
    &&& products_exceed(ar, seed, from, x as nat, limit)
    &&& falls_to(ar, product(seed, from, (x + 1) as nat), limit)
}

/// The limit of the products: `e^-rate`.
pub open spec fn product_limit(rate: Double) -> Formula {
    unary(Unary::Exp, unary(Unary::Negate, double(rate)))
}

fn product_count<A: Arithmetic>(ar: &A, rng: &mut MtStream, limit: Double, tries: u64) -> (r: Option<
    u64,
>)
    ensures
        final(rng).seed() == old(rng).seed(),
        match r {
            Some(x) => x < tries && is_product_count(
                ar,
                limit,
                old(rng).seed(),
                old(rng).drawn(),
                final(rng).drawn(),
                x,
            ),
            None => products_exceed(
                ar,
                old(rng).seed(),
                old(rng).drawn(),
                tries as nat,
                limit,
            ) && final(rng).drawn() == old(rng).drawn() + 2 * tries,
        },
{
    let ghost s = rng.seed();
    let ghost n = rng.drawn();
    let mut x: u64 = 0;
    let mut prod: Traced<Double> = Traced::constant(ar, ONE);
    while x < tries
        invariant
            x <= tries,
            s == old(rng).seed(),
            n == old(rng).drawn(),
            rng.seed() == s,
            rng.drawn() == n + 2 * x,
            prod.holds(ar),
            prod.formula@ == product(s, n, x as nat),
            products_exceed(ar, s, n, x as nat, limit),
        decreases tries - x,
    {
        let u = rk_double(ar, rng);
        prod = prod.times(ar, u);
        assert(prod.formula@ == product(s, n, (x + 1) as nat));
        assert(is_double(ar, prod.formula@, prod.value));
        if limit.is_below(prod.value) {
            assert(exceeds(ar, product(s, n, (x + 1) as nat), limit));
            x += 1;
        } else {
            assert(falls_to(ar, product(s, n, (x + 1) as nat), limit));
            return Some(x);
        }
    }
    None
}

/// A whole number below 0 as the unsigned number of the same bits.
pub open spec fn wrapped(k: int) -> u64 {
    (k % 0x1_0000_0000_0000_0000) as u64
}

fn wrap(k: i128) -> (r: u64)
    requires
        -0x1_0000_0000_0000_0000 <= k <= 0xffff_ffff_ffff_ffff,
    ensures
        r == wrapped(k as int),
{
    if k >= 0 {
        k as u64
    } else {
        let up: i128 = if k == -0x1_0000_0000_0000_0000 {
            0
        } else {
            k + 0x1_0000_0000_0000_0000
        };
        assert(wrapped(k as int) == up) by {
            assert(k % 0x1_0000_0000_0000_0000 == up % 0x1_0000_0000_0000_0000);
        }
        up as u64
    }
}

/// The numbers of transformed rejection for a rate.
pub struct Transform {
    pub b: Double,
    pub a: Double,
    pub inv_alpha: Double,
    pub vr: Double,
    pub log_rate: Double,
}

/// The numbers are those of a rate.
pub open spec fn is_transform<A: Arithmetic>(ar: &A, rate: Double, t: Transform) -> bool {
    &&& is_double(
        ar,
        plus(
            constant(0x3fed_cac0_8312_6e98),
            times(constant(0x4004_3d70_a3d7_0a3d), unary(Unary::SquareRoot, double(rate))),
        ),
        t.b,
    )
    &&& is_double(
        ar,
        plus(constant(0xbfae_353f_7ced_9168), times(constant(0x3f99_6d09_17d6_b65b), double(t.b))),
        t.a,
    )
    &&& is_double(
        ar,
        plus(
            constant(0x3ff1_fb7e_90ff_9724),
            over(constant(0x3ff2_1ff2_e48e_8a72), minus(double(t.b), constant(0x400b_3333_3333_3333))),
        ),
        t.inv_alpha,
    )
    &&& is_double(
        ar,
        minus(
            constant(0x3fed_afb7_e90f_f972),
            over(constant(0x400c_faac_d9e8_3e42), minus(double(t.b), constant(TWO))),
        ),
        t.vr,
    )
    &&& is_double(ar, unary(Unary::Ln, double(rate)), t.log_rate)
}

fn transform_for<A: Arithmetic>(ar: &A, rate: Double) -> (t: Transform)
    ensures
        is_transform(ar, rate, t),
{
    let r: Traced<Double> = Traced::new(ar, rate);
    let k0: Traced<Double> = Traced::constant(ar, 0x3fed_cac0_8312_6e98);
    let k1: Traced<Double> = Traced::constant(ar, 0x4004_3d70_a3d7_0a3d);
    let b = k0.plus(ar, k1.times(ar, r.unary(ar, Unary::SquareRoot))).value;
    let bt: Traced<Double> = Traced::new(ar, b);
    let k2: Traced<Double> = Traced::constant(ar, 0xbfae_353f_7ced_9168);
    let k3: Traced<Double> = Traced::constant(ar, 0x3f99_6d09_17d6_b65b);
    let a = k2.plus(ar, k3.times(ar, bt)).value;
    let k4: Traced<Double> = Traced::constant(ar, 0x3ff1_fb7e_90ff_9724);
    let k5: Traced<Double> = Traced::constant(ar, 0x3ff2_1ff2_e48e_8a72);
    let k6: Traced<Double> = Traced::constant(ar, 0x400b_3333_3333_3333);
    let inv_alpha = k4.plus(ar, k5.over(ar, bt.minus(ar, k6))).value;
    let k7: Traced<Double> = Traced::constant(ar, 0x3fed_afb7_e90f_f972);
    let k8: Traced<Double> = Traced::constant(ar, 0x400c_faac_d9e8_3e42);
    let two: Traced<Double> = Traced::constant(ar, TWO);
    let vr = k7.minus(ar, k8.over(ar, bt.minus(ar, two))).value;
    let log_rate = r.unary(ar, Unary::Ln).value;
    Transform { b, a, inv_alpha, vr, log_rate }
}

/// The count that a try proposes, before it is rounded down.
pub open spec fn proposal(t: Transform, rate: Double, u: Double, us: Double) -> Formula {
    plus(
        plus(
            times(
                plus(over(times(constant(TWO), double(t.a)), double(us)), double(t.b)),
                double(u),
            ),
            double(rate),
        ),
        constant(0x3fdb_851e_b851_eb85),
    )
}

/// A try proposes the count `k`.
pub open spec fn proposes<A: Arithmetic>(
    ar: &A,
    t: Transform,
    rate: Double,
    u: Double,
    us: Double,
    k: i64,
) -> bool {
    rounds_to(ar, Rounding::Down, proposal(t, rate, u, us), k)
}

/// Left side of the test of a proposal.
pub open spec fn proposal_left(t: Transform, v: Double, us: Double) -> Formula {
    minus(
        plus(unary(Unary::Ln, double(v)), unary(Unary::Ln, double(t.inv_alpha))),
        unary(
            Unary::Ln,
            plus(over(double(t.a), times(double(us), double(us))), double(t.b)),
        ),
    )
}

/// Right side of the test of a proposal.
pub open spec fn proposal_right(t: Transform, rate: Double, k: i64) -> Formula {
    let n = Formula::Whole(k as u64);
    minus(
        plus(unary(Unary::Negate, double(rate)), times(n, double(t.log_rate))),
        unary(Unary::LogGamma, plus(n, constant(ONE))),
    )
}

/// What becomes of a proposal.
pub open spec fn is_judged<A: Arithmetic>(
    ar: &A,
    t: Transform,
    rate: Double,
    v: Double,
    us: Double,
    k: i64,
    r: Option<u64>,
) -> bool {
    if (Double { bits: 0x3fb1_eb85_1eb8_51ec }).at_most(us) && v.at_most(t.vr) {
        r == Some(wrapped(k as int))
    } else if k < 0 || us.below(Double { bits: 0x3f8a_9fbe_76c8_b439 }) && us.below(v) {
        r is None
    } else {
        exists|lhs: Double, rhs: Double|
            {
                &&& #[trigger] is_double(ar, proposal_left(t, v, us), lhs)
                &&& #[trigger] is_double(ar, proposal_right(t, rate, k), rhs)
                &&& r == if lhs.at_most(rhs) {
                    Some(k as u64)
                } else {
                    None::<u64>
                }
            }
    }
}

/// The try at place `n` of a stream comes out as `r`.
pub open spec fn is_poisson_try<A: Arithmetic>(
    ar: &A,
    t: Transform,
    rate: Double,
    seed: u32,
    n: nat,
    r: Option<u64>,
) -> bool {
    exists|u: Double, v: Double, us: Double, k: i64|
        {
            &&& is_double(ar, minus(uniform(seed, n), constant(HALF)), u)
            &&& is_double(ar, uniform(seed, n + 2), v)
            &&& is_double(ar, minus(constant(HALF), unary(Unary::Absolute, double(u))), us)
            &&& #[trigger] proposes(ar, t, rate, u, us, k)
            &&& #[trigger] is_judged(ar, t, rate, v, us, k, r)
        }
}

fn judge<A: Arithmetic>(ar: &A, t: &Transform, rate: Double, v: Double, us: Double, k: i64) -> (r:
    Option<u64>)
    ensures
        is_judged(ar, *t, rate, v, us, k, r),
{
    let wide = Double { bits: 0x3fb1_eb85_1eb8_51ec };
    if wide.is_at_most(us) && v.is_at_most(t.vr) {
        return Some(wrap(k as i128));
    }
    if k < 0 || us.is_below(Double { bits: 0x3f8a_9fbe_76c8_b439 }) && us.is_below(v) {
        return None;
    }
    let vt: Traced<Double> = Traced::new(ar, v);
    let ut: Traced<Double> = Traced::new(ar, us);
    let a: Traced<Double> = Traced::new(ar, t.a);
    let b: Traced<Double> = Traced::new(ar, t.b);
    let inv: Traced<Double> = Traced::new(ar, t.inv_alpha);
    let spread = a.over(ar, ut.times(ar, ut)).plus(ar, b).unary(ar, Unary::Ln);
    let lhs = vt.unary(ar, Unary::Ln).plus(ar, inv.unary(ar, Unary::Ln)).minus(ar, spread).value;
    let n: Traced<Double> = Traced::whole(ar, k as u64);
    let one: Traced<Double> = Traced::constant(ar, ONE);
    let lr: Traced<Double> = Traced::new(ar, t.log_rate);
    let rt: Traced<Double> = Traced::new(ar, rate);
    let rhs = rt.unary(ar, Unary::Negate).plus(ar, n.times(ar, lr)).minus(
        ar,
        n.plus(ar, one).unary(ar, Unary::LogGamma),
    ).value;
    proof {
        assert(is_double(ar, proposal_left(*t, v, us), lhs));
        assert(is_double(ar, proposal_right(*t, rate, k), rhs));
    }
    if lhs.is_at_most(rhs) {
        Some(k as u64)
    } else {
        None
    }
}

fn poisson_try<A: Arithmetic>(ar: &A, rng: &mut MtStream, t: &Transform, rate: Double) -> (r: Option<
    u64,
>)
    ensures
        final(rng).seed() == old(rng).seed(),
        final(rng).drawn() == old(rng).drawn() + 4,
        is_poisson_try(ar, *t, rate, old(rng).seed(), old(rng).drawn(), r),
{
    let half: Traced<Double> = Traced::constant(ar, HALF);
    let u = rk_double(ar, rng).minus(ar, half).value;
    let v = rk_double(ar, rng).value;
    let ut: Traced<Double> = Traced::new(ar, u);
    let us = half.minus(ar, ut.unary(ar, Unary::Absolute)).value;
    let two: Traced<Double> = Traced::constant(ar, TWO);
    let a: Traced<Double> = Traced::new(ar, t.a);
    let b: Traced<Double> = Traced::new(ar, t.b);
    let slope = two.times(ar, a).over(ar, Traced::new(ar, us)).plus(ar, b);
    let k0: Traced<Double> = Traced::constant(ar, 0x3fdb_851e_b851_eb85);
    let at = slope.times(ar, ut).plus(ar, Traced::new(ar, rate)).plus(ar, k0);
    assert(at.formula@ == proposal(*t, rate, u, us));
    let k: i64 = at.rounded(ar, Rounding::Down);
    let r = judge(ar, t, rate, v, us, k);
    proof {
        assert(proposes(ar, *t, rate, u, us, k));
        assert(is_judged(ar, *t, rate, v, us, k, r));
    }
    r
}

/// The first `k` tries from place `n` on are rejected.
pub open spec fn poisson_rejected<A: Arithmetic>(
    ar: &A,
    t: Transform,
    rate: Double,
    seed: u32,
    n: nat,
    k: nat,
) -> bool
    decreases k,
{
    k == 0 || poisson_rejected(ar, t, rate, seed, n, (k - 1) as nat) && is_poisson_try(
        ar,
        t,
        rate,
        seed,
        (n + 4 * (k - 1)) as nat,
        None,
    )
}

/// The tries from `from` to `to` end with the count `x`.
pub open spec fn is_transformed_count<A: Arithmetic>(
    ar: &A,
    t: Transform,
    rate: Double,
    seed: u32,
    from: nat,
    to: nat,
    x: u64,
) -> bool {
    &&& from + 4 <= to
    &&& (to - from) % 4 == 0
    &&& poisson_rejected(ar, t, rate, seed, from, ((to - from) / 4 - 1) as nat)
    &&& is_poisson_try(ar, t, rate, seed, (to - 4) as nat, Some(x))
}

fn transformed_count<A: Arithmetic>(
    ar: &A,
    rng: &mut MtStream,
    t: &Transform,
    rate: Double,
    tries: u64,
) -> (r: Option<u64>)
    ensures
        final(rng).seed() == old(rng).seed(),
        match r {
            Some(x) => is_transformed_count(
                ar,
                *t,
                rate,
                old(rng).seed(),
                old(rng).drawn(),
                final(rng).drawn(),
                x,
            ) && final(rng).drawn() <= old(rng).drawn() + 4 * tries,
            None => poisson_rejected(
                ar,
                *t,
                rate,
                old(rng).seed(),
                old(rng).drawn(),
                tries as nat,
            ) && final(rng).drawn() == old(rng).drawn() + 4 * tries,
        },
{
    let ghost s = rng.seed();
    let ghost n = rng.drawn();
    let mut i: u64 = 0;
    while i < tries
        invariant
            i <= tries,
            s == old(rng).seed(),
            n == old(rng).drawn(),
            rng.seed() == s,
            rng.drawn() == n + 4 * i,
            poisson_rejected(ar, *t, rate, s, n, i as nat),
        decreases tries - i,
    {
        let ghost at = rng.drawn();
        let r = poisson_try(ar, rng, t, rate);
        if let Some(x) = r {
            proof {
                assert((rng.drawn() - n) / 4 - 1 == i);
                assert(rng.drawn() - 4 == at);
            }
            return Some(x);
        }
        i += 1;
    }
    None
}

/// How a Poisson sample is drawn.
#[derive(Clone, Copy, Debug, PartialEq, Eq, Structural)]
pub enum PoissonMethod {
    /// Always zero, drawing nothing.
    Zero,
    /// Products of uniform numbers.
    Multiplication,
    /// Transformed rejection.
    Rejection,
}

/// The method for a rate: rejection from ten on, nothing to draw at zero,
/// products below ten.
pub open spec fn method_for(rate: Double) -> PoissonMethod {
    if (Double { bits: 0x4024_0000_0000_0000 }).at_most(rate) {
        PoissonMethod::Rejection
    } else if rate.rank() == 0 {
        PoissonMethod::Zero
    } else {
        PoissonMethod::Multiplication
    }
}

pub fn poisson_method(rate: Double) -> (r: PoissonMethod)
    ensures
        r == method_for(rate),
{
    let ten = Double { bits: 0x4024_0000_0000_0000 };
    if ten.is_at_most(rate) {
        PoissonMethod::Rejection
    } else if rate.is_zero() {
        PoissonMethod::Zero
    } else {
        PoissonMethod::Multiplication
    }
}

/// `x` is the Poisson sample that the words from `from` to `to` of a stream
/// make.
pub open spec fn is_poisson<A: Arithmetic>(
    ar: &A,
    rate: Double,
    seed: u32,
    from: nat,
    to: nat,
    x: u64,
) -> bool {
    match method_for(rate) {
        PoissonMethod::Rejection => exists|t: Transform| #[trigger]
            is_transform(ar, rate, t) && is_transformed_count(ar, t, rate, seed, from, to, x),
        PoissonMethod::Zero => x == 0 && to == from,
        PoissonMethod::Multiplication => exists|limit: Double| #[trigger]
            is_double(ar, product_limit(rate), limit) && is_product_count(
                ar,
                limit,
                seed,
                from,
                to,
                x,
            ),
    }
}

/// None of the tries from place `n` on gives a Poisson sample.
pub open spec fn poisson_fails<A: Arithmetic>(
    ar: &A,
    rate: Double,
    seed: u32,
    n: nat,
    tries: nat,
) -> bool {
    match method_for(rate) {
        PoissonMethod::Rejection => exists|t: Transform| #[trigger]
            is_transform(ar, rate, t) && poisson_rejected(ar, t, rate, seed, n, tries),
        PoissonMethod::Zero => false,
        PoissonMethod::Multiplication => exists|limit: Double| #[trigger]
            is_double(ar, product_limit(rate), limit) && products_exceed(
                ar,
                seed,
                n,
                tries,
                limit,
            ),
    }
}

/// A Poisson sample.
pub fn rk_poisson<A: Arithmetic>(ar: &A, rng: &mut MtStream, lam: Double) -> (r: Option<
    u64,
>)
    ensures
        final(rng).seed() == old(rng).seed(),
        match r {
            Some(x) => is_poisson(
                ar,
                lam,
                old(rng).seed(),
                old(rng).drawn(),
                final(rng).drawn(),
                x,
            ),
            None => poisson_fails(ar, lam, old(rng).seed(), old(rng).drawn(), TRIES as nat),
        },
{
    match poisson_method(lam) {
        PoissonMethod::Rejection => {
            let t = transform_for(ar, lam);
            transformed_count(ar, rng, &t, lam, TRIES)
        },
        PoissonMethod::Zero => Some(0),
        PoissonMethod::Multiplication => {
            let rate: Traced<Double> = Traced::new(ar, lam);
            let limit = rate.unary(ar, Unary::Negate).unary(ar, Unary::Exp).value;
            assert(is_double(ar, product_limit(lam), limit));
            product_count(ar, rng, limit, TRIES)
        },
    }
}

// ── Binomial samples by inversion ────────────────────────────────────────

/// The numbers of the inversion of a distribution function.
pub struct Inversion {
    pub q: Double,
    pub qn: Double,
    pub limit: u64,
}

/// The count beyond which a draw is given up, before it is rounded down.
pub open spec fn inversion_bound(n: u64, p: Double, q: Double) -> Formula {
    let mean = times(Formula::Whole(n), double(p));
    smaller(
        Formula::Whole(n),
        plus(
            mean,
            times(
                constant(0x4024_0000_0000_0000),
                unary(Unary::SquareRoot, plus(times(mean, double(q)), constant(ONE))),
            ),
        ),
    )
}

/// A whole number kept between 0 and `n`.
pub open spec fn kept_within(b: i64, n: u64) -> u64 {
    if b < 0 {
        0
    } else if b > n {
        n
    } else {
        b as u64
    }
}

/// The numbers are those of `n` trials with probability `p`.
pub open spec fn is_inversion<A: Arithmetic>(ar: &A, n: u64, p: Double, t: Inversion) -> bool {
    &&& is_double(ar, minus(constant(ONE), double(p)), t.q)
    &&& is_double(
        ar,
        unary(Unary::Exp, times(Formula::Whole(n), unary(Unary::Ln, double(t.q)))),
        t.qn,
    )
    &&& exists|b: i64| #[trigger]
        rounds_to(ar, Rounding::Down, inversion_bound(n, p, t.q), b) && t.limit == kept_within(b, n)
}

fn inversion_for<A: Arithmetic>(ar: &A, n: u64, p: Double) -> (t: Inversion)
    ensures
        is_inversion(ar, n, p, t),
        t.limit <= n,
{
    let one: Traced<Double> = Traced::constant(ar, ONE);
    let pt: Traced<Double> = Traced::new(ar, p);
    let nt: Traced<Double> = Traced::whole(ar, n);
    let q = one.minus(ar, pt).value;
    let qt: Traced<Double> = Traced::new(ar, q);
    let qn = nt.times(ar, qt.unary(ar, Unary::Ln)).unary(ar, Unary::Exp).value;
    let mean = nt.times(ar, pt);
    let ten: Traced<Double> = Traced::constant(ar, 0x4024_0000_0000_0000);
    let spread = mean.times(ar, qt).plus(ar, one).unary(ar, Unary::SquareRoot);
    let far = nt.smaller(ar, mean.plus(ar, ten.times(ar, spread)));
    assert(far.formula@ == inversion_bound(n, p, q));
    let b: i64 = far.rounded(ar, Rounding::Down);
    assert(rounds_to(ar, Rounding::Down, inversion_bound(n, p, q), b));
    let limit: u64 = if b < 0 {
        0
    } else if b as u64 > n {
        n
    } else {
        b as u64
    };
    Inversion { q, qn, limit }
}

/// Probability of `x` successes.
pub open spec fn chance(t: Inversion, n: u64, p: Double, x: nat) -> Formula
    decreases x,
{
    if x == 0 {
        double(t.qn)
    } else {
        over(
            times(
                times(Formula::Whole((n - x + 1) as u64), double(p)),
                chance(t, n, p, (x - 1) as nat),
            ),
            times(Formula::Whole(x as u64), double(t.q)),
        )
    }
}

/// What is left of a uniform number without the chances of fewer than `x`
/// successes.
pub open spec fn remainder(t: Inversion, n: u64, p: Double, u: Formula, x: nat) -> Formula
    decreases x,
{
    if x == 0 {
        u
    } else {
        minus(remainder(t, n, p, u, (x - 1) as nat), chance(t, n, p, (x - 1) as nat))
    }
}

/// A value of one formula is above a value of another.
pub open spec fn outweighs<A: Arithmetic>(ar: &A, f: Formula, g: Formula) -> bool {
    exists|x: Double, y: Double| #[trigger]
        is_double(ar, f, x) && #[trigger] is_double(ar, g, y) && y.below(x)
}

/// A value of one formula is not above a value of another.
pub open spec fn stays_within<A: Arithmetic>(ar: &A, f: Formula, g: Formula) -> bool {
    exists|x: Double, y: Double| #[trigger]
        is_double(ar, f, x) && #[trigger] is_double(ar, g, y) && !y.below(x)
}

/// Fewer than `x` successes do not use up the uniform number.
pub open spec fn reaches<A: Arithmetic>(
    ar: &A,
    t: Inversion,
    n: u64,
    p: Double,
    u: Formula,
    x: nat,
) -> bool
    decreases x,
{
    x == 0 || reaches(ar, t, n, p, u, (x - 1) as nat) && outweighs(
        ar,
        remainder(t, n, p, u, (x - 1) as nat),
        chance(t, n, p, (x - 1) as nat),
    )
}

/// A uniform number inverts to `r`; to nothing where it lies beyond the
/// limit.
pub open spec fn inverts<A: Arithmetic>(
    ar: &A,
    t: Inversion,
    n: u64,
    p: Double,
    u: Formula,
    r: Option<u64>,
) -> bool {
    match r {
        Some(x) => {
            &&& x <= t.limit
            &&& reaches(ar, t, n, p, u, x as nat)
            &&& stays_within(
                ar,
                remainder(t, n, p, u, x as nat),
                chance(t, n, p, x as nat),
            )
        },
        None => reaches(ar, t, n, p, u, (t.limit + 1) as nat),
    }
}

fn invert<A: Arithmetic>(ar: &A, t: &Inversion, n: u64, p: Double, u0: Traced<Double>) -> (r: Option<
    u64,
>)
    requires
        u0.holds(ar),
        t.limit <= n,
        n < i64::MAX,
    ensures
        inverts(ar, *t, n, p, u0.formula@, r),
{
    let pt: Traced<Double> = Traced::new(ar, p);
    let qt: Traced<Double> = Traced::new(ar, t.q);
    let mut x: u64 = 0;
    let mut px: Traced<Double> = Traced::new(ar, t.qn);
    let mut u = u0;
    while x < t.limit
        invariant
            x <= t.limit,
            t.limit <= n,
            n < i64::MAX,
            pt.holds(ar),
            pt.formula@ == double(p),
            qt.holds(ar),
            qt.formula@ == double(t.q),
            px.holds(ar),
            px.formula@ == chance(*t, n, p, x as nat),
            u.holds(ar),
            u.formula@ == remainder(*t, n, p, u0.formula@, x as nat),
            reaches(ar, *t, n, p, u0.formula@, x as nat),
        decreases t.limit - x,
    {
        assert(is_double(ar, u.formula@, u.value) && is_double(ar, px.formula@, px.value));
        if !px.value.is_below(u.value) {
            assert(stays_within(ar, u.formula@, px.formula@));
            return Some(x);
        }
        assert(outweighs(ar, u.formula@, px.formula@));
        u = u.minus(ar, px);
        x += 1;
        let left: Traced<Double> = Traced::whole(ar, n - x + 1);
        let count: Traced<Double> = Traced::whole(ar, x);
        px = left.times(ar, pt).times(ar, px).over(ar, count.times(ar, qt));
    }
    assert(is_double(ar, u.formula@, u.value) && is_double(ar, px.formula@, px.value));
    if !px.value.is_below(u.value) {
        assert(stays_within(ar, u.formula@, px.formula@));
        return Some(x);
    }
    assert(outweighs(ar, u.formula@, px.formula@));
    None
}

/// The first `k` uniform numbers from place `m` on lie beyond the limit.
pub open spec fn inversions_fail<A: Arithmetic>(
    ar: &A,
    t: Inversion,
    n: u64,
    p: Double,
    seed: u32,
    m: nat,
    k: nat,
) -> bool
    decreases k,
{
    k == 0 || inversions_fail(ar, t, n, p, seed, m, (k - 1) as nat) && inverts(
        ar,
        t,
        n,
        p,
        uniform(seed, (m + 2 * (k - 1)) as nat),
        None,
    )
}

/// The uniform numbers from `from` to `to` end with one that inverts to `x`.
pub open spec fn is_inverted_count<A: Arithmetic>(
    ar: &A,
    t: Inversion,
    n: u64,
    p: Double,
    seed: u32,
    from: nat,
    to: nat,
    x: u64,
) -> bool {
    &&& from + 2 <= to
    &&& (to - from) % 2 == 0
    &&& inversions_fail(ar, t, n, p, seed, from, ((to - from) / 2 - 1) as nat)
    &&& inverts(ar, t, n, p, uniform(seed, (to - 2) as nat), Some(x))
}

fn inverted_count<A: Arithmetic>(
    ar: &A,
    rng: &mut MtStream,
    t: &Inversion,
    n: u64,
    p: Double,
    tries: u64,
) -> (r: Option<u64>)
    requires
        t.limit <= n,
        n < i64::MAX,
    ensures
        final(rng).seed() == old(rng).seed(),
        match r {
            Some(x) => x <= n && is_inverted_count(
                ar,
                *t,
                n,
                p,
                old(rng).seed(),
                old(rng).drawn(),
                final(rng).drawn(),
                x,
            ),
            None => inversions_fail(
                ar,
                *t,
                n,
                p,
                old(rng).seed(),
                old(rng).drawn(),
                tries as nat,
            ),
        },
{
    let ghost s = rng.seed();
    let ghost m = rng.drawn();
    let mut i: u64 = 0;
    while i < tries
        invariant
            i <= tries,
            t.limit <= n,
            n < i64::MAX,
            s == old(rng).seed(),
            m == old(rng).drawn(),
            rng.seed() == s,
            rng.drawn() == m + 2 * i,
            inversions_fail(ar, *t, n, p, s, m, i as nat),
        decreases tries - i,
    {
        let ghost at = rng.drawn();
        let u = rk_double(ar, rng);
        let r = invert(ar, t, n, p, u);
        if let Some(x) = r {
            proof {
                assert((rng.drawn() - m) / 2 - 1 == i);
                assert(rng.drawn() - 2 == at);
            }
            return Some(x);
        }
        i += 1;
    }
    None
}

// ── Binomial samples by rejection ────────────────────────────────────────

/// A whole number of either sign.
pub open spec fn signed(k: int) -> Formula {
    if k < 0 {
        unary(Unary::Negate, Formula::Whole((-k) as u64))
    } else {
        Formula::Whole(k as u64)
    }
}

/// A whole number of either sign.
pub fn signed_number<A: Arithmetic>(ar: &A, k: i128) -> (r: Traced<Double>)
    requires
        -0xffff_ffff_ffff_ffff <= k <= 0xffff_ffff_ffff_ffff,
    ensures
        r.holds(ar),
        r.formula@ == signed(k as int),
{
    if k < 0 {
        let size: i128 = 0 - k;
        let n: Traced<Double> = Traced::whole(ar, size as u64);
        n.unary(ar, Unary::Negate)
    } else {
        Traced::whole(ar, k as u64)
    }
}

/// The numbers of the rejection for `n` trials: a triangle, two
/// parallelograms and two exponential tails over the distribution.
#[derive(Clone, Copy)]
pub struct Envelope {
    pub r: Double,
    pub q: Double,
    pub fm: Double,
    pub m: i64,
    pub p1: Double,
    pub xm: Double,
    pub xl: Double,
    pub xr: Double,
    pub c: Double,
    pub laml: Double,
    pub lamr: Double,
    pub p2: Double,
    pub p3: Double,
    pub p4: Double,
    pub nrq: Double,
}

/// Variance of the distribution: `n r q`.
pub open spec fn envelope_variance(n: u64, e: Envelope) -> Formula {
    times(times(Formula::Whole(n), double(e.r)), double(e.q))
}

/// Rate of the tail below the middle.
pub open spec fn left_rate(e: Envelope) -> Formula {
    over(
        minus(double(e.fm), double(e.xl)),
        minus(double(e.fm), times(double(e.xl), double(e.r))),
    )
}

/// Rate of the tail above the middle.
pub open spec fn right_rate(e: Envelope) -> Formula {
    over(minus(double(e.xr), double(e.fm)), times(double(e.xr), double(e.q)))
}

/// `a (1 + a / 2)`.
pub open spec fn tail(a: Formula) -> Formula {
    times(a, plus(constant(ONE), over(a, constant(TWO))))
}

/// The numbers are those of `n` trials with probability `p`.
pub open spec fn is_envelope<A: Arithmetic>(ar: &A, n: u64, p: Double, e: Envelope) -> bool {
    let m = signed(e.m as int);
    &&& is_double(ar, smaller(double(p), minus(constant(ONE), double(p))), e.r)
    &&& is_double(ar, minus(constant(ONE), double(e.r)), e.q)
    &&& is_double(ar, plus(times(Formula::Whole(n), double(e.r)), double(e.r)), e.fm)
    &&& rounds_to(ar, Rounding::Down, double(e.fm), e.m)
    &&& is_double(
        ar,
        plus(
            unary(
                Unary::Floor,
                minus(
                    times(
                        constant(0x4001_8f5c_28f5_c28f),
                        unary(Unary::SquareRoot, envelope_variance(n, e)),
                    ),
                    times(constant(0x4012_6666_6666_6666), double(e.q)),
                ),
            ),
            constant(HALF),
        ),
        e.p1,
    )
    &&& is_double(ar, plus(m, constant(HALF)), e.xm)
    &&& is_double(ar, minus(double(e.xm), double(e.p1)), e.xl)
    &&& is_double(ar, plus(double(e.xm), double(e.p1)), e.xr)
    &&& is_double(
        ar,
        plus(
            constant(0x3fc1_26e9_78d4_fdf4),
            over(constant(0x4034_8000_0000_0000), plus(constant(0x402e_9999_9999_999a), m)),
        ),
        e.c,
    )
    &&& is_double(ar, tail(left_rate(e)), e.laml)
    &&& is_double(ar, tail(right_rate(e)), e.lamr)
    &&& is_double(
        ar,
        times(double(e.p1), plus(constant(ONE), times(constant(TWO), double(e.c)))),
        e.p2,
    )
    &&& is_double(ar, plus(double(e.p2), over(double(e.c), double(e.laml))), e.p3)
    &&& is_double(ar, plus(double(e.p3), over(double(e.c), double(e.lamr))), e.p4)
    &&& is_double(ar, envelope_variance(n, e), e.nrq)
}

fn tail_of<A: Arithmetic>(ar: &A, a: Traced<Double>) -> (r: Traced<Double>)
    requires
        a.holds(ar),
    ensures
        r.holds(ar),
        r.formula@ == tail(a.formula@),
{
    let one: Traced<Double> = Traced::constant(ar, ONE);
    let two: Traced<Double> = Traced::constant(ar, TWO);
    a.times(ar, one.plus(ar, a.over(ar, two)))
}

fn leaf<A: Arithmetic>(ar: &A, x: Double) -> (r: Traced<Double>)
    ensures
        r.holds(ar),
        r.formula@ == double(x),
{
    Traced::new(ar, x)
}

fn envelope_for<A: Arithmetic>(ar: &A, n: u64, p: Double) -> (e: Envelope)
    ensures
        is_envelope(ar, n, p, e),
{
    let one: Traced<Double> = Traced::constant(ar, ONE);
    let two: Traced<Double> = Traced::constant(ar, TWO);
    let half: Traced<Double> = Traced::constant(ar, HALF);
    let nf: Traced<Double> = Traced::whole(ar, n);
    let pt = leaf(ar, p);
    let r = leaf(ar, pt.smaller(ar, one.minus(ar, pt)).value);
    let q = leaf(ar, one.minus(ar, r).value);
    let fm = leaf(ar, nf.times(ar, r).plus(ar, r).value);
    let m: i64 = fm.rounded(ar, Rounding::Down);
    let mf = signed_number(ar, m as i128);
    let nrq = nf.times(ar, r).times(ar, q);
    let k0: Traced<Double> = Traced::constant(ar, 0x4001_8f5c_28f5_c28f);
    let k1: Traced<Double> = Traced::constant(ar, 0x4012_6666_6666_6666);
    let wide = k0.times(ar, nrq.unary(ar, Unary::SquareRoot)).minus(ar, k1.times(ar, q));
    let p1 = leaf(ar, wide.unary(ar, Unary::Floor).plus(ar, half).value);
    let xm = leaf(ar, mf.plus(ar, half).value);
    let xl = leaf(ar, xm.minus(ar, p1).value);
    let xr = leaf(ar, xm.plus(ar, p1).value);
    let k2: Traced<Double> = Traced::constant(ar, 0x3fc1_26e9_78d4_fdf4);
    let k3: Traced<Double> = Traced::constant(ar, 0x4034_8000_0000_0000);
    let k4: Traced<Double> = Traced::constant(ar, 0x402e_9999_9999_999a);
    let c = leaf(ar, k2.plus(ar, k3.over(ar, k4.plus(ar, mf))).value);
    let a1 = fm.minus(ar, xl).over(ar, fm.minus(ar, xl.times(ar, r)));
    let laml = leaf(ar, tail_of(ar, a1).value);
    let a2 = xr.minus(ar, fm).over(ar, xr.times(ar, q));
    let lamr = leaf(ar, tail_of(ar, a2).value);
    let p2 = leaf(ar, p1.times(ar, one.plus(ar, two.times(ar, c))).value);
    let p3 = leaf(ar, p2.plus(ar, c.over(ar, laml)).value);
    let p4 = leaf(ar, p3.plus(ar, c.over(ar, lamr)).value);
    Envelope {
        r: r.value,
        q: q.value,
        fm: fm.value,
        m,
        p1: p1.value,
        xm: xm.value,
        xl: xl.value,
        xr: xr.value,
        c: c.value,
        laml: laml.value,
        lamr: lamr.value,
        p2: p2.value,
        p3: p3.value,
        p4: p4.value,
        nrq: nrq.value,
    }
}

/// A count that a try proposes.
#[derive(Clone, Copy)]
pub struct Candidate {
    pub y: i64,
    pub v: Double,
    /// It needs no test.
    pub sure: bool,
}

/// Place in a parallelogram.
pub open spec fn slab_place(e: Envelope, u: Double) -> Formula {
    plus(double(e.xl), over(minus(double(u), double(e.p1)), double(e.c)))
}

/// Height in a parallelogram.
pub open spec fn slab_height(e: Envelope, v: Double, x: Double) -> Formula {
    minus(
        plus(times(double(v), double(e.c)), constant(ONE)),
        over(
            unary(
                Unary::Absolute,
                plus(minus(signed(e.m as int), double(x)), constant(HALF)),
            ),
            double(e.p1),
        ),
    )
}

/// `c` is what the uniform numbers `u`, scaled to the envelope, and `v`
/// propose.
pub open spec fn is_candidate<A: Arithmetic>(
    ar: &A,
    e: Envelope,
    n: u64,
    u: Double,
    v: Double,
    c: Option<Candidate>,
) -> bool {
    if u.at_most(e.p1) {
        c matches Some(k) && k.sure && k.v == v && rounds_to(
            ar,
            Rounding::Down,
            plus(minus(double(e.xm), times(double(e.p1), double(v))), double(u)),
            k.y,
        )
    } else if u.at_most(e.p2) {
        exists|x: Double, w: Double|
            {
                &&& #[trigger] is_double(ar, slab_place(e, u), x)
                &&& #[trigger] is_double(ar, slab_height(e, v, x), w)
                &&& if (Double { bits: ONE }).below(w) {
                    c is None
                } else {
                    c matches Some(k) && !k.sure && k.v == w && rounds_to(
                        ar,
                        Rounding::Down,
                        double(x),
                        k.y,
                    )
                }
            }
    } else if u.at_most(e.p3) {
        exists|y: i64| #[trigger]
            rounds_to(
                ar,
                Rounding::Down,
                plus(double(e.xl), over(unary(Unary::Ln, double(v)), double(e.laml))),
                y,
            ) && if y < 0 {
                c is None
            } else {
                c matches Some(k) && !k.sure && k.y == y && is_double(
                    ar,
                    times(
                        double(v),
                        times(minus(double(u), double(e.p2)), double(e.laml)),
                    ),
                    k.v,
                )
            }
    } else {
        exists|y: i64| #[trigger]
            rounds_to(
                ar,
                Rounding::Down,
                minus(double(e.xr), over(unary(Unary::Ln, double(v)), double(e.lamr))),
                y,
            ) && if y > n {
                c is None
            } else {
                c matches Some(k) && !k.sure && k.y == y && is_double(
                    ar,
                    times(
                        double(v),
                        times(minus(double(u), double(e.p3)), double(e.lamr)),
                    ),
                    k.v,
                )
            }
    }
}

fn candidate<A: Arithmetic>(ar: &A, e: &Envelope, n: u64, u: Double, v: Double) -> (c: Option<
    Candidate,
>)
    ensures
        is_candidate(ar, *e, n, u, v, c),
{
    let ut = leaf(ar, u);
    let vt = leaf(ar, v);
    if u.is_at_most(e.p1) {
        let at = leaf(ar, e.xm).minus(ar, leaf(ar, e.p1).times(ar, vt)).plus(ar, ut);
        let y: i64 = at.rounded(ar, Rounding::Down);
        return Some(Candidate { y, v, sure: true });
    }
    if u.is_at_most(e.p2) {
        let one: Traced<Double> = Traced::constant(ar, ONE);
        let half: Traced<Double> = Traced::constant(ar, HALF);
        let at = leaf(ar, e.xl).plus(ar, ut.minus(ar, leaf(ar, e.p1)).over(ar, leaf(ar, e.c)));
        let x = leaf(ar, at.value);
        let far = signed_number(ar, e.m as i128).minus(ar, x).plus(ar, half).unary(
            ar,
            Unary::Absolute,
        );
        let w = vt.times(ar, leaf(ar, e.c)).plus(ar, one).minus(
            ar,
            far.over(ar, leaf(ar, e.p1)),
        ).value;
        proof {
            assert(is_double(ar, slab_place(*e, u), x.value));
            assert(is_double(ar, slab_height(*e, v, x.value), w));
        }
        if (Double { bits: ONE }).is_below(w) {
            return None;
        }
        let y: i64 = x.rounded(ar, Rounding::Down);
        return Some(Candidate { y, v: w, sure: false });
    }
    let log = vt.unary(ar, Unary::Ln);
    if u.is_at_most(e.p3) {
        let at = leaf(ar, e.xl).plus(ar, log.over(ar, leaf(ar, e.laml)));
        let y: i64 = at.rounded(ar, Rounding::Down);
        assert(rounds_to(ar, Rounding::Down, at.formula@, y));
        if y < 0 {
            return None;
        }
        let w = vt.times(ar, ut.minus(ar, leaf(ar, e.p2)).times(ar, leaf(ar, e.laml))).value;
        return Some(Candidate { y, v: w, sure: false });
    }
    let at = leaf(ar, e.xr).minus(ar, log.over(ar, leaf(ar, e.lamr)));
    let y: i64 = at.rounded(ar, Rounding::Down);
    assert(rounds_to(ar, Rounding::Down, at.formula@, y));
    if y >= 0 && y as u64 > n {
        return None;
    }
    let w = vt.times(ar, ut.minus(ar, leaf(ar, e.p3)).times(ar, leaf(ar, e.lamr))).value;
    Some(Candidate { y, v: w, sure: false })
}

/// Distance of a count from the middle.
pub open spec fn off_middle(e: Envelope, y: i64) -> int {
    if y < e.m {
        e.m - y
    } else {
        y - e.m
    }
}

/// Ratio of the chances of `i` and `i - 1`.
pub open spec fn step_ratio(n: u64, e: Envelope, i: int) -> Formula {
    let s = over(double(e.r), double(e.q));
    minus(over(times(s, plus(Formula::Whole(n), constant(ONE))), signed(i)), s)
}

/// The product of the ratios beyond `m` up to `j`.
pub open spec fn ratio_up(n: u64, e: Envelope, m: int, j: int) -> Formula
    decreases j - m,
{
    if j <= m {
        constant(ONE)
    } else {
        times(ratio_up(n, e, m, j - 1), step_ratio(n, e, j))
    }
}

/// One over the ratios beyond `y` up to `j`.
pub open spec fn ratio_down(n: u64, e: Envelope, y: int, j: int) -> Formula
    decreases j - y,
{
    if j <= y {
        constant(ONE)
    } else {
        over(ratio_down(n, e, y, j - 1), step_ratio(n, e, j))
    }
}

/// The chance of a count over that of the middle.
pub open spec fn chance_ratio(n: u64, e: Envelope, y: i64) -> Formula {
    if e.m < y {
        ratio_up(n, e, e.m as int, y as int)
    } else {
        ratio_down(n, e, y as int, e.m as int)
    }
}

fn step_of<A: Arithmetic>(ar: &A, n: u64, e: &Envelope, i: i128) -> (r: Traced<Double>)
    requires
        -0xffff_ffff_ffff_ffff <= i <= 0xffff_ffff_ffff_ffff,
    ensures
        r.holds(ar),
        r.formula@ == step_ratio(n, *e, i as int),
{
    let one: Traced<Double> = Traced::constant(ar, ONE);
    let nf: Traced<Double> = Traced::whole(ar, n);
    let s = leaf(ar, e.r).over(ar, leaf(ar, e.q));
    s.times(ar, nf.plus(ar, one)).over(ar, signed_number(ar, i)).minus(ar, s)
}

fn ratio_of<A: Arithmetic>(ar: &A, n: u64, e: &Envelope, y: i64) -> (r: Traced<Double>)
    ensures
        r.holds(ar),
        r.formula@ == chance_ratio(n, *e, y),
{
    let mut f: Traced<Double> = Traced::constant(ar, ONE);
    if e.m < y {
        let mut j: i64 = e.m;
        while j < y
            invariant
                e.m <= j <= y,
                f.holds(ar),
                f.formula@ == ratio_up(n, *e, e.m as int, j as int),
            decreases y - j,
        {
            j += 1;
            f = f.times(ar, step_of(ar, n, e, j as i128));
        }
        f
    } else {
        let mut j: i64 = y;
        while j < e.m
            invariant
                y <= j <= e.m,
                f.holds(ar),
                f.formula@ == ratio_down(n, *e, y as int, j as int),
            decreases e.m - j,
        {
            j += 1;
            f = f.over(ar, step_of(ar, n, e, j as i128));
        }
        f
    }
}

/// The counts for which the chance is computed in full: those close to the
/// middle and those far from it.
pub open spec fn is_full_test<A: Arithmetic>(ar: &A, e: Envelope, y: i64, full: bool) -> bool {
    if off_middle(e, y) <= 20 {
        full
    } else {
        exists|edge: Double| #[trigger]
            is_double(ar, minus(over(double(e.nrq), constant(TWO)), constant(ONE)), edge)
                && exists|k: Double| #[trigger]
                is_double(ar, Formula::Whole(off_middle(e, y) as u64), k) && full == edge.at_most(k)
    }
}

fn full_test<A: Arithmetic>(ar: &A, e: &Envelope, y: i64, k: u64) -> (full: bool)
    requires
        k == off_middle(*e, y),
    ensures
        is_full_test(ar, *e, y, full),
{
    if k <= 20 {
        return true;
    }
    let one: Traced<Double> = Traced::constant(ar, ONE);
    let two: Traced<Double> = Traced::constant(ar, TWO);
    let edge = leaf(ar, e.nrq).over(ar, two).minus(ar, one).value;
    let kf: Traced<Double> = Traced::whole(ar, k);
    proof {
        assert(is_double(
            ar,
            minus(over(double(e.nrq), constant(TWO)), constant(ONE)),
            edge,
        ));
        assert(is_double(ar, Formula::Whole(off_middle(*e, y) as u64), kf.value));
    }
    edge.is_at_most(kf.value)
}

/// Half the width of the band in which the quick test does not decide.
pub open spec fn band(e: Envelope, k: u64) -> Formula {
    let kf = Formula::Whole(k);
    times(
        over(kf, double(e.nrq)),
        plus(
            over(
                plus(
                    times(kf, plus(over(kf, constant(0x4008_0000_0000_0000)), constant(0x3fe4_0000_0000_0000))),
                    constant(0x3fc5_5555_5555_5555),
                ),
                double(e.nrq),
            ),
            constant(HALF),
        ),
    )
}

/// Middle of that band.
pub open spec fn band_middle(e: Envelope, k: u64) -> Formula {
    let kf = Formula::Whole(k);
    over(
        times(unary(Unary::Negate, kf), kf),
        times(constant(TWO), double(e.nrq)),
    )
}

/// A correction of Stirling's formula.
pub open spec fn stirling(x: Formula) -> Formula {
    let x2 = times(x, x);
    over(
        over(
            minus(
                constant(0x40ca_b800_0000_0000),
                over(
                    minus(
                        constant(0x407c_e000_0000_0000),
                        over(
                            minus(
                                constant(0x4060_8000_0000_0000),
                                over(
                                    minus(constant(0x4058_c000_0000_0000), over(constant(0x4061_8000_0000_0000), x2)),
                                    x2,
                                ),
                            ),
                            x2,
                        ),
                    ),
                    x2,
                ),
            ),
            x,
        ),
        constant(0x4104_4d80_0000_0000),
    )
}

/// Logarithm of the chance of a count over that of the middle, by Stirling's
/// formula.
pub open spec fn log_chance(n: u64, e: Envelope, y: i64) -> Formula {
    let x1 = signed(y + 1);
    let f1 = signed(e.m + 1);
    let z = signed(n - e.m + 1);
    let w = signed(n - y + 1);
    let main = plus(
        plus(
            times(double(e.xm), unary(Unary::Ln, over(f1, x1))),
            times(
                plus(minus(Formula::Whole(n), signed(e.m as int)), constant(HALF)),
                unary(Unary::Ln, over(z, w)),
            ),
        ),
        times(
            signed(y - e.m),
            unary(Unary::Ln, over(times(w, double(e.r)), times(x1, double(e.q)))),
        ),
    );
    plus(plus(plus(plus(main, stirling(f1)), stirling(z)), stirling(x1)), stirling(w))
}

fn stirling_of<A: Arithmetic>(ar: &A, x: Traced<Double>) -> (r: Traced<Double>)
    requires
        x.holds(ar),
    ensures
        r.holds(ar),
        r.formula@ == stirling(x.formula@),
{
    let x2 = x.times(ar, x);
    let k0: Traced<Double> = Traced::constant(ar, 0x4061_8000_0000_0000);
    let k1: Traced<Double> = Traced::constant(ar, 0x4058_c000_0000_0000);
    let k2: Traced<Double> = Traced::constant(ar, 0x4060_8000_0000_0000);
    let k3: Traced<Double> = Traced::constant(ar, 0x407c_e000_0000_0000);
    let k4: Traced<Double> = Traced::constant(ar, 0x40ca_b800_0000_0000);
    let k5: Traced<Double> = Traced::constant(ar, 0x4104_4d80_0000_0000);
    let a = k1.minus(ar, k0.over(ar, x2)).over(ar, x2);
    let b = k2.minus(ar, a).over(ar, x2);
    let c = k3.minus(ar, b).over(ar, x2);
    k4.minus(ar, c).over(ar, x).over(ar, k5)
}

fn log_chance_of<A: Arithmetic>(ar: &A, n: u64, e: &Envelope, y: i64) -> (r: Traced<Double>)
    requires
        n < i64::MAX,
    ensures
        r.holds(ar),
        r.formula@ == log_chance(n, *e, y),
{
    let half: Traced<Double> = Traced::constant(ar, HALF);
    let nf: Traced<Double> = Traced::whole(ar, n);
    let x1 = signed_number(ar, y as i128 + 1);
    let f1 = signed_number(ar, e.m as i128 + 1);
    let z = signed_number(ar, n as i128 - e.m as i128 + 1);
    let w = signed_number(ar, n as i128 - y as i128 + 1);
    let first = leaf(ar, e.xm).times(ar, f1.over(ar, x1).unary(ar, Unary::Ln));
    let second = nf.minus(ar, signed_number(ar, e.m as i128)).plus(ar, half).times(
        ar,
        z.over(ar, w).unary(ar, Unary::Ln),
    );
    let odds = w.times(ar, leaf(ar, e.r)).over(ar, x1.times(ar, leaf(ar, e.q)));
    let third = signed_number(ar, y as i128 - e.m as i128).times(ar, odds.unary(ar, Unary::Ln));
    let main = first.plus(ar, second).plus(ar, third);
    main.plus(ar, stirling_of(ar, f1)).plus(ar, stirling_of(ar, z)).plus(
        ar,
        stirling_of(ar, x1),
    ).plus(ar, stirling_of(ar, w))
}

/// The quick test: accepted, rejected, or undecided.
pub open spec fn is_quick<A: Arithmetic>(
    ar: &A,
    e: Envelope,
    y: i64,
    log: Double,
    r: Option<bool>,
) -> bool {
    let k = off_middle(e, y) as u64;
    exists|low: Double, high: Double|
        {
            &&& #[trigger] is_double(ar, minus(band_middle(e, k), band(e, k)), low)
            &&& #[trigger] is_double(ar, plus(band_middle(e, k), band(e, k)), high)
            &&& r == if log.below(low) {
                Some(true)
            } else if high.below(log) {
                Some(false)
            } else {
                None::<bool>
            }
        }
}

fn quick<A: Arithmetic>(ar: &A, e: &Envelope, y: i64, k: u64, log: Double) -> (r: Option<bool>)
    requires
        k == off_middle(*e, y),
    ensures
        is_quick(ar, *e, y, log, r),
{
    let kf: Traced<Double> = Traced::whole(ar, k);
    let nrq = leaf(ar, e.nrq);
    let two: Traced<Double> = Traced::constant(ar, TWO);
    let half: Traced<Double> = Traced::constant(ar, HALF);
    let k0: Traced<Double> = Traced::constant(ar, 0x4008_0000_0000_0000);
    let k1: Traced<Double> = Traced::constant(ar, 0x3fe4_0000_0000_0000);
    let k2: Traced<Double> = Traced::constant(ar, 0x3fc5_5555_5555_5555);
    let inner = kf.times(ar, kf.over(ar, k0).plus(ar, k1)).plus(ar, k2).over(ar, nrq);
    let rho = kf.over(ar, nrq).times(ar, inner.plus(ar, half));
    let t = kf.unary(ar, Unary::Negate).times(ar, kf).over(ar, two.times(ar, nrq));
    let low = t.minus(ar, rho).value;
    let high = t.plus(ar, rho).value;
    proof {
        let kk = off_middle(*e, y) as u64;
        assert(is_double(ar, minus(band_middle(*e, kk), band(*e, kk)), low));
        assert(is_double(ar, plus(band_middle(*e, kk), band(*e, kk)), high));
    }
    if log.is_below(low) {
        Some(true)
    } else if high.is_below(log) {
        Some(false)
    } else {
        None
    }
}

/// A candidate is accepted or not.
pub open spec fn is_verdict<A: Arithmetic>(
    ar: &A,
    n: u64,
    e: Envelope,
    c: Candidate,
    ok: bool,
) -> bool {
    if c.sure {
        ok
    } else {
        exists|full: bool| #[trigger]
            is_full_test(ar, e, c.y, full) && if full {
                exists|f: Double| #[trigger]
                    is_double(ar, chance_ratio(n, e, c.y), f) && ok == !f.below(c.v)
            } else {
                exists|log: Double, q: Option<bool>|
                    {
                        &&& is_double(ar, unary(Unary::Ln, double(c.v)), log)
                        &&& #[trigger] is_quick(ar, e, c.y, log, q)
                        &&& match q {
                            Some(decided) => ok == decided,
                            None => exists|b: Double| #[trigger]
                                is_double(ar, log_chance(n, e, c.y), b) && ok == !b.below(log),
                        }
                    }
            }
    }
}

fn verdict<A: Arithmetic>(ar: &A, n: u64, e: &Envelope, c: &Candidate) -> (ok: bool)
    requires
        n < i64::MAX,
    ensures
        is_verdict(ar, n, *e, *c, ok),
{
    if c.sure {
        return true;
    }
    let k: u64 = if c.y < e.m {
        (e.m as i128 - c.y as i128) as u64
    } else {
        (c.y as i128 - e.m as i128) as u64
    };
    let full = full_test(ar, e, c.y, k);
    assert(is_full_test(ar, *e, c.y, full));
    if full {
        let f = ratio_of(ar, n, e, c.y).value;
        assert(is_double(ar, chance_ratio(n, *e, c.y), f));
        return !f.is_below(c.v);
    }
    let log = leaf(ar, c.v).unary(ar, Unary::Ln).value;
    let q = quick(ar, e, c.y, k, log);
    assert(is_quick(ar, *e, c.y, log, q));
    match q {
        Some(decided) => decided,
        None => {
            let b = log_chance_of(ar, n, e, c.y).value;
            assert(is_double(ar, log_chance(n, *e, c.y), b));
            !b.is_below(log)
        },
    }
}

/// The try at place `m` of a stream comes out as `r`.
pub open spec fn is_binomial_try<A: Arithmetic>(
    ar: &A,
    n: u64,
    e: Envelope,
    seed: u32,
    m: nat,
    r: Option<i64>,
) -> bool {
    exists|u: Double, v: Double, c: Option<Candidate>, ok: bool|
        {
            &&& is_double(ar, times(uniform(seed, m), double(e.p4)), u)
            &&& is_double(ar, uniform(seed, m + 2), v)
            &&& #[trigger] is_candidate(ar, e, n, u, v, c)
            &&& #[trigger] is_outcome(ar, n, e, c, ok, r)
        }
}

/// What becomes of a proposal.
pub open spec fn is_outcome<A: Arithmetic>(
    ar: &A,
    n: u64,
    e: Envelope,
    c: Option<Candidate>,
    ok: bool,
    r: Option<i64>,
) -> bool {
    match c {
        None => r is None,
        Some(k) => is_verdict(ar, n, e, k, ok) && r == if ok {
            Some(k.y)
        } else {
            None::<i64>
        },
    }
}

fn binomial_try<A: Arithmetic>(ar: &A, rng: &mut MtStream, n: u64, e: &Envelope) -> (r: Option<i64>)
    requires
        n < i64::MAX,
    ensures
        final(rng).seed() == old(rng).seed(),
        final(rng).drawn() == old(rng).drawn() + 4,
        is_binomial_try(ar, n, *e, old(rng).seed(), old(rng).drawn(), r),
{
    let u = rk_double(ar, rng).times(ar, leaf(ar, e.p4)).value;
    let v = rk_double(ar, rng).value;
    let c = candidate(ar, e, n, u, v);
    assert(is_candidate(ar, *e, n, u, v, c));
    match c {
        None => {
            assert(is_outcome(ar, n, *e, c, true, None));
            None
        },
        Some(k) => {
            let ok = verdict(ar, n, e, &k);
            let r: Option<i64> = if ok {
                Some(k.y)
            } else {
                None
            };
            assert(is_outcome(ar, n, *e, c, ok, r));
            r
        },
    }
}

/// The first `k` tries from place `m` on are rejected.
pub open spec fn binomial_rejected<A: Arithmetic>(
    ar: &A,
    n: u64,
    e: Envelope,
    seed: u32,
    m: nat,
    k: nat,
) -> bool
    decreases k,
{
    k == 0 || binomial_rejected(ar, n, e, seed, m, (k - 1) as nat) && is_binomial_try(
        ar,
        n,
        e,
        seed,
        (m + 4 * (k - 1)) as nat,
        None,
    )
}

/// The tries from `from` to `to` end with the count `y`.
pub open spec fn is_rejection_count<A: Arithmetic>(
    ar: &A,
    n: u64,
    e: Envelope,
    seed: u32,
    from: nat,
    to: nat,
    y: i64,
) -> bool {
    &&& from + 4 <= to
    &&& (to - from) % 4 == 0
    &&& binomial_rejected(ar, n, e, seed, from, ((to - from) / 4 - 1) as nat)
    &&& is_binomial_try(ar, n, e, seed, (to - 4) as nat, Some(y))
}

/// Successes behind a count: the probability that was counted is at most one
/// half.
pub open spec fn counted_successes(n: u64, p: Double, y: i64) -> u64 {
    if (Double { bits: HALF }).below(p) {
        wrapped(n - y)
    } else {
        wrapped(y as int)
    }
}

fn rejection_count<A: Arithmetic>(
    ar: &A,
    rng: &mut MtStream,
    n: u64,
    e: &Envelope,
    tries: u64,
) -> (r: Option<i64>)
    requires
        n < i64::MAX,
    ensures
        final(rng).seed() == old(rng).seed(),
        match r {
            Some(y) => is_rejection_count(
                ar,
                n,
                *e,
                old(rng).seed(),
                old(rng).drawn(),
                final(rng).drawn(),
                y,
            ),
            None => binomial_rejected(
                ar,
                n,
                *e,
                old(rng).seed(),
                old(rng).drawn(),
                tries as nat,
            ),
        },
{
    let ghost s = rng.seed();
    let ghost m = rng.drawn();
    let mut i: u64 = 0;
    while i < tries
        invariant
            i <= tries,
            n < i64::MAX,
            s == old(rng).seed(),
            m == old(rng).drawn(),
            rng.seed() == s,
            rng.drawn() == m + 4 * i,
            binomial_rejected(ar, n, *e, s, m, i as nat),
        decreases tries - i,
    {
        let ghost at = rng.drawn();
        let r = binomial_try(ar, rng, n, e);
        if let Some(y) = r {
            proof {
                assert((rng.drawn() - m) / 4 - 1 == i);
                assert(rng.drawn() - 4 == at);
            }
            return Some(y);
        }
        i += 1;
    }
    None
}

// ── Binomial samples ─────────────────────────────────────────────────────

/// `x` is the number of the rarer outcome among `n` trials with probability
/// `p`, at most one half, from the words from `from` to `to`.
pub open spec fn is_counted<A: Arithmetic>(
    ar: &A,
    n: u64,
    p: Double,
    seed: u32,
    from: nat,
    to: nat,
    x: u64,
) -> bool {
    exists|mean: Double| #[trigger]
        is_double(ar, times(double(p), Formula::Whole(n)), mean) && if mean.at_most(
            Double { bits: 0x403e_0000_0000_0000 },
        ) {
            exists|t: Inversion| #[trigger]
                is_inversion(ar, n, p, t) && is_inverted_count(ar, t, n, p, seed, from, to, x)
        } else {
            exists|e: Envelope, y: i64|
                {
                    &&& #[trigger] is_envelope(ar, n, p, e)
                    &&& #[trigger] is_rejection_count(ar, n, e, seed, from, to, y)
                    &&& x == counted_successes(n, p, y)
                }
        }
}

/// None of the tries from place `m` on gives a count.
pub open spec fn count_fails<A: Arithmetic>(
    ar: &A,
    n: u64,
    p: Double,
    seed: u32,
    m: nat,
    tries: nat,
) -> bool {
    exists|mean: Double| #[trigger]
        is_double(ar, times(double(p), Formula::Whole(n)), mean) && if mean.at_most(
            Double { bits: 0x403e_0000_0000_0000 },
        ) {
            exists|t: Inversion| #[trigger]
                is_inversion(ar, n, p, t) && inversions_fail(ar, t, n, p, seed, m, tries)
        } else {
            exists|e: Envelope| #[trigger]
                is_envelope(ar, n, p, e) && binomial_rejected(ar, n, e, seed, m, tries)
        }
}

fn counted<A: Arithmetic>(ar: &A, rng: &mut MtStream, n: u64, p: Double, tries: u64) -> (r: Option<
    u64,
>)
    requires
        n < i64::MAX,
    ensures
        final(rng).seed() == old(rng).seed(),
        match r {
            Some(x) => is_counted(
                ar,
                n,
                p,
                old(rng).seed(),
                old(rng).drawn(),
                final(rng).drawn(),
                x,
            ),
            None => count_fails(ar, n, p, old(rng).seed(), old(rng).drawn(), tries as nat),
        },
{
    let nf: Traced<Double> = Traced::whole(ar, n);
    let mean = leaf(ar, p).times(ar, nf).value;
    assert(is_double(ar, times(double(p), Formula::Whole(n)), mean));
    if mean.is_at_most(Double { bits: 0x403e_0000_0000_0000 }) {
        let t = inversion_for(ar, n, p);
        assert(is_inversion(ar, n, p, t));
        return inverted_count(ar, rng, &t, n, p, tries);
    }
    let ghost s = rng.seed();
    let ghost m = rng.drawn();
    let e = envelope_for(ar, n, p);
    assert(is_envelope(ar, n, p, e));
    let r = rejection_count(ar, rng, n, &e, tries);
    match r {
        None => None,
        Some(y) => {
            assert(is_rejection_count(ar, n, e, s, m, rng.drawn(), y));
            if (Double { bits: HALF }).is_below(p) {
                Some(wrap(n as i128 - y as i128))
            } else {
                Some(wrap(y as i128))
            }
        },
    }
}

/// `x` is the number of successes among `n` trials with probability `p` that
/// the words from `from` to `to` make: the rarer outcome is counted.
pub open spec fn is_binomial<A: Arithmetic>(
    ar: &A,
    n: u64,
    p: Double,
    seed: u32,
    from: nat,
    to: nat,
    x: u64,
) -> bool {
    if p.at_most(Double { bits: HALF }) {
        is_counted(ar, n, p, seed, from, to, x)
    } else {
        exists|q: Double, y: u64| #[trigger]
            is_double(ar, minus(constant(ONE), double(p)), q) && #[trigger] is_counted(
                ar,
                n,
                q,
                seed,
                from,
                to,
                y,
            ) && x == wrapped(n - y)
    }
}

/// None of the tries from place `m` on gives a binomial sample.
pub open spec fn binomial_fails<A: Arithmetic>(
    ar: &A,
    n: u64,
    p: Double,
    seed: u32,
    m: nat,
    tries: nat,
) -> bool {
    if p.at_most(Double { bits: HALF }) {
        count_fails(ar, n, p, seed, m, tries)
    } else {
        exists|q: Double| #[trigger]
            is_double(ar, minus(constant(ONE), double(p)), q) && count_fails(
                ar,
                n,
                q,
                seed,
                m,
                tries,
            )
    }
}

/// A binomial sample.
pub fn rk_binomial<A: Arithmetic>(
    ar: &A,
    rng: &mut MtStream,
    n: u64,
    p: Double,
) -> (r: Option<u64>)
    requires
        n < i64::MAX,
    ensures
        final(rng).seed() == old(rng).seed(),
        match r {
            Some(x) => is_binomial(
                ar,
                n,
                p,
                old(rng).seed(),
                old(rng).drawn(),
                final(rng).drawn(),
                x,
            ),
            None => binomial_fails(ar, n, p, old(rng).seed(), old(rng).drawn(), TRIES as nat),
        },
{
    if p.is_at_most(Double { bits: HALF }) {
        return counted(ar, rng, n, p, TRIES);
    }
    let ghost s = rng.seed();
    let ghost m = rng.drawn();
    let one: Traced<Double> = Traced::constant(ar, ONE);
    let q = one.minus(ar, leaf(ar, p)).value;
    assert(is_double(ar, minus(constant(ONE), double(p)), q));
    match counted(ar, rng, n, q, TRIES) {
        None => None,
        Some(y) => {
            assert(is_counted(ar, n, q, s, m, rng.drawn(), y));
            Some(wrap(n as i128 - y as i128))
        },
    }
}

/// Successes with a probability above one half are the trials without the
/// successes that the rest to 1 makes of the same words: from one state of
/// the stream the two samples add up to `n`, end in one state, and fail
/// together. `q` is the one result of `1 - p`.
pub proof fn lemma_binomial_mirror<A: Arithmetic>(
    ar: &A,
    n: u64,
    p: Double,
    q: Double,
    seed: u32,
    from: nat,
    to: nat,
    x: u64,
    tries: nat,
)
    requires
        (Double { bits: HALF }).below(p),
        q.at_most(Double { bits: HALF }),
        forall|v: Double|
            #[trigger] is_double(ar, minus(constant(ONE), double(p)), v) <==> v == q,
    ensures
        is_binomial(ar, n, p, seed, from, to, x) <==> exists|y: u64| #[trigger]
            is_binomial(ar, n, q, seed, from, to, y) && x == wrapped(n - y),
        forall|y: u64|
            y <= n && #[trigger] is_binomial(ar, n, q, seed, from, to, y) ==> is_binomial(
                ar,
                n,
                p,
                seed,
                from,
                to,
                (n - y) as u64,
            ),
        binomial_fails(ar, n, p, seed, from, tries) <==> binomial_fails(
            ar,
            n,
            q,
            seed,
            from,
            tries,
        ),
{
    assert(!p.at_most(Double { bits: HALF }));
    assert(is_double(ar, minus(constant(ONE), double(p)), q));
    if is_binomial(ar, n, p, seed, from, to, x) {
        let (v, y) = choose|v: Double, y: u64| #[trigger]
            is_double(ar, minus(constant(ONE), double(p)), v) && #[trigger] is_counted(
                ar,
                n,
                v,
                seed,
                from,
                to,
                y,
            ) && x == wrapped(n - y);
        assert(v == q);
        assert(is_binomial(ar, n, q, seed, from, to, y));
    }
    assert forall|y: u64| #[trigger]
        is_binomial(ar, n, q, seed, from, to, y) implies is_binomial(
        ar,
        n,
        p,
        seed,
        from,
        to,
        wrapped(n - y),
    ) by {
        assert(is_counted(ar, n, q, seed, from, to, y));
    }
}

} // verus!
