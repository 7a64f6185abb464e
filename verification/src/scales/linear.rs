//! The linear scale: an affine map from a two-endpoint numeric domain
//! `[d0, d1]` onto a two-endpoint pixel range `[r0, r1]`.
//!
//! `scale(x) = (x - d0)/(d1 - d0) * (r1 - r0) + r0`, computed exactly
//! over rationals; when `d0 == d1` the normalization would divide by
//! zero, so the defined result is the midpoint `(r0 + r1)/2`.
//!
//! The range is stored exactly as the caller gave it: a descending range
//! is never silently flipped, and `is_range_reversed` reports it, because
//! bar stacking must know which direction is "up".

use vstd::prelude::*;
use crate::rational::{
    lemma_mul_exchange, lemma_mul_exchange2, lemma_q_ceil_char, lemma_q_eq_trans,
    lemma_q_floor_char, q_ceil, q_div, q_eq, q_floor, q_int, q_le, q_lt, q_mul, q_sub, q_wf,
    rat_raw, reduce128, Rat, Ratio,
};
use vstd::arithmetic::mul::{
    lemma_mul_inequality, lemma_mul_is_associative, lemma_mul_is_commutative,
    lemma_mul_is_distributive_add_other_way, lemma_mul_nonnegative, lemma_mul_unary_negation,
};
use crate::scales::ScaleType;

verus! {

/// A numeric domain value the linear scale accepts: magnitude at most
/// `2^30`, granularity at most `2^-25`.
pub open spec fn val_ok(q: Ratio) -> bool {
    &&& -0x4000_0000 <= q.n <= 0x4000_0000
    &&& 1 <= q.d <= 0x200_0000
}

/// Whether a value is small enough for the linear scale's exact
/// arithmetic.
pub fn val_ok_exec(v: &Rat) -> (r: bool)
    requires
        v.wf(),
    ensures
        r == val_ok(v@),
{
    let n = v.numerator();
    let d = v.denominator();
    -0x4000_0000 <= n && n <= 0x4000_0000 && d <= 0x200_0000
}

/// A pixel-range endpoint the linear scale accepts.
pub open spec fn lin_range_ok(r: int) -> bool {
    -0x4000_0000 <= r <= 0x4000_0000
}

/// The affine map `(x - d0)/(d1 - d0) * (r1 - r0) + r0` as one fraction;
/// `(r0 + r1)/2` when the domain is degenerate.
pub open spec fn linear_scale_q(d0: Ratio, d1: Ratio, r0: int, r1: int, x: Ratio) -> Ratio {
    if q_eq(d0, d1) {
        Ratio { n: r0 + r1, d: 2 }
    } else {
        let e = d1.n * d0.d - d0.n * d1.d;
        let nn = (x.n * d0.d - d0.n * x.d) * (d1.d * (r1 - r0)) + (r0 * x.d) * e;
        let dn = x.d * e;
        if e >= 0 {
            Ratio { n: nn, d: dn }
        } else {
            Ratio { n: -nn, d: -dn }
        }
    }
}

/// The scale for continuous numeric data.
pub struct ScaleLinear {
    domain: Vec<Rat>,
    range: Vec<isize>,
    tick_count: usize,
}

impl ScaleLinear {
    /// The domain endpoints.
    pub closed spec fn dom(&self) -> Seq<Ratio> {
        self.domain@.map_values(|r: Rat| r@)
    }

    /// The range endpoints, in the caller's order.
    pub closed spec fn rng(&self) -> (int, int) {
        (self.range[0] as int, self.range[1] as int)
    }

    /// Well-formedness: the domain is empty (not yet set) or has exactly
    /// two small endpoints; the range has two bounded endpoints.
    pub closed spec fn wf(&self) -> bool {
        &&& (self.domain@.len() == 0 || self.domain@.len() == 2)
        &&& forall|i: int| 0 <= i < self.domain@.len() ==> (#[trigger] self.domain@[i]).wf()
        &&& forall|i: int| 0 <= i < self.dom().len() ==> val_ok(#[trigger] self.dom()[i])
        &&& self.range@.len() == 2
        &&& lin_range_ok(self.rng().0) && lin_range_ok(self.rng().1)
        &&& self.tick_count == 10
    }

    /// Create a new linear scale: no domain yet, range `[0, 1]`, ten
    /// ticks.
    pub fn new() -> (s: ScaleLinear)
        ensures
            s.wf(),
            s.dom().len() == 0,
            s.rng() == (0int, 1int),
    {
        let mut range: Vec<isize> = Vec::new();
        range.push(0);
        range.push(1);
        ScaleLinear { domain: Vec::new(), range, tick_count: 10 }
    }

    /// Set the two domain endpoints.
    pub fn set_domain(self, domain: Vec<Rat>) -> (s: ScaleLinear)
        requires
            self.wf(),
            domain@.len() == 2,
            domain@[0].wf() && val_ok(domain@[0]@),
            domain@[1].wf() && val_ok(domain@[1]@),
        ensures
            s.wf(),
            s.dom().len() == 2,
            s.dom()[0] == domain@[0]@,
            s.dom()[1] == domain@[1]@,
            s.rng() == self.rng(),
    {
        let mut me = self;
        me.domain = domain;
        proof {
            assert forall|i: int| 0 <= i < me.dom().len() implies val_ok(#[trigger] me.dom()[i]) by {
                assert(me.dom()[i] == me.domain@[i]@);
            }
            assert(me.dom()[0] == me.domain@[0]@);
            assert(me.dom()[1] == me.domain@[1]@);
        }
        me
    }

    /// Get the domain of the scale.
    pub fn domain(&self) -> (r: &Vec<Rat>)
        ensures
            r@.map_values(|q: Rat| q@) == self.dom(),
    {
        &self.domain
    }

    /// Set the two range endpoints, kept in the caller's order.
    pub fn set_range(self, range: Vec<isize>) -> (s: ScaleLinear)
        requires
            self.wf(),
            range@.len() == 2,
            lin_range_ok(range@[0] as int),
            lin_range_ok(range@[1] as int),
        ensures
            s.wf(),
            s.dom() == self.dom(),
            s.rng() == (range@[0] as int, range@[1] as int),
    {
        let mut me = self;
        me.range = range;
        proof {
            assert(me.dom() == self.dom());
            assert(me.domain@ == self.domain@);
        }
        me
    }

    /// Get the range of the scale.
    pub fn range(&self) -> (r: &Vec<isize>)
        requires
            self.wf(),
        ensures
            r@.len() == 2,
            r@[0] as int == self.rng().0,
            r@[1] as int == self.rng().1,
    {
        &self.range
    }

    /// The kind of this scale.
    pub fn get_type(&self) -> (t: ScaleType)
        ensures
            t == ScaleType::Linear,
    {
        ScaleType::Linear
    }

    /// Map a domain value to its pixel coordinate.
    pub fn scale(&self, value: &Rat) -> (r: Rat)
        requires
            self.wf(),
            self.dom().len() == 2,
            value.wf(),
            val_ok(value@),
        ensures
            r.wf(),
            q_eq(r@, linear_scale_q(self.dom()[0], self.dom()[1], self.rng().0, self.rng().1,
                value@)),
    {
        let d0 = self.domain[0];
        let d1 = self.domain[1];
        let r0: i128 = self.range[0] as i128;
        let r1: i128 = self.range[1] as i128;
        proof {
            assert(val_ok(self.dom()[0]) && val_ok(self.dom()[1]));
            assert(d0@ == self.dom()[0] && d1@ == self.dom()[1]);
            assert(-0x80_0000_0000_0000 <= d1@.n * d0@.d <= 0x80_0000_0000_0000
                && -0x80_0000_0000_0000 <= d0@.n * d1@.d <= 0x80_0000_0000_0000
                && -0x80_0000_0000_0000 <= value@.n * d0@.d <= 0x80_0000_0000_0000
                && -0x80_0000_0000_0000 <= d0@.n * value@.d <= 0x80_0000_0000_0000)
                by (nonlinear_arith)
                requires
                    val_ok(d0@),
                    val_ok(d1@),
                    val_ok(value@),
            ;
        }
        let e: i128 = d1.numerator() * d0.denominator() - d0.numerator() * d1.denominator();
        if e == 0 {
            let out = reduce128(r0 + r1, 2);
            out
        } else {
            let tnum: i128 = value.numerator() * d0.denominator() - d0.numerator()
                * value.denominator();
            proof {
                assert(-0x1_0000_0000_0000_0000_0000_0000_0000 <= (tnum as int) * ((d1@.d) * ((
                r1 as int) - (r0 as int))) <= 0x1_0000_0000_0000_0000_0000_0000_0000
                    && -0x1_0000_0000_0000_0000_0000_0000_0000 <= ((r0 as int) * (value@.d)) * (
                e as int) <= 0x1_0000_0000_0000_0000_0000_0000_0000
                    && -0x2_0000_0000_0000_0000_0000 <= (value@.d) * (e as int)
                    <= 0x2_0000_0000_0000_0000_0000 && -0x100_0000_0000_0000 <= (d1@.d) * ((
                r1 as int) - (r0 as int)) <= 0x100_0000_0000_0000 && -0x80_0000_0000_0000 <= (
                r0 as int) * (value@.d) <= 0x80_0000_0000_0000) by (nonlinear_arith)
                    requires
                        val_ok(d0@),
                        val_ok(d1@),
                        val_ok(value@),
                        -0x4000_0000 <= r0 <= 0x4000_0000,
                        -0x4000_0000 <= r1 <= 0x4000_0000,
                        -0x100_0000_0000_0000 <= tnum <= 0x100_0000_0000_0000,
                        -0x100_0000_0000_0000 <= e <= 0x100_0000_0000_0000,
                ;
            }
            let nn: i128 = tnum * (d1.denominator() * (r1 - r0)) + (r0 * value.denominator()) * e;
            let dn: i128 = value.denominator() * e;
            if e >= 0 {
                proof {
                    assert(dn >= 1) by (nonlinear_arith)
                        requires
                            dn as int == (value@.d) * (e as int),
                            value@.d >= 1,
                            e >= 1,
                    ;
                }
                let out = reduce128(nn, dn);
                out
            } else {
                proof {
                    assert(-dn >= 1) by (nonlinear_arith)
                        requires
                            dn as int == (value@.d) * (e as int),
                            value@.d >= 1,
                            e <= -1,
                    ;
                }
                let out = reduce128(-nn, -dn);
                out
            }
        }
    }

    /// A linear scale has no thickness: its bandwidth is zero.
    pub fn bandwidth(&self) -> (r: Option<Rat>)
        ensures
            r matches Some(b) && b.wf() && b@ == (Ratio { n: 0, d: 1 }),
    {
        Some(Rat::from_int(0))
    }

    /// The start of the range, exactly as the caller gave it.
    pub fn range_start(&self) -> (r: isize)
        requires
            self.wf(),
        ensures
            r as int == self.rng().0,
    {
        self.range[0]
    }

    /// The end of the range, exactly as the caller gave it.
    pub fn range_end(&self) -> (r: isize)
        requires
            self.wf(),
        ensures
            r as int == self.rng().1,
    {
        self.range[1]
    }

    /// Whether the caller gave the range in descending order.
    pub fn is_range_reversed(&self) -> (r: bool)
        requires
            self.wf(),
        ensures
            r == (self.rng().0 > self.rng().1),
    {
        self.range[0] > self.range[1]
    }
}

/// Law (endpoint exactness): when the domain is not degenerate, the scale
/// maps `d0` to exactly `r0` and `d1` to exactly `r1`, as given.
pub proof fn lemma_linear_endpoints(d0: Ratio, d1: Ratio, r0: int, r1: int)
    requires
        q_wf(d0),
        q_wf(d1),
        !q_eq(d0, d1),
    ensures
        q_eq(linear_scale_q(d0, d1, r0, r1, d0), Ratio { n: r0, d: 1 }),
        q_eq(linear_scale_q(d0, d1, r0, r1, d1), Ratio { n: r1, d: 1 }),
{
    let e = d1.n * d0.d - d0.n * d1.d;
    let v0 = linear_scale_q(d0, d1, r0, r1, d0);
    let v1 = linear_scale_q(d0, d1, r0, r1, d1);
    assert(v0.n * 1 == r0 * v0.d) by (nonlinear_arith)
        requires
            e == d1.n * d0.d - d0.n * d1.d,
            e != 0,
            v0 == (if e >= 0 {
                Ratio {
                    n: (d0.n * d0.d - d0.n * d0.d) * (d1.d * (r1 - r0)) + (r0 * d0.d) * e,
                    d: d0.d * e,
                }
            } else {
                Ratio {
                    n: -((d0.n * d0.d - d0.n * d0.d) * (d1.d * (r1 - r0)) + (r0 * d0.d) * e),
                    d: -(d0.d * e),
                }
            }),
    ;
    assert(v1.n * 1 == r1 * v1.d) by (nonlinear_arith)
        requires
            e == d1.n * d0.d - d0.n * d1.d,
            e != 0,
            v1 == (if e >= 0 {
                Ratio {
                    n: (d1.n * d0.d - d0.n * d1.d) * (d1.d * (r1 - r0)) + (r0 * d1.d) * e,
                    d: d1.d * e,
                }
            } else {
                Ratio {
                    n: -((d1.n * d0.d - d0.n * d1.d) * (d1.d * (r1 - r0)) + (r0 * d1.d) * e),
                    d: -(d1.d * e),
                }
            }),
    ;
}

/// Law (degenerate domain): when `d0 == d1`, every input maps to the
/// midpoint `(r0 + r1)/2` of the range.
pub proof fn lemma_linear_midpoint(d0: Ratio, d1: Ratio, r0: int, r1: int, x: Ratio)
    requires
        q_eq(d0, d1),
    ensures
        linear_scale_q(d0, d1, r0, r1, x) == (Ratio { n: r0 + r1, d: 2 }),
{
}

/// Law (monotonicity): with an ascending domain, the scale is monotonic
/// in the direction of the range: ascending ranges preserve order and
/// descending ranges reverse it.
pub proof fn lemma_linear_monotonic(d0: Ratio, d1: Ratio, r0: int, r1: int, x: Ratio, y: Ratio)
    requires
        q_wf(d0),
        q_wf(d1),
        q_wf(x),
        q_wf(y),
        q_lt(d0, d1),
        q_le(x, y),
    ensures
        r0 <= r1 ==> q_le(
            linear_scale_q(d0, d1, r0, r1, x),
            linear_scale_q(d0, d1, r0, r1, y),
        ),
        r1 <= r0 ==> q_le(
            linear_scale_q(d0, d1, r0, r1, y),
            linear_scale_q(d0, d1, r0, r1, x),
        ),
{
    let e = d1.n * d0.d - d0.n * d1.d;
    assert(e >= 1);
    assert(!q_eq(d0, d1));
    let sx = linear_scale_q(d0, d1, r0, r1, x);
    let sy = linear_scale_q(d0, d1, r0, r1, y);
    let tx = x.n * d0.d - d0.n * x.d;
    let ty = y.n * d0.d - d0.n * y.d;
    let rr = d1.d * (r1 - r0);
    let w = rr * e;
    assert(sx.n == tx * rr + (r0 * x.d) * e && sx.d == x.d * e);
    assert(sy.n == ty * rr + (r0 * y.d) * e && sy.d == y.d * e);
    // Expand both cross products into comparable summands.
    lemma_mul_is_distributive_add_other_way(y.d * e, tx * rr, (r0 * x.d) * e);
    lemma_mul_is_distributive_add_other_way(x.d * e, ty * rr, (r0 * y.d) * e);
    lemma_mul_exchange(tx, rr, y.d, e);
    lemma_mul_exchange2(tx, y.d, rr, e);
    lemma_mul_exchange(ty, rr, x.d, e);
    lemma_mul_exchange2(ty, x.d, rr, e);
    assert((tx * rr) * (y.d * e) == (tx * y.d) * w);
    assert((ty * rr) * (x.d * e) == (ty * x.d) * w);
    lemma_mul_exchange((r0 * x.d), e, y.d, e);
    lemma_mul_exchange((r0 * y.d), e, x.d, e);
    lemma_mul_is_associative(r0, x.d, y.d);
    lemma_mul_is_associative(r0, y.d, x.d);
    lemma_mul_is_commutative(x.d, y.d);
    assert(((r0 * x.d) * e) * (y.d * e) == ((r0 * y.d) * e) * (x.d * e));
    // The order of the first summands follows the sign of the range extent.
    assert(ty * x.d - tx * y.d == d0.d * (y.n * x.d - x.n * y.d)) by (nonlinear_arith)
        requires
            tx == x.n * d0.d - d0.n * x.d,
            ty == y.n * d0.d - d0.n * y.d,
    ;
    assert(y.n * x.d - x.n * y.d >= 0);
    assert(ty * x.d - tx * y.d >= 0) by (nonlinear_arith)
        requires
            ty * x.d - tx * y.d == d0.d * (y.n * x.d - x.n * y.d),
            d0.d >= 1,
            y.n * x.d - x.n * y.d >= 0,
    ;
    if r0 <= r1 {
        lemma_mul_nonnegative(d1.d, r1 - r0);
        lemma_mul_nonnegative(rr, e);
        lemma_mul_inequality(tx * y.d, ty * x.d, w);
        assert(sx.n * sy.d <= sy.n * sx.d);
    }
    if r1 <= r0 {
        let nr = -rr;
        lemma_mul_nonnegative(d1.d, r0 - r1);
        assert(nr >= 0) by (nonlinear_arith)
            requires
                nr == -(d1.d * (r1 - r0)),
                d1.d * (r0 - r1) >= 0,
        ;
        let nw = nr * e;
        lemma_mul_nonnegative(nr, e);
        lemma_mul_inequality(tx * y.d, ty * x.d, nw);
        lemma_mul_unary_negation(rr, e);
        assert(w == -nw);
        lemma_mul_unary_negation(tx * y.d, nw);
        lemma_mul_unary_negation(ty * x.d, nw);
        assert((tx * y.d) * w == -((tx * y.d) * nw));
        assert((ty * x.d) * w == -((ty * x.d) * nw));
        assert((ty * x.d) * w <= (tx * y.d) * w);
        assert(sy.n * sx.d <= sx.n * sy.d);
    }
}


/// Ten to the power `e`.
pub open spec fn pow10(e: nat) -> int
    decreases e,
{
    if e == 0 {
        1
    } else {
        10 * pow10((e - 1) as nat)
    }
}

pub proof fn lemma_pow10_pos(e: nat)
    ensures
        pow10(e) >= 1,
    decreases e,
{
    if e > 0 {
        lemma_pow10_pos((e - 1) as nat);
    }
}

pub proof fn lemma_pow10_mono(a: nat, b: nat)
    requires
        a <= b,
    ensures
        pow10(a) <= pow10(b),
    decreases b,
{
    if a < b {
        lemma_pow10_mono(a, (b - 1) as nat);
        lemma_pow10_pos((b - 1) as nat);
    }
}

/// Concrete values of the powers of ten the tick generator reaches.
pub proof fn lemma_pow10_vals()
    ensures
        pow10(17) == 100_000_000_000_000_000,
        pow10(18) == 1_000_000_000_000_000_000,
{
    reveal_with_fuel(pow10, 20);
}

/// `10^p` as a rational, for a possibly negative power `p`.
pub open spec fn pow10_q(p: int) -> Ratio {
    if p >= 0 {
        Ratio { n: pow10(p as nat), d: 1 }
    } else {
        Ratio { n: 1, d: pow10((-p) as nat) }
    }
}

/// `f` is the floor of the base-ten logarithm of the positive rational.
pub open spec fn is_floor_log10(q: Ratio, f: int) -> bool {
    &&& q_le(pow10_q(f), q)
    &&& q_lt(q, pow10_q(f + 1))
}

/// The leading digit the raw step snaps to: `err = q / 10^t` is compared
/// against sqrt(50), sqrt(10) and sqrt(2) (exactly, by squaring) and
/// mapped to 10, 5, 2 or 1.
pub open spec fn is_nice_snap(q: Ratio, t: int, snap: int) -> bool {
    let err = q_div(q, pow10_q(t));
    let e2 = q_mul(err, err);
    snap == (if q_le(q_int(50), e2) {
        10int
    } else if q_le(q_int(10), e2) {
        5int
    } else if q_le(q_int(2), e2) {
        2int
    } else {
        1int
    })
}

/// The nice-step parameters for a raw step `q`: the order of magnitude
/// (the floor of the base-ten logarithm, so the scaled error lies in
/// `[1, 10)`) and the snapped leading digit.
pub open spec fn nice_params(q: Ratio, t: int, snap: int) -> bool {
    &&& is_floor_log10(q, t)
    &&& is_nice_snap(q, t, snap)
}

/// The tick step `snap * 10^t` as a rational.
pub open spec fn tick_step_q(t: int, snap: int) -> Ratio {
    if t >= 0 {
        Ratio { n: snap * pow10(t as nat), d: 1 }
    } else {
        Ratio { n: snap, d: pow10((-t) as nat) }
    }
}

/// The raw step the generator starts from: a tenth of the domain extent.
pub open spec fn tick_step0(d0: Ratio, d1: Ratio) -> Ratio {
    q_div(q_sub(d1, d0), q_int(10))
}

/// The tick sequence for an ascending domain `[d0, d1]` and nice-step
/// parameters `(t, snap)`: every integer multiple of the step that lies
/// inside the domain, in ascending order.
pub open spec fn ticks_match(d0: Ratio, d1: Ratio, t: int, snap: int, out: Seq<Ratio>) -> bool {
    let step = tick_step_q(t, snap);
    let kmin = q_ceil(q_div(d0, step));
    let kmax = q_floor(q_div(d1, step));
    &&& out.len() == (if kmax >= kmin {
        kmax - kmin + 1
    } else {
        0
    })
    &&& forall|i: int| 0 <= i < out.len() ==> #[trigger] out[i] == q_mul(q_int(kmin + i), step)
}

/// The floor of the base-ten logarithm of `sn/sd`, with the power of ten
/// it denotes and bounds that keep the caller's squares inside the
/// machine.
fn floor_log10(sn: i128, sd: i128) -> (res: (bool, usize, i128))
    requires
        1 <= sn <= 0x100_0000_0000_0000,
        1 <= sd <= 0x100_0000_0000_0000,
    ensures
        ({
            let (tneg, texp, tpow) = res;
            &&& tpow as int == pow10(texp as nat)
            &&& texp <= 17
            &&& 1 <= tpow <= 0x1000_0000_0000_0000_0000
            &&& (tneg ==> texp >= 1)
            &&& is_floor_log10(
                Ratio { n: sn as int, d: sd as int },
                if tneg {
                    -(texp as int)
                } else {
                    texp as int
                },
            )
            &&& (!tneg ==> (sd as int) * (tpow as int) <= 0x100_0000_0000_0000)
            &&& (tneg ==> (sn as int) * (tpow as int) <= 10 * (sd as int))
        }),
{
    let ghost q = Ratio { n: sn as int, d: sd as int };
    proof {
        lemma_pow10_vals();
        lemma_pow10_pos(17);
    }
    if sn >= sd {
        let mut f: usize = 0;
        let mut pcur: i128 = 1;
        proof {
            reveal_with_fuel(pow10, 2);
            assert((sd as int) * ((pcur as int) * 10) == (sd as int) * 10);
        }
        while sn >= sd * (pcur * 10)
            invariant
                1 <= sn <= 0x100_0000_0000_0000,
                1 <= sd <= 0x100_0000_0000_0000,
                sn >= sd,
                pcur as int == pow10(f as nat),
                1 <= pcur <= 100_000_000_000_000_000,
                0 <= (sd as int) * ((pcur as int) * 10)
                    <= 0x10_0000_0000_0000_0000_0000_0000_0000,
                (sd as int) * (pcur as int) <= sn as int,
                f <= 17,
            decreases 18 - f,
        {
            proof {
                lemma_pow10_vals();
                assert(pcur * 10 <= sn) by (nonlinear_arith)
                    requires
                        sd * (pcur * 10) <= sn,
                        sd >= 1,
                        pcur >= 1,
                ;
                assert(pow10((f + 1) as nat) == 10 * pow10(f as nat));
                if f + 1 >= 18 {
                    lemma_pow10_mono(18, (f + 1) as nat);
                    assert(false);
                }
                lemma_pow10_mono((f + 1) as nat, 17);
                assert((sd as int) * ((pcur as int) * 10) == (sd as int) * (pcur as int) * 10)
                    by (nonlinear_arith);
                assert(pcur as int * 10 == 10 * pow10(f as nat)) by (nonlinear_arith)
                    requires
                        pcur as int == pow10(f as nat),
                ;
                assert(0 <= (sd as int) * (((pcur as int) * 10) * 10)
                    <= 0x10_0000_0000_0000_0000_0000_0000_0000) by (nonlinear_arith)
                    requires
                        1 <= sd <= 0x100_0000_0000_0000,
                        1 <= (pcur as int) * 10 <= 100_000_000_000_000_000,
                ;
            }
            pcur = pcur * 10;
            f = f + 1;
        }
        proof {
            let t = f as int;
            assert(q_le(pow10_q(t), q)) by (nonlinear_arith)
                requires
                    pow10_q(t) == (Ratio { n: pcur as int, d: 1 }),
                    (sd as int) * (pcur as int) <= sn as int,
                    q == (Ratio { n: sn as int, d: sd as int }),
            ;
            assert(pow10((f + 1) as nat) == 10 * pow10(f as nat));
            assert(q_lt(q, pow10_q(t + 1))) by (nonlinear_arith)
                requires
                    pow10_q(t + 1) == (Ratio { n: 10 * (pcur as int), d: 1 }),
                    sn < sd * (pcur * 10),
                    q == (Ratio { n: sn as int, d: sd as int }),
            ;
            assert(is_floor_log10(q, t));
            assert((sd as int) * (pcur as int) <= 0x100_0000_0000_0000);
        }
        (false, f, pcur)
    } else {
        let mut g: usize = 1;
        let mut prev: i128 = 1;
        let mut pcur: i128 = 10;
        proof {
            reveal_with_fuel(pow10, 3);
            assert((sn as int) * (pcur as int) == (sn as int) * 10);
        }
        while sn * pcur < sd
            invariant
                1 <= sn <= 0x100_0000_0000_0000,
                1 <= sd <= 0x100_0000_0000_0000,
                sn < sd,
                1 <= g <= 17,
                prev as int == pow10((g - 1) as nat),
                pcur as int == pow10(g as nat),
                pcur == prev * 10,
                1 <= prev,
                1 <= pcur <= 1_000_000_000_000_000_000,
                0 <= (sn as int) * (pcur as int) <= 0x10_0000_0000_0000_0000_0000_0000_0000,
                (sn as int) * (prev as int) < sd as int,
            decreases 18 - g,
        {
            proof {
                lemma_pow10_vals();
                assert(pcur < sd) by (nonlinear_arith)
                    requires
                        sn * pcur < sd,
                        sn >= 1,
                        pcur >= 1,
                ;
                if g + 1 >= 18 {
                    lemma_pow10_mono(18, (g + 1) as nat);
                    assert(false);
                }
                assert(pow10((g + 1) as nat) == 10 * pow10(g as nat));
                lemma_pow10_mono((g + 1) as nat, 18);
                assert((pcur as int) * 10 == 10 * pow10(g as nat)) by (nonlinear_arith)
                    requires
                        pcur as int == pow10(g as nat),
                ;
                assert((pcur as int) * 10 <= 1_000_000_000_000_000_000);
                assert(0 <= (sn as int) * ((pcur as int) * 10)
                    <= 0x10_0000_0000_0000_0000_0000_0000_0000) by (nonlinear_arith)
                    requires
                        1 <= sn <= 0x100_0000_0000_0000,
                        1 <= (pcur as int) * 10 <= 1_000_000_000_000_000_000,
                ;
            }
            prev = pcur;
            pcur = pcur * 10;
            g = g + 1;
        }
        // now 10^(-g) <= q < 10^(-(g-1))
        proof {
            assert(q_le(pow10_q(-(g as int)), q)) by (nonlinear_arith)
                requires
                    pow10_q(-(g as int)) == (Ratio { n: 1, d: pcur as int }),
                    (sn as int) * (pcur as int) >= sd as int,
                    q == (Ratio { n: sn as int, d: sd as int }),
            ;
            assert(q_lt(q, pow10_q(-(g as int) + 1))) by (nonlinear_arith)
                requires
                    pow10_q(-(g as int) + 1) == (if g == 1 {
                        Ratio { n: 1, d: 1 }
                    } else {
                        Ratio { n: 1, d: prev as int }
                    }),
                    (sn as int) * (prev as int) < sd as int,
                    prev == 1 || prev >= 1,
                    sn < sd,
                    q == (Ratio { n: sn as int, d: sd as int }),
            ;
            assert(is_floor_log10(q, -(g as int)));
        }
        proof {
            assert((sn as int) * (pcur as int) <= 10 * (sd as int)) by (nonlinear_arith)
                requires
                    (sn as int) * (prev as int) < sd as int,
                    pcur == prev * 10,
                    sn >= 1,
                    sd >= 1,
            ;
        }
        (true, g, pcur)
    }
}


impl ScaleLinear {
    /// The ticks of the scale: one tick for a degenerate domain; for an
    /// ascending domain, every integer multiple of the "nice" step (the
    /// raw step `(d1-d0)/10` snapped to 1, 2, 5 or 10 times a power of
    /// ten) that lies inside the domain, in ascending order. A
    /// descending domain yields no ticks.
    pub fn get_ticks(&self) -> (out: Vec<Rat>)
        requires
            self.wf(),
            self.dom().len() == 2,
        ensures
            forall|i: int| 0 <= i < out@.len() ==> (#[trigger] out@[i]).wf(),
            q_eq(self.dom()[0], self.dom()[1]) ==> out@.len() == 1 && out@[0]@ == self.dom()[0],
            q_lt(self.dom()[1], self.dom()[0]) ==> out@.len() == 0,
            q_lt(self.dom()[0], self.dom()[1]) ==> exists|t: int, snap: int|
                #[trigger] nice_params(tick_step0(self.dom()[0], self.dom()[1]), t, snap)
                    && ticks_match(
                    self.dom()[0],
                    self.dom()[1],
                    t,
                    snap,
                    out@.map_values(|r: Rat| r@),
                ),
    {
        let d0 = self.domain[0];
        let d1 = self.domain[1];
        proof {
            assert(val_ok(self.dom()[0]) && val_ok(self.dom()[1]));
            assert(d0@ == self.dom()[0] && d1@ == self.dom()[1]);
            assert(-0x80_0000_0000_0000 <= d1@.n * d0@.d <= 0x80_0000_0000_0000
                && -0x80_0000_0000_0000 <= d0@.n * d1@.d <= 0x80_0000_0000_0000 && 1 <= d1@.d
                * d0@.d <= 0x4_0000_0000_0000) by (nonlinear_arith)
                requires
                    val_ok(d0@),
                    val_ok(d1@),
            ;
        }
        let e: i128 = d1.numerator() * d0.denominator() - d0.numerator() * d1.denominator();
        let mut out: Vec<Rat> = Vec::new();
        if e == 0 {
            out.push(d0);
            return out;
        }
        if e < 0 {
            proof {
                assert(q_lt(self.dom()[1], self.dom()[0]));
            }
            return out;
        }
        let sn: i128 = e;
        let sd: i128 = (d1.denominator() * d0.denominator()) * 10;
        let ghost step0g = tick_step0(self.dom()[0], self.dom()[1]);
        proof {
            assert(step0g == Ratio { n: sn as int, d: sd as int });
            assert(1 <= sn <= 0x100_0000_0000_0000);
            assert(10 <= sd <= 0x100_0000_0000_0000);
        }
        let (tneg, texp, tpow) = floor_log10(sn, sd);
        proof {
            assert(tpow as int == pow10(texp as nat));
            assert(!tneg ==> (sd as int) * (tpow as int) <= 0x100_0000_0000_0000);
            assert(tneg ==> (sn as int) * (tpow as int) <= 10 * (sd as int));
        }
        let ghost t: int = if tneg {
            -(texp as int)
        } else {
            texp as int
        };
        proof {
            if tneg {
                assert(1 <= (sn as int) * (tpow as int)) by (nonlinear_arith)
                    requires
                        sn >= 1,
                        tpow >= 1,
                ;
            }
        }
        let ern: i128 = if tneg {
            sn * tpow
        } else {
            sn
        };
        let erd: i128 = if tneg {
            sd
        } else {
            proof {
                assert(1 <= (sd as int) * (tpow as int)) by (nonlinear_arith)
                    requires
                        sd >= 1,
                        tpow >= 1,
                ;
            }
            sd * tpow
        };
        proof {
            assert(1 <= ern <= 0x1000_0000_0000_0000 && 1 <= erd <= 0x100_0000_0000_0000);
            assert(1 <= (ern as int) * (ern as int) <= 0x100_0000_0000_0000_0000_0000_0000_0000
                && 1 <= (erd as int) * (erd as int) <= 0x1_0000_0000_0000_0000_0000_0000_0000)
                by (nonlinear_arith)
                requires
                    1 <= ern <= 0x1000_0000_0000_0000,
                    1 <= erd <= 0x100_0000_0000_0000,
            ;
        }
        let s2: i128 = ern * ern;
        let d2: i128 = erd * erd;
        let snap: i128 = if s2 >= 50 * d2 {
            10
        } else if s2 >= 10 * d2 {
            5
        } else if s2 >= 2 * d2 {
            2
        } else {
            1
        };
        proof {
            let err = q_div(step0g, pow10_q(t));
            if tneg {
                assert(pow10_q(t) == Ratio { n: 1, d: tpow as int });
                assert(err == Ratio { n: (sn as int) * (tpow as int), d: (sd as int) * 1 });
                assert(err.n == ern as int && err.d == erd as int);
            } else {
                assert(pow10_q(t) == Ratio { n: tpow as int, d: 1 });
                assert(err == Ratio { n: (sn as int) * 1, d: (sd as int) * (tpow as int) });
                assert(err.n == ern as int && err.d == erd as int);
            }
            assert(q_mul(err, err) == Ratio { n: (ern as int) * (ern as int), d: (erd as int) * (
            erd as int) });
            let e2 = q_mul(err, err);
            assert(e2.n == s2 as int && e2.d == d2 as int);
            assert((s2 as int) * 1 == s2 as int);
            assert(q_le(q_int(50), e2) <==> 50 * (d2 as int) <= s2 as int);
            assert(q_le(q_int(10), e2) <==> 10 * (d2 as int) <= s2 as int);
            assert(q_le(q_int(2), e2) <==> 2 * (d2 as int) <= s2 as int);
            assert(is_nice_snap(step0g, t, snap as int));
            assert(nice_params(step0g, t, snap as int));
        }
        let stepn: i128 = if tneg {
            snap
        } else {
            proof {
                assert(1 <= (snap as int) * (tpow as int) <= 0x10_0000_0000_0000_0000_0000)
                    by (nonlinear_arith)
                    requires
                        1 <= snap <= 10,
                        1 <= tpow <= 0x1000_0000_0000_0000_0000,
                ;
            }
            snap * tpow
        };
        let stepd: i128 = if tneg {
            tpow
        } else {
            1
        };
        let ghost stepq = tick_step_q(t, snap as int);
        proof {
            assert(stepq.n == stepn as int && stepq.d == stepd as int);
            assert(1 <= stepn <= 0x10_0000_0000_0000_0000_0000);
            assert(1 <= stepd <= 0x1000_0000_0000_0000_0000);
            assert(-0x1_0000_0000_0000_0000_0000_0000_0000 <= (d0@.n) * (stepd as int)
                <= 0x1_0000_0000_0000_0000_0000_0000_0000 && 1 <= (d0@.d) * (stepn as int)
                <= 0x1_0000_0000_0000_0000_0000_0000_0000
                && -0x1_0000_0000_0000_0000_0000_0000_0000 <= (d1@.n) * (stepd as int)
                <= 0x1_0000_0000_0000_0000_0000_0000_0000 && 1 <= (d1@.d) * (stepn as int)
                <= 0x1_0000_0000_0000_0000_0000_0000_0000) by (nonlinear_arith)
                requires
                    val_ok(d0@),
                    val_ok(d1@),
                    1 <= stepn <= 0x10_0000_0000_0000_0000_0000,
                    1 <= stepd <= 0x1000_0000_0000_0000_0000,
            ;
        }
        let qmin = rat_raw(d0.numerator() * stepd, d0.denominator() * stepn);
        let kmin = qmin.ceil();
        let qmax = rat_raw(d1.numerator() * stepd, d1.denominator() * stepn);
        let kmax = qmax.floor();
        proof {
            assert(qmin@ == q_div(self.dom()[0], stepq));
            assert(qmax@ == q_div(self.dom()[1], stepq));
            assert(kmin == q_ceil(q_div(self.dom()[0], stepq)));
            assert(kmax == q_floor(q_div(self.dom()[1], stepq)));
            lemma_q_ceil_char(qmin@);
            lemma_q_floor_char(qmax@);
            assert((kmax as int) * (stepn as int) <= 0x1_0000_0000_0000_0000_0000_0000_0000)
                by (nonlinear_arith)
                requires
                    ((d1@.d) * (stepn as int)) * (kmax as int) >= qmax@.d * (kmax as int)
                        || ((d1@.d) * (stepn as int)) * (kmax as int) == qmax@.d * (kmax as int),
                    qmax@.d * (kmax as int) <= qmax@.n,
                    qmax@.n <= 0x1_0000_0000_0000_0000_0000_0000_0000,
                    qmax@.d == (d1@.d) * (stepn as int),
                    d1@.d >= 1,
                    stepn >= 1,
            ;
            assert((kmin as int) * (stepn as int) >= -0x1_0000_0000_0000_0000_0000_0000_0000)
                by (nonlinear_arith)
                requires
                    qmin@.n <= qmin@.d * (kmin as int),
                    qmin@.n >= -0x1_0000_0000_0000_0000_0000_0000_0000,
                    qmin@.d == (d0@.d) * (stepn as int),
                    d0@.d >= 1,
                    stepn >= 1,
            ;
            assert(qmin@.n * qmax@.d <= qmax@.n * qmin@.d) by (nonlinear_arith)
                requires
                    qmin@.n == d0@.n * (stepd as int),
                    qmin@.d == d0@.d * (stepn as int),
                    qmax@.n == d1@.n * (stepd as int),
                    qmax@.d == d1@.d * (stepn as int),
                    d0@.n * d1@.d <= d1@.n * d0@.d,
                    stepd >= 1,
                    stepn >= 1,
            ;
            assert(kmin <= kmax + 1) by (nonlinear_arith)
                requires
                    qmin@.d * ((kmin as int) - 1) < qmin@.n,
                    qmax@.n < qmax@.d * ((kmax as int) + 1),
                    qmin@.n * qmax@.d <= qmax@.n * qmin@.d,
                    qmin@.d >= 1,
                    qmax@.d >= 1,
            ;
        }
        let mut k: i128 = kmin;
        while k <= kmax
            invariant
                kmin <= k,
                k <= kmax + 1,
                kmax < kmin ==> k == kmin,
                out@.len() == k - kmin,
                1 <= stepn <= 0x10_0000_0000_0000_0000_0000,
                1 <= stepd <= 0x1000_0000_0000_0000_0000,
                stepq.n == stepn as int && stepq.d == stepd as int,
                (kmax as int) * (stepn as int) <= 0x1_0000_0000_0000_0000_0000_0000_0000,
                (kmin as int) * (stepn as int) >= -0x1_0000_0000_0000_0000_0000_0000_0000,
                -0x2000_0000_0000_0000_0000_0000_0000_0000 <= kmin,
                kmax <= 0x2000_0000_0000_0000_0000_0000_0000_0000,
                forall|i: int| 0 <= i < out@.len() ==> (#[trigger] out@[i]).wf(),
                forall|i: int|
                    0 <= i < out@.len() ==> (#[trigger] out@[i])@ == q_mul(
                        q_int(kmin + i),
                        stepq,
                    ),
            decreases kmax + 1 - k,
        {
            proof {
                vstd::arithmetic::mul::lemma_mul_inequality(kmin as int, k as int, stepn as int);
                vstd::arithmetic::mul::lemma_mul_inequality(k as int, kmax as int, stepn as int);
            }
            let tick = rat_raw(k * stepn, stepd);
            proof {
                assert(q_mul(q_int(k as int), stepq) == Ratio {
                    n: (k as int) * (stepn as int),
                    d: 1 * (stepd as int),
                });
            }
            out.push(tick);
            k = k + 1;
        }
        proof {
            let outv = out@.map_values(|r: Rat| r@);
            assert(outv.len() == out@.len());
            assert(ticks_match(self.dom()[0], self.dom()[1], t, snap as int, outv)) by {
                assert(outv.len() == (if kmax >= kmin {
                    kmax - kmin + 1
                } else {
                    0
                }));
                assert forall|i: int| 0 <= i < outv.len() implies #[trigger] outv[i] == q_mul(
                    q_int(q_ceil(q_div(self.dom()[0], stepq)) + i),
                    stepq,
                ) by {
                    assert(outv[i] == out@[i]@);
                    assert(out@[i]@ == q_mul(q_int(kmin + i), stepq));
                }
            }
            assert(q_lt(self.dom()[0], self.dom()[1]));
        }
        out
    }
}


/// A set domain consists of two accepted values.
pub proof fn lemma_linear_wf(l: &ScaleLinear)
    requires
        l.wf(),
        l.dom().len() == 2,
    ensures
        val_ok(l.dom()[0]),
        val_ok(l.dom()[1]),
        lin_range_ok(l.rng().0),
        lin_range_ok(l.rng().1),
{
}

/// The affine map always produces a well-formed rational.
pub proof fn lemma_linear_scale_q_wf(d0: Ratio, d1: Ratio, r0: int, r1: int, x: Ratio)
    requires
        q_wf(d0),
        q_wf(d1),
        q_wf(x),
    ensures
        q_wf(linear_scale_q(d0, d1, r0, r1, x)),
{
    if !q_eq(d0, d1) {
        let e = d1.n * d0.d - d0.n * d1.d;
        if e >= 0 {
            assert(x.d * e >= 1) by (nonlinear_arith)
                requires
                    x.d >= 1,
                    e >= 1,
            ;
        } else {
            assert(-(x.d * e) >= 1) by (nonlinear_arith)
                requires
                    x.d >= 1,
                    e <= -1,
            ;
        }
    }
}

/// The affine map gives value-equal outputs for value-equal inputs.
pub proof fn lemma_linear_scale_congruence(
    d0: Ratio,
    d1: Ratio,
    r0: int,
    r1: int,
    x: Ratio,
    x2: Ratio,
)
    requires
        q_wf(d0),
        q_wf(d1),
        q_wf(x),
        q_wf(x2),
        q_eq(x, x2),
    ensures
        q_eq(linear_scale_q(d0, d1, r0, r1, x), linear_scale_q(d0, d1, r0, r1, x2)),
{
    if q_eq(d0, d1) {
    } else {
        let e = d1.n * d0.d - d0.n * d1.d;
        let tx = x.n * d0.d - d0.n * x.d;
        let tx2 = x2.n * d0.d - d0.n * x2.d;
        let rr = d1.d * (r1 - r0);
        let w = rr * e;
        assert(tx * x2.d - tx2 * x.d == d0.d * (x.n * x2.d - x2.n * x.d)) by (nonlinear_arith)
            requires
                tx == x.n * d0.d - d0.n * x.d,
                tx2 == x2.n * d0.d - d0.n * x2.d,
        ;
        assert(tx * x2.d == tx2 * x.d);
        let nx = tx * rr + (r0 * x.d) * e;
        let nx2 = tx2 * rr + (r0 * x2.d) * e;
        lemma_mul_is_distributive_add_other_way(x2.d * e, tx * rr, (r0 * x.d) * e);
        lemma_mul_is_distributive_add_other_way(x.d * e, tx2 * rr, (r0 * x2.d) * e);
        lemma_mul_exchange(tx, rr, x2.d, e);
        lemma_mul_exchange2(tx, x2.d, rr, e);
        lemma_mul_exchange(tx2, rr, x.d, e);
        lemma_mul_exchange2(tx2, x.d, rr, e);
        assert((tx * rr) * (x2.d * e) == (tx * x2.d) * w);
        assert((tx2 * rr) * (x.d * e) == (tx2 * x.d) * w);
        lemma_mul_exchange((r0 * x.d), e, x2.d, e);
        lemma_mul_exchange((r0 * x2.d), e, x.d, e);
        lemma_mul_is_associative(r0, x.d, x2.d);
        lemma_mul_is_associative(r0, x2.d, x.d);
        lemma_mul_is_commutative(x.d, x2.d);
        assert(((r0 * x.d) * e) * (x2.d * e) == ((r0 * x2.d) * e) * (x.d * e));
        assert(nx * (x2.d * e) == nx2 * (x.d * e));
        if e >= 0 {
        } else {
            let sx = linear_scale_q(d0, d1, r0, r1, x);
            let sx2 = linear_scale_q(d0, d1, r0, r1, x2);
            assert(sx.n * sx2.d == (-nx) * (-(x2.d * e)));
            assert((-nx) * (-(x2.d * e)) == nx * (x2.d * e)) by (nonlinear_arith);
            assert((-nx2) * (-(x.d * e)) == nx2 * (x.d * e)) by (nonlinear_arith);
        }
    }
}


/// Every tick of the nice-step parameters `(t, snap)` for the ascending
/// domain `[d0, d1]` is a value the scale's exact arithmetic accepts.
pub open spec fn tick_vals_ok(d0: Ratio, d1: Ratio, t: int, snap: int) -> bool {
    let step = tick_step_q(t, snap);
    let kmin = q_ceil(q_div(d0, step));
    let kmax = q_floor(q_div(d1, step));
    forall|k: int| kmin <= k <= kmax ==> val_ok(#[trigger] q_mul(q_int(k), step))
}

/// Whether deriving an axis from this linear scale succeeds: on an
/// ascending domain, every generated tick value must be within the exact
/// range; degenerate and descending domains always succeed.
pub open spec fn linear_ticks_ok(l: &ScaleLinear) -> bool {
    q_lt(l.dom()[0], l.dom()[1]) ==> (forall|t: int, snap: int|
        #[trigger] nice_params(tick_step0(l.dom()[0], l.dom()[1]), t, snap) ==> tick_vals_ok(
            l.dom()[0],
            l.dom()[1],
            t,
            snap,
        ))
}

/// Powers of ten grow with the exponent, as rationals.
pub proof fn lemma_pow10_q_mono(a: int, b: int)
    requires
        a <= b,
    ensures
        crate::rational::q_le(pow10_q(a), pow10_q(b)),
{
    if a >= 0 {
        lemma_pow10_mono(a as nat, b as nat);
        lemma_pow10_pos(a as nat);
        lemma_pow10_pos(b as nat);
    } else if b >= 0 {
        lemma_pow10_pos((-a) as nat);
        lemma_pow10_pos(b as nat);
        assert(1 * 1 <= pow10(b as nat) * pow10((-a) as nat)) by (nonlinear_arith)
            requires
                pow10(b as nat) >= 1,
                pow10((-a) as nat) >= 1,
        ;
    } else {
        lemma_pow10_mono((-b) as nat, (-a) as nat);
        lemma_pow10_pos((-b) as nat);
        lemma_pow10_pos((-a) as nat);
    }
}

/// The floor of the base-ten logarithm is unique.
pub proof fn lemma_floor_log10_unique(q: Ratio, f1: int, f2: int)
    requires
        q_wf(q),
        is_floor_log10(q, f1),
        is_floor_log10(q, f2),
    ensures
        f1 == f2,
{
    lemma_pow10_pos_q(f1);
    lemma_pow10_pos_q(f2);
    lemma_pow10_pos_q(f1 + 1);
    lemma_pow10_pos_q(f2 + 1);
    if f1 < f2 {
        lemma_pow10_q_mono(f1 + 1, f2);
        crate::rational::lemma_q_le_trans(pow10_q(f1 + 1), pow10_q(f2), q);
        assert(false);
    }
    if f2 < f1 {
        lemma_pow10_q_mono(f2 + 1, f1);
        crate::rational::lemma_q_le_trans(pow10_q(f2 + 1), pow10_q(f1), q);
        assert(false);
    }
}

/// A power of ten is a well-formed positive rational.
pub proof fn lemma_pow10_pos_q(p: int)
    ensures
        pow10_q(p).d >= 1,
        pow10_q(p).n >= 1,
{
    if p >= 0 {
        lemma_pow10_pos(p as nat);
    } else {
        lemma_pow10_pos((-p) as nat);
    }
}

/// The nice-step parameters of a raw step are unique.
pub proof fn lemma_nice_params_unique(q: Ratio, t1: int, snap1: int, t2: int, snap2: int)
    requires
        q_wf(q),
        nice_params(q, t1, snap1),
        nice_params(q, t2, snap2),
    ensures
        t1 == t2,
        snap1 == snap2,
{
    lemma_floor_log10_unique(q, t1, t2);
}

} // verus!
