//! Exact rational arithmetic used for every pixel coordinate the library
//! computes. An executable `Rat` carries an `i128` numerator and a positive
//! `i128` denominator; its ghost model `Ratio` is the same pair over
//! unbounded integers. Equality of values is cross-multiplication
//! (`q_eq`), so contracts never depend on a particular representative.

use vstd::prelude::*;
use vstd::arithmetic::div_mod::{
    lemma_fundamental_div_mod, lemma_mod_multiples_vanish, lemma_mod_self_0,
};
use vstd::arithmetic::mul::{
    lemma_mul_is_associative, lemma_mul_is_commutative, lemma_mul_is_distributive_add_other_way,
    lemma_mul_is_distributive_sub_other_way, lemma_mul_strict_inequality,
    lemma_mul_strictly_positive,
};

verus! {

/// Ghost model of a rational number: an unbounded numerator and
/// denominator. A well-formed `Ratio` has a positive denominator.
pub struct Ratio {
    pub n: int,
    pub d: int,
}

/// The model denominator is positive.
pub open spec fn q_wf(q: Ratio) -> bool {
    q.d >= 1
}

/// The rational numbers `a` and `b` are equal (cross multiplication).
pub open spec fn q_eq(a: Ratio, b: Ratio) -> bool {
    a.n * b.d == b.n * a.d
}

/// `a <= b` as rational numbers (denominators must be positive).
pub open spec fn q_le(a: Ratio, b: Ratio) -> bool {
    a.n * b.d <= b.n * a.d
}

/// `a < b` as rational numbers.
pub open spec fn q_lt(a: Ratio, b: Ratio) -> bool {
    a.n * b.d < b.n * a.d
}

/// The rational holding the integer `n`.
pub open spec fn q_int(n: int) -> Ratio {
    Ratio { n: n, d: 1 }
}

pub open spec fn q_add(a: Ratio, b: Ratio) -> Ratio {
    Ratio { n: a.n * b.d + b.n * a.d, d: a.d * b.d }
}

pub open spec fn q_sub(a: Ratio, b: Ratio) -> Ratio {
    Ratio { n: a.n * b.d - b.n * a.d, d: a.d * b.d }
}

pub open spec fn q_mul(a: Ratio, b: Ratio) -> Ratio {
    Ratio { n: a.n * b.n, d: a.d * b.d }
}

/// Division; meaningful only when `b` is nonzero. The denominator sign is
/// repaired so the result is well-formed whenever `a` and `b` are.
pub open spec fn q_div(a: Ratio, b: Ratio) -> Ratio {
    if b.n >= 0 {
        Ratio { n: a.n * b.d, d: a.d * b.n }
    } else {
        Ratio { n: -(a.n * b.d), d: a.d * -b.n }
    }
}

pub open spec fn q_neg(a: Ratio) -> Ratio {
    Ratio { n: -a.n, d: a.d }
}

/// Floor of the rational (integer division by a positive denominator).
pub open spec fn q_floor(q: Ratio) -> int {
    q.n / q.d
}

/// Ceiling of the rational.
pub open spec fn q_ceil(q: Ratio) -> int {
    -((-q.n) / q.d)
}

/// Euclid's greatest common divisor, as a specification.
pub open spec fn gcd_spec(a: int, b: int) -> int
    decreases b,
{
    if b <= 0 {
        a
    } else {
        gcd_spec(b, a % b)
    }
}

/// The reduced form of a fraction with a positive denominator: both
/// components divided by their greatest common divisor, the sign kept on
/// the numerator. This is the representative every arithmetic operation
/// returns.
pub open spec fn q_reduced(q: Ratio) -> Ratio {
    let m = if q.n < 0 {
        -q.n
    } else {
        q.n
    };
    let g = gcd_spec(m, q.d);
    Ratio {
        n: if q.n < 0 {
            -(m / g)
        } else {
            m / g
        },
        d: q.d / g,
    }
}

/// `r` is `raw` with a positive common factor divided out; in particular
/// the two are equal as rationals and `r` is no larger componentwise.
pub open spec fn q_shrinks_to(raw: Ratio, r: Ratio) -> bool {
    exists|g: int| g >= 1 && #[trigger] (r.n * g) == raw.n && r.d * g == raw.d
}

/// Bound on the components an arithmetic operation accepts: products of two
/// such components stay inside `i128`.
pub open spec fn q_op_ok(q: Ratio) -> bool {
    &&& -0x4000_0000_0000_0000int <= q.n <= 0x4000_0000_0000_0000int
    &&& 1 <= q.d <= 0x4000_0000_0000_0000int
}

/// Shrinking preserves the rational value and never grows a component.
pub proof fn lemma_shrink_props(raw: Ratio, r: Ratio)
    requires
        q_shrinks_to(raw, r),
        raw.d >= 1,
        r.d >= 1,
    ensures
        q_eq(r, raw),
        q_eq(raw, r),
        r.d <= raw.d,
        raw.n >= 0 ==> 0 <= r.n <= raw.n,
        raw.n <= 0 ==> raw.n <= r.n <= 0,
{
    let g = choose|g: int| g >= 1 && #[trigger] (r.n * g) == raw.n && r.d * g == raw.d;
    assert(r.n * raw.d == raw.n * r.d && r.d <= raw.d && (raw.n >= 0 ==> 0 <= r.n <= raw.n)
        && (raw.n <= 0 ==> raw.n <= r.n <= 0)) by (nonlinear_arith)
        requires
            g >= 1,
            r.n * g == raw.n,
            r.d * g == raw.d,
            raw.d >= 1,
            r.d >= 1,
    ;
}

/// A rational that shrinks to an integer-denominator raw value is that
/// integer exactly.
pub proof fn lemma_shrink_int(raw: Ratio, r: Ratio)
    requires
        q_shrinks_to(raw, r),
        raw.d == 1,
        r.d >= 1,
    ensures
        r == raw,
{
    let g = choose|g: int| g >= 1 && #[trigger] (r.n * g) == raw.n && r.d * g == raw.d;
    assert(r.d == 1 && g == 1 && r.n == raw.n) by (nonlinear_arith)
        requires
            g >= 1,
            r.d >= 1,
            r.d * g == 1,
            r.n * g == raw.n,
    ;
}

/// Equality of rationals is transitive (denominators positive).
pub proof fn lemma_q_eq_trans(a: Ratio, b: Ratio, c: Ratio)
    requires
        q_wf(a),
        q_wf(b),
        q_wf(c),
        q_eq(a, b),
        q_eq(b, c),
    ensures
        q_eq(a, c),
{
    assert(a.n * c.d == c.n * a.d) by (nonlinear_arith)
        requires
            a.n * b.d == b.n * a.d,
            b.n * c.d == c.n * b.d,
            a.d >= 1,
            b.d >= 1,
            c.d >= 1,
    ;
}

/// The order on rationals is transitive (denominators positive).
pub proof fn lemma_q_le_trans(a: Ratio, b: Ratio, c: Ratio)
    requires
        q_wf(a),
        q_wf(b),
        q_wf(c),
        q_le(a, b),
        q_le(b, c),
    ensures
        q_le(a, c),
{
    assert(a.n * c.d <= c.n * a.d) by (nonlinear_arith)
        requires
            a.n * b.d <= b.n * a.d,
            b.n * c.d <= c.n * b.d,
            a.d >= 1,
            b.d >= 1,
            c.d >= 1,
    ;
}

/// Cancel a positive factor in a strict inequality.
proof fn lemma_mul_lt_cancel(x: int, y: int, f: int)
    requires
        f >= 1,
        x * f < y * f,
    ensures
        x < y,
{
    assert(x < y) by (nonlinear_arith)
        requires
            f >= 1,
            x * f < y * f,
    ;
}

/// Rearrange a product of four factors: `(a*b)*(c*d) == (a*c)*(b*d)`.
pub proof fn lemma_mul_exchange(a: int, b: int, c: int, d: int)
    ensures
        (a * b) * (c * d) == (a * c) * (b * d),
{
    lemma_mul_is_associative(a, b, c * d);
    lemma_mul_is_associative(b, c, d);
    lemma_mul_is_commutative(b, c);
    lemma_mul_is_associative(c, b, d);
    lemma_mul_is_associative(a, c, b * d);
}

/// Rearrange a product of four factors: `(a*b)*(c*d) == (a*d)*(c*b)`.
pub proof fn lemma_mul_exchange2(a: int, b: int, c: int, d: int)
    ensures
        (a * b) * (c * d) == (a * d) * (c * b),
{
    lemma_mul_exchange(a, b, c, d);
    lemma_mul_is_commutative(b, d);
    lemma_mul_exchange(a, c, d, b);
}

/// Value equality is a congruence for addition.
pub proof fn lemma_q_add_congruence(a: Ratio, b: Ratio, a2: Ratio, b2: Ratio)
    requires
        q_wf(a),
        q_wf(b),
        q_wf(a2),
        q_wf(b2),
        q_eq(a, a2),
        q_eq(b, b2),
    ensures
        q_eq(q_add(a, b), q_add(a2, b2)),
{
    lemma_mul_is_distributive_add_other_way(a2.d * b2.d, a.n * b.d, b.n * a.d);
    lemma_mul_exchange(a.n, b.d, a2.d, b2.d);
    lemma_mul_exchange2(b.n, a.d, a2.d, b2.d);
    lemma_mul_is_distributive_add_other_way(a.d * b.d, a2.n * b2.d, b2.n * a2.d);
    lemma_mul_exchange(a2.n, b2.d, a.d, b.d);
    lemma_mul_exchange2(b2.n, a2.d, a.d, b.d);
    lemma_mul_is_commutative(b.d, b2.d);
    lemma_mul_is_commutative(a2.d, a.d);
}

/// Value equality is a congruence for subtraction.
pub proof fn lemma_q_sub_congruence(a: Ratio, b: Ratio, a2: Ratio, b2: Ratio)
    requires
        q_wf(a),
        q_wf(b),
        q_wf(a2),
        q_wf(b2),
        q_eq(a, a2),
        q_eq(b, b2),
    ensures
        q_eq(q_sub(a, b), q_sub(a2, b2)),
{
    lemma_mul_is_distributive_sub_other_way(a2.d * b2.d, a.n * b.d, b.n * a.d);
    lemma_mul_exchange(a.n, b.d, a2.d, b2.d);
    lemma_mul_exchange2(b.n, a.d, a2.d, b2.d);
    lemma_mul_is_distributive_sub_other_way(a.d * b.d, a2.n * b2.d, b2.n * a2.d);
    lemma_mul_exchange(a2.n, b2.d, a.d, b.d);
    lemma_mul_exchange2(b2.n, a2.d, a.d, b.d);
    lemma_mul_is_commutative(b.d, b2.d);
    lemma_mul_is_commutative(a2.d, a.d);
}

/// Value equality is a congruence for multiplication.
pub proof fn lemma_q_mul_congruence(a: Ratio, b: Ratio, a2: Ratio, b2: Ratio)
    requires
        q_wf(a),
        q_wf(b),
        q_wf(a2),
        q_wf(b2),
        q_eq(a, a2),
        q_eq(b, b2),
    ensures
        q_eq(q_mul(a, b), q_mul(a2, b2)),
{
    lemma_mul_exchange(a.n, b.n, a2.d, b2.d);
    lemma_mul_exchange(a2.n, b2.n, a.d, b.d);
}

/// The strict order respects value equality.
pub proof fn lemma_q_lt_congruence(a: Ratio, b: Ratio, a2: Ratio, b2: Ratio)
    requires
        q_wf(a),
        q_wf(b),
        q_wf(a2),
        q_wf(b2),
        q_eq(a, a2),
        q_eq(b, b2),
        q_lt(a2, b2),
    ensures
        q_lt(a, b),
{
    let f = a2.d * b2.d;
    let g = a.d * b.d;
    lemma_mul_strictly_positive(a2.d, b2.d);
    lemma_mul_strictly_positive(a.d, b.d);
    lemma_mul_exchange(a.n, b.d, a2.d, b2.d);
    lemma_mul_exchange2(a2.n, a.d, b.d, b2.d);
    lemma_mul_is_commutative(b.d, a.d);
    assert((a.n * b.d) * f == (a2.n * b2.d) * g);
    lemma_mul_exchange2(b.n, a.d, a2.d, b2.d);
    lemma_mul_exchange(b2.n, b.d, a2.d, a.d);
    assert((b.n * a.d) * f == (b2.n * a2.d) * g);
    lemma_mul_strict_inequality(a2.n * b2.d, b2.n * a2.d, g);
    lemma_mul_is_commutative(g, a2.n * b2.d);
    lemma_mul_is_commutative(g, b2.n * a2.d);
    lemma_mul_lt_cancel(a.n * b.d, b.n * a.d, f);
}

/// The order respects value equality.
pub proof fn lemma_q_le_congruence(a: Ratio, b: Ratio, a2: Ratio, b2: Ratio)
    requires
        q_wf(a),
        q_wf(b),
        q_wf(a2),
        q_wf(b2),
        q_eq(a, a2),
        q_eq(b, b2),
        q_le(a2, b2),
    ensures
        q_le(a, b),
{
    if q_lt(b, a) {
        lemma_q_lt_congruence(b2, a2, b, a);
        assert(false);
    }
}

/// If `d` divides `y` and the remainder of `x` by `y`, it divides `x`.
proof fn lemma_divides_transfer(x: int, y: int, d: int)
    requires
        x >= 0,
        y >= 1,
        d >= 1,
        y % d == 0,
        (x % y) % d == 0,
    ensures
        x % d == 0,
{
    let q = x / y;
    let r = x % y;
    lemma_fundamental_div_mod(x, y);
    let yk = y / d;
    lemma_fundamental_div_mod(y, d);
    assert(x == d * (yk * q) + r) by (nonlinear_arith)
        requires
            x == y * q + r,
            y == d * yk,
    ;
    lemma_mod_multiples_vanish(yk * q, r, d);
}

/// Greatest common divisor by Euclid's algorithm. Only the facts the
/// library needs are stated: the result is positive and divides both
/// arguments.
fn gcd128(a0: i128, b0: i128) -> (g: i128)
    requires
        0 <= a0,
        1 <= b0,
    ensures
        1 <= g <= b0,
        (a0 as int) % (g as int) == 0,
        (b0 as int) % (g as int) == 0,
        g as int == gcd_spec(a0 as int, b0 as int),
{
    let mut x: i128 = a0;
    let mut y: i128 = b0;
    while y != 0
        invariant
            0 <= a0,
            1 <= b0,
            0 <= x,
            0 <= y,
            x <= a0 + b0,
            y <= b0,
            gcd_spec(x as int, y as int) == gcd_spec(a0 as int, b0 as int),
            y == 0 ==> 1 <= x <= b0,
            forall|dd: int|
                1 <= dd && #[trigger] ((x as int) % dd) == 0 && (y as int) % dd == 0 ==> (
                a0 as int) % dd == 0 && (b0 as int) % dd == 0,
        decreases y,
    {
        let r = x % y;
        proof {
            assert forall|dd: int|
                1 <= dd && #[trigger] ((y as int) % dd) == 0 && (r as int) % dd == 0 implies (
            a0 as int) % dd == 0 && (b0 as int) % dd == 0 by {
                lemma_divides_transfer(x as int, y as int, dd);
            }
        }
        x = y;
        y = r;
    }
    proof {
        lemma_mod_self_0(x as int);
        assert((0int) % (x as int) == 0);
    }
    x
}

/// Executable rational number. The denominator is always positive;
/// operations divide out the greatest common divisor, but no contract
/// depends on the representation being reduced.
#[derive(Clone, Copy, Debug)]
pub struct Rat {
    num: i128,
    den: i128,
}

impl View for Rat {
    type V = Ratio;

    closed spec fn view(&self) -> Ratio {
        Ratio { n: self.num as int, d: self.den as int }
    }
}

/// Divide the greatest common divisor out of `n / d`.
pub(crate) fn reduce128(n: i128, d: i128) -> (r: Rat)
    requires
        -0x2000_0000_0000_0000_0000_0000_0000_0000 <= n <= 0x2000_0000_0000_0000_0000_0000_0000_0000,
        1 <= d <= 0x2000_0000_0000_0000_0000_0000_0000_0000,
    ensures
        r.wf(),
        q_shrinks_to(Ratio { n: n as int, d: d as int }, r@),
        q_eq(r@, Ratio { n: n as int, d: d as int }),
        r@.d <= d,
        r@ == q_reduced(Ratio { n: n as int, d: d as int }),
{
    let mag: i128 = if n < 0 {
        -n
    } else {
        n
    };
    let g = gcd128(mag, d);
    let q = mag / g;
    let den = d / g;
    proof {
        lemma_fundamental_div_mod(mag as int, g as int);
        lemma_fundamental_div_mod(d as int, g as int);
        assert(den as int >= 1 && q >= 0 && q <= mag && den <= d) by (nonlinear_arith)
            requires
                mag as int == (g as int) * (q as int),
                d as int == (g as int) * (den as int),
                g >= 1,
                d >= 1,
                mag >= 0,
                q as int == mag as int / g as int,
                den as int == d as int / g as int,
        ;
    }
    let numr: i128 = if n < 0 {
        -q
    } else {
        q
    };
    let result = Rat { num: numr, den: den };
    proof {
        let gg = g as int;
        assert((numr as int) * gg == n as int && (den as int) * gg == d as int)
            by (nonlinear_arith)
            requires
                gg >= 1,
                (q as int) * gg == mag as int,
                (den as int) * gg == d as int,
                mag as int == if n < 0 { -(n as int) } else { n as int },
                numr as int == if n < 0 { -(q as int) } else { q as int },
        ;
        assert(result@.n * gg == n as int && result@.d * gg == d as int && gg >= 1);
        assert(q_shrinks_to(Ratio { n: n as int, d: d as int }, result@));
        lemma_shrink_props(Ratio { n: n as int, d: d as int }, result@);
    }
    result
}

/// Build a rational from explicit components, without reduction.
pub(crate) fn rat_raw(n: i128, d: i128) -> (r: Rat)
    requires
        -0x2000_0000_0000_0000_0000_0000_0000_0000 <= n <= 0x2000_0000_0000_0000_0000_0000_0000_0000,
        1 <= d <= 0x2000_0000_0000_0000_0000_0000_0000_0000,
    ensures
        r.wf(),
        r@ == (Ratio { n: n as int, d: d as int }),
{
    Rat { num: n, den: d }
}

/// The floor is the greatest integer below the value: the defining
/// inequalities of `q_floor`.
pub proof fn lemma_q_floor_char(q: Ratio)
    requires
        q_wf(q),
    ensures
        q.d * q_floor(q) <= q.n,
        q.n < q.d * (q_floor(q) + 1),
{
    lemma_fundamental_div_mod(q.n, q.d);
    vstd::arithmetic::div_mod::lemma_mod_division_less_than_divisor(q.n, q.d);
    assert(q.d * (q_floor(q) + 1) == q.d * q_floor(q) + q.d) by (nonlinear_arith);
}

/// The ceiling is the least integer above the value: the defining
/// inequalities of `q_ceil`.
pub proof fn lemma_q_ceil_char(q: Ratio)
    requires
        q_wf(q),
    ensures
        q.n <= q.d * q_ceil(q),
        q.d * (q_ceil(q) - 1) < q.n,
{
    let neg = Ratio { n: -q.n, d: q.d };
    lemma_q_floor_char(neg);
    assert(q_ceil(q) == -q_floor(neg));
    assert(q.d * q_ceil(q) == -(q.d * q_floor(neg)) && q.d * (q_ceil(q) - 1) == -(q.d * (q_floor(
        neg,
    ) + 1))) by (nonlinear_arith)
        requires
            q_ceil(q) == -q_floor(neg),
    ;
}

impl Rat {
    /// The executable value is well-formed: positive denominator and
    /// components small enough that one further product fits the machine.
    pub open spec fn wf(&self) -> bool {
        &&& 1 <= self@.d <= 0x2000_0000_0000_0000_0000_0000_0000_0000
        &&& -0x2000_0000_0000_0000_0000_0000_0000_0000 <= self@.n
            <= 0x2000_0000_0000_0000_0000_0000_0000_0000
    }

    /// The rational holding the integer `n`.
    pub fn from_int(n: i64) -> (r: Rat)
        ensures
            r.wf(),
            r@ == q_int(n as int),
    {
        Rat { num: n as i128, den: 1 }
    }

    /// Build `num/den`; `None` exactly when `den` is zero.
    pub fn new(num: i64, den: i64) -> (r: Option<Rat>)
        ensures
            r matches Some(q) ==> q.wf() && q_eq(q@, Ratio { n: num as int, d: den as int })
                && den != 0,
            r matches Some(q) ==> q@ == (if den < 0 {
                Ratio { n: -(num as int), d: -(den as int) }
            } else {
                Ratio { n: num as int, d: den as int }
            }),
            r is None <==> den == 0,
    {
        if den == 0 {
            None
        } else if den < 0 {
            proof {
                assert((-(num as int)) * (den as int) == (num as int) * (-(den as int)))
                    by (nonlinear_arith);
            }
            Some(Rat { num: -(num as i128), den: -(den as i128) })
        } else {
            Some(Rat { num: num as i128, den: den as i128 })
        }
    }

    pub fn numerator(&self) -> (r: i128)
        ensures
            r == self@.n,
    {
        self.num
    }

    pub fn denominator(&self) -> (r: i128)
        ensures
            r == self@.d,
    {
        self.den
    }

    /// Whether this value is well-formed (runtime check for values that
    /// arrive from outside the library's constructors).
    pub fn check_wf(&self) -> (r: bool)
        ensures
            r == self.wf(),
    {
        1 <= self.den && self.den <= 0x2000_0000_0000_0000_0000_0000_0000_0000
            && -0x2000_0000_0000_0000_0000_0000_0000_0000 <= self.num && self.num
            <= 0x2000_0000_0000_0000_0000_0000_0000_0000
    }

    /// Whether this value is small enough to be an operand of the
    /// arithmetic methods.
    pub fn is_op_safe(&self) -> (r: bool)
        requires
            self.wf(),
        ensures
            r == q_op_ok(self@),
    {
        -0x4000_0000_0000_0000i128 <= self.num && self.num <= 0x4000_0000_0000_0000i128
            && self.den <= 0x4000_0000_0000_0000i128
    }

    /// Exact sum, reduced.
    pub fn add(&self, other: &Rat) -> (r: Rat)
        requires
            self.wf(),
            other.wf(),
            q_op_ok(self@),
            q_op_ok(other@),
        ensures
            r.wf(),
            q_shrinks_to(q_add(self@, other@), r@),
            q_eq(r@, q_add(self@, other@)),
            r@ == q_reduced(q_add(self@, other@)),
            r@.d <= self@.d * other@.d,
    {
        proof {
            assert(-0x1000_0000_0000_0000_0000_0000_0000_0000
                <= (self.num as int) * (other.den as int)
                <= 0x1000_0000_0000_0000_0000_0000_0000_0000
                && -0x1000_0000_0000_0000_0000_0000_0000_0000
                <= (other.num as int) * (self.den as int)
                <= 0x1000_0000_0000_0000_0000_0000_0000_0000
                && 1 <= (self.den as int) * (other.den as int)
                <= 0x1000_0000_0000_0000_0000_0000_0000_0000) by (nonlinear_arith)
                requires
                    q_op_ok(self@),
                    q_op_ok(other@),
                    self@.n == self.num as int,
                    self@.d == self.den as int,
                    other@.n == other.num as int,
                    other@.d == other.den as int,
            ;
        }
        let rn = self.num * other.den + other.num * self.den;
        let rd = self.den * other.den;
        let r = reduce128(rn, rd);
        proof {
            lemma_shrink_props(q_add(self@, other@), r@);
        }
        r
    }

    /// Exact difference, reduced.
    pub fn sub(&self, other: &Rat) -> (r: Rat)
        requires
            self.wf(),
            other.wf(),
            q_op_ok(self@),
            q_op_ok(other@),
        ensures
            r.wf(),
            q_shrinks_to(q_sub(self@, other@), r@),
            q_eq(r@, q_sub(self@, other@)),
            r@ == q_reduced(q_sub(self@, other@)),
            r@.d <= self@.d * other@.d,
    {
        proof {
            assert(-0x1000_0000_0000_0000_0000_0000_0000_0000
                <= (self.num as int) * (other.den as int)
                <= 0x1000_0000_0000_0000_0000_0000_0000_0000
                && -0x1000_0000_0000_0000_0000_0000_0000_0000
                <= (other.num as int) * (self.den as int)
                <= 0x1000_0000_0000_0000_0000_0000_0000_0000
                && 1 <= (self.den as int) * (other.den as int)
                <= 0x1000_0000_0000_0000_0000_0000_0000_0000) by (nonlinear_arith)
                requires
                    q_op_ok(self@),
                    q_op_ok(other@),
                    self@.n == self.num as int,
                    self@.d == self.den as int,
                    other@.n == other.num as int,
                    other@.d == other.den as int,
            ;
        }
        let rn = self.num * other.den - other.num * self.den;
        let rd = self.den * other.den;
        let r = reduce128(rn, rd);
        proof {
            lemma_shrink_props(q_sub(self@, other@), r@);
        }
        r
    }

    /// Exact product, reduced.
    pub fn mul(&self, other: &Rat) -> (r: Rat)
        requires
            self.wf(),
            other.wf(),
            q_op_ok(self@),
            q_op_ok(other@),
        ensures
            r.wf(),
            q_shrinks_to(q_mul(self@, other@), r@),
            q_eq(r@, q_mul(self@, other@)),
            r@ == q_reduced(q_mul(self@, other@)),
            r@.d <= self@.d * other@.d,
    {
        proof {
            assert(-0x1000_0000_0000_0000_0000_0000_0000_0000
                <= (self.num as int) * (other.num as int)
                <= 0x1000_0000_0000_0000_0000_0000_0000_0000
                && 1 <= (self.den as int) * (other.den as int)
                <= 0x1000_0000_0000_0000_0000_0000_0000_0000) by (nonlinear_arith)
                requires
                    q_op_ok(self@),
                    q_op_ok(other@),
                    self@.n == self.num as int,
                    self@.d == self.den as int,
                    other@.n == other.num as int,
                    other@.d == other.den as int,
            ;
        }
        let rn = self.num * other.num;
        let rd = self.den * other.den;
        let r = reduce128(rn, rd);
        proof {
            lemma_shrink_props(q_mul(self@, other@), r@);
        }
        r
    }

    /// Exact quotient, reduced; the divisor must be nonzero.
    pub fn div(&self, other: &Rat) -> (r: Rat)
        requires
            self.wf(),
            other.wf(),
            q_op_ok(self@),
            q_op_ok(other@),
            other@.n != 0,
        ensures
            r.wf(),
            q_shrinks_to(q_div(self@, other@), r@),
            q_eq(r@, q_div(self@, other@)),
            r@ == q_reduced(q_div(self@, other@)),
    {
        proof {
            assert(-0x1000_0000_0000_0000_0000_0000_0000_0000
                <= (self.num as int) * (other.den as int)
                <= 0x1000_0000_0000_0000_0000_0000_0000_0000
                && -0x1000_0000_0000_0000_0000_0000_0000_0000
                <= (self.den as int) * (other.num as int)
                <= 0x1000_0000_0000_0000_0000_0000_0000_0000) by (nonlinear_arith)
                requires
                    q_op_ok(self@),
                    q_op_ok(other@),
                    self@.n == self.num as int,
                    self@.d == self.den as int,
                    other@.n == other.num as int,
                    other@.d == other.den as int,
            ;
        }
        let rn: i128;
        let rd: i128;
        if other.num >= 0 {
            rn = self.num * other.den;
            rd = self.den * other.num;
            proof {
                assert(rd >= 1) by (nonlinear_arith)
                    requires
                        rd as int == (self.den as int) * (other.num as int),
                        self.den >= 1,
                        other.num >= 1,
                ;
            }
        } else {
            proof {
                assert(-0x1000_0000_0000_0000_0000_0000_0000_0000
                    <= (self.den as int) * (-(other.num as int))
                    <= 0x1000_0000_0000_0000_0000_0000_0000_0000) by (nonlinear_arith)
                    requires
                        q_op_ok(self@),
                        q_op_ok(other@),
                        self@.d == self.den as int,
                        other@.n == other.num as int,
                ;
            }
            rn = -(self.num * other.den);
            rd = self.den * -other.num;
            proof {
                assert(rd >= 1) by (nonlinear_arith)
                    requires
                        rd as int == (self.den as int) * (-(other.num as int)),
                        self.den >= 1,
                        other.num <= -1,
                ;
            }
        }
        let r = reduce128(rn, rd);
        proof {
            lemma_shrink_props(q_div(self@, other@), r@);
        }
        r
    }

    /// Exact negation.
    pub fn neg(&self) -> (r: Rat)
        requires
            self.wf(),
        ensures
            r.wf(),
            r@ == q_neg(self@),
    {
        Rat { num: -self.num, den: self.den }
    }

    /// `self <= other` as rational numbers.
    pub fn le(&self, other: &Rat) -> (r: bool)
        requires
            self.wf(),
            other.wf(),
            q_op_ok(self@),
            q_op_ok(other@),
        ensures
            r == q_le(self@, other@),
    {
        proof {
            assert(-0x1000_0000_0000_0000_0000_0000_0000_0000
                <= (self.num as int) * (other.den as int)
                <= 0x1000_0000_0000_0000_0000_0000_0000_0000
                && -0x1000_0000_0000_0000_0000_0000_0000_0000
                <= (other.num as int) * (self.den as int)
                <= 0x1000_0000_0000_0000_0000_0000_0000_0000) by (nonlinear_arith)
                requires
                    q_op_ok(self@),
                    q_op_ok(other@),
                    self@.n == self.num as int,
                    self@.d == self.den as int,
                    other@.n == other.num as int,
                    other@.d == other.den as int,
            ;
        }
        self.num * other.den <= other.num * self.den
    }

    /// `self < other` as rational numbers.
    pub fn lt(&self, other: &Rat) -> (r: bool)
        requires
            self.wf(),
            other.wf(),
            q_op_ok(self@),
            q_op_ok(other@),
        ensures
            r == q_lt(self@, other@),
    {
        proof {
            assert(-0x1000_0000_0000_0000_0000_0000_0000_0000
                <= (self.num as int) * (other.den as int)
                <= 0x1000_0000_0000_0000_0000_0000_0000_0000
                && -0x1000_0000_0000_0000_0000_0000_0000_0000
                <= (other.num as int) * (self.den as int)
                <= 0x1000_0000_0000_0000_0000_0000_0000_0000) by (nonlinear_arith)
                requires
                    q_op_ok(self@),
                    q_op_ok(other@),
                    self@.n == self.num as int,
                    self@.d == self.den as int,
                    other@.n == other.num as int,
                    other@.d == other.den as int,
            ;
        }
        self.num * other.den < other.num * self.den
    }

    /// Value equality (not representation equality).
    pub fn eq_value(&self, other: &Rat) -> (r: bool)
        requires
            self.wf(),
            other.wf(),
            q_op_ok(self@),
            q_op_ok(other@),
        ensures
            r == q_eq(self@, other@),
    {
        proof {
            assert(-0x1000_0000_0000_0000_0000_0000_0000_0000
                <= (self.num as int) * (other.den as int)
                <= 0x1000_0000_0000_0000_0000_0000_0000_0000
                && -0x1000_0000_0000_0000_0000_0000_0000_0000
                <= (other.num as int) * (self.den as int)
                <= 0x1000_0000_0000_0000_0000_0000_0000_0000) by (nonlinear_arith)
                requires
                    q_op_ok(self@),
                    q_op_ok(other@),
                    self@.n == self.num as int,
                    self@.d == self.den as int,
                    other@.n == other.num as int,
                    other@.d == other.den as int,
            ;
        }
        self.num * other.den == other.num * self.den
    }

    /// Whether the value is zero.
    pub fn is_zero(&self) -> (r: bool)
        requires
            self.wf(),
        ensures
            r == (self@.n == 0),
    {
        self.num == 0
    }

    /// Whether the value is negative.
    pub fn is_neg(&self) -> (r: bool)
        requires
            self.wf(),
        ensures
            r == (self@.n < 0),
    {
        self.num < 0
    }

    /// Largest integer at most `self`.
    pub fn floor(&self) -> (r: i128)
        requires
            self.wf(),
        ensures
            r == q_floor(self@),
            -0x2000_0000_0000_0000_0000_0000_0000_0001 <= r
                <= 0x2000_0000_0000_0000_0000_0000_0000_0000,
    {
        if self.num >= 0 {
            let t = self.num / self.den;
            proof {
                lemma_fundamental_div_mod(self.num as int, self.den as int);
                assert(0 <= t <= self.num) by (nonlinear_arith)
                    requires
                        self.num as int == (self.den as int) * (t as int) + (self.num as int) % (
                        self.den as int),
                        0 <= (self.num as int) % (self.den as int),
                        self.den >= 1,
                        self.num >= 0,
                        t as int == (self.num as int) / (self.den as int),
                ;
            }
            t
        } else {
            let mag = -self.num;
            let t = mag / self.den;
            let rem = mag % self.den;
            proof {
                lemma_fundamental_div_mod(mag as int, self.den as int);
                assert(0 <= t <= mag) by (nonlinear_arith)
                    requires
                        mag as int == (self.den as int) * (t as int) + rem as int,
                        0 <= rem,
                        self.den >= 1,
                        mag >= 0,
                        t as int == (mag as int) / (self.den as int),
                ;
                if rem == 0 {
                    assert(self.num as int == (-(t as int)) * (self.den as int) + 0)
                        by (nonlinear_arith)
                        requires
                            mag as int == (self.den as int) * (t as int) + rem as int,
                            rem == 0,
                            self.num as int == -(mag as int),
                    ;
                    vstd::arithmetic::div_mod::lemma_fundamental_div_mod_converse(
                        self.num as int,
                        self.den as int,
                        -(t as int),
                        0,
                    );
                } else {
                    assert(self.num as int == (-(t as int) - 1) * (self.den as int) + (
                    (self.den as int) - (rem as int))) by (nonlinear_arith)
                        requires
                            mag as int == (self.den as int) * (t as int) + rem as int,
                            self.num as int == -(mag as int),
                    ;
                    vstd::arithmetic::div_mod::lemma_fundamental_div_mod_converse(
                        self.num as int,
                        self.den as int,
                        -(t as int) - 1,
                        (self.den as int) - (rem as int),
                    );
                }
            }
            if rem == 0 {
                -t
            } else {
                -t - 1
            }
        }
    }

    /// Smallest integer at least `self`.
    pub fn ceil(&self) -> (r: i128)
        requires
            self.wf(),
        ensures
            r == q_ceil(self@),
            -0x2000_0000_0000_0000_0000_0000_0000_0000 <= r
                <= 0x2000_0000_0000_0000_0000_0000_0000_0001,
    {
        let n = self.neg();
        let f = n.floor();
        -f
    }
}

} // verus!
