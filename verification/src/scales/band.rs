//! The band scale: maps an ordered set of unique string categories onto
//! evenly spaced pixel bands inside a range, with fractional inner and
//! outer padding and an alignment factor.
//!
//! All derived quantities are exact rationals. For a deduplicated domain
//! of `n` categories, a range normalized to ascending `[start, stop]`,
//! inner padding `pi`, outer padding `po` and alignment `al`:
//!
//! * `count = n - pi + 2*po`, `denom = if count > 1 { count } else { 1 }`
//! * `step = (stop - start) / denom`
//! * `bandwidth = step * (1 - pi)`
//! * `start' = start + (stop - start - step*(n - pi)) * al`
//! * `offset[i] = start' + step * i`
//!
//! If the range was given in descending order it is stored ascending and
//! the offsets are mirrored, so the visual order of categories follows
//! the direction the caller asked for.

use vstd::prelude::*;
use crate::rational::{
    lemma_q_eq_trans, lemma_q_lt_congruence, lemma_q_sub_congruence, q_add, q_div, q_eq, q_int,
    q_lt, q_mul, q_neg, q_sub, q_wf, reduce128, Rat, Ratio,
};
use vstd::arithmetic::mul::{
    lemma_mul_is_associative, lemma_mul_is_commutative, lemma_mul_is_distributive_add,
    lemma_mul_is_distributive_add_other_way, lemma_mul_is_distributive_sub,
    lemma_mul_is_distributive_sub_other_way,
};
use crate::scales::{ScaleError, ScaleType};

verus! {

/// Map a sequence of strings to the sequence of their character views.
pub open spec fn strs(v: Seq<String>) -> Seq<Seq<char>> {
    v.map_values(|x: String| x@)
}

/// Deduplicate, keeping the first occurrence of each element.
pub open spec fn dedup_first(s: Seq<Seq<char>>) -> Seq<Seq<char>>
    decreases s.len(),
{
    if s.len() == 0 {
        Seq::empty()
    } else {
        let rest = dedup_first(s.drop_last());
        if rest.contains(s.last()) {
            rest
        } else {
            rest.push(s.last())
        }
    }
}

/// The deduplicated sequence holds exactly the elements of the original,
/// without repetition.
pub proof fn lemma_dedup_first_props(s: Seq<Seq<char>>)
    ensures
        forall|i: int, j: int|
            0 <= i < j < dedup_first(s).len() ==> dedup_first(s)[i] != dedup_first(s)[j],
        forall|c: Seq<char>| dedup_first(s).contains(c) <==> s.contains(c),
        dedup_first(s).len() <= s.len(),
    decreases s.len(),
{
    if s.len() == 0 {
    } else {
        let rest = dedup_first(s.drop_last());
        let ds = dedup_first(s);
        lemma_dedup_first_props(s.drop_last());
        assert forall|c: Seq<char>| ds.contains(c) implies s.contains(c) by {
            if rest.contains(c) {
                assert(dedup_first(s.drop_last()).contains(c));
                assert(s.drop_last().contains(c));
                let k = choose|k: int| 0 <= k < s.drop_last().len() && s.drop_last()[k] == c;
                assert(s[k] == c);
                assert(s.contains(c));
            } else {
                let k = choose|k: int| 0 <= k < ds.len() && ds[k] == c;
                assert(k == ds.len() - 1);
                assert(c == s.last());
                assert(s[s.len() - 1] == c);
                assert(s.contains(c));
            }
        }
        assert forall|c: Seq<char>| s.contains(c) implies ds.contains(c) by {
            let k = choose|k: int| 0 <= k < s.len() && s[k] == c;
            if k < s.len() - 1 {
                assert(s.drop_last()[k] == c);
                assert(s.drop_last().contains(c));
                assert(rest.contains(c));
                if rest.contains(s.last()) {
                    assert(ds == rest);
                } else {
                    let kk = choose|kk: int| 0 <= kk < rest.len() && rest[kk] == c;
                    assert(ds[kk] == c);
                }
            } else {
                assert(c == s.last());
                if rest.contains(c) {
                    let kk = choose|kk: int| 0 <= kk < rest.len() && rest[kk] == c;
                    if rest.contains(s.last()) {
                        assert(ds == rest);
                    } else {
                        assert(ds[kk] == c);
                    }
                } else {
                    assert(ds[ds.len() - 1] == c);
                }
            }
        }
    }
}

/// A valid padding or alignment ratio: a value in `[0, 1]` whose
/// denominator keeps all derived arithmetic inside the machine.
pub open spec fn pad_ok(q: Ratio) -> bool {
    &&& 1 <= q.d <= 0x10_0000
    &&& 0 <= q.n <= q.d
}

/// A pixel-range endpoint the scale accepts.
pub open spec fn range_ok(r: int) -> bool {
    -0x4000_0000 <= r <= 0x4000_0000
}

/// The largest number of categories a band scale accepts.
pub open spec fn domain_len_ok(n: int) -> bool {
    0 <= n <= 0x10_0000
}

/// Denominator of the step: `max(pq, n*pq - pi.n*po.d + 2*po.n*pi.d)`,
/// which is `p*q` times `max(1, n - pi + 2*po)`.
pub open spec fn band_m(n: int, pi: Ratio, po: Ratio) -> int {
    let pq = pi.d * po.d;
    let m0 = n * pq - pi.n * po.d + 2 * (po.n * pi.d);
    if m0 > pq {
        m0
    } else {
        pq
    }
}

/// `step = (stop - start) / max(1, n - pi + 2*po)`, as one fraction.
pub open spec fn band_step_q(n: int, start: int, stop: int, pi: Ratio, po: Ratio) -> Ratio {
    Ratio { n: (stop - start) * (pi.d * po.d), d: band_m(n, pi, po) }
}

/// `bandwidth = step * (1 - pi)`, as one fraction.
pub open spec fn band_bandwidth_q(n: int, start: int, stop: int, pi: Ratio, po: Ratio) -> Ratio {
    Ratio { n: (stop - start) * po.d * (pi.d - pi.n), d: band_m(n, pi, po) }
}

/// `offset[i] = start + (stop - start - step*(n - pi))*al + step*i`, as
/// one fraction over the common denominator `m * al.d`.
pub open spec fn band_offset_q(
    n: int,
    start: int,
    stop: int,
    pi: Ratio,
    po: Ratio,
    al: Ratio,
    i: int,
) -> Ratio {
    let pq = pi.d * po.d;
    let m = band_m(n, pi, po);
    let k = m - n * pq + pi.n * po.d;
    Ratio {
        n: m * al.d * start + (stop - start) * (al.n * k + pq * al.d * i),
        d: m * al.d,
    }
}

/// The center of band `i`: `offset[i] + bandwidth/2`, as one fraction.
/// Axis ticks for a band scale land here rather than at the band's edge.
pub open spec fn band_center_q(
    n: int,
    start: int,
    stop: int,
    pi: Ratio,
    po: Ratio,
    al: Ratio,
    i: int,
) -> Ratio {
    Ratio {
        n: 2 * band_offset_q(n, start, stop, pi, po, al, i).n + al.d * ((stop - start) * (po.d * (
        pi.d - pi.n))),
        d: 2 * (band_m(n, pi, po) * al.d),
    }
}

/// The band the `j`-th stored offset belongs to: the `j`-th band, or the
/// mirrored one when the range was given in descending order.
pub open spec fn mirror(n: int, mirrored: bool, j: int) -> int {
    if mirrored {
        n - 1 - j
    } else {
        j
    }
}

/// The scale for categorical data: an ordered, deduplicated list of
/// string categories mapped onto evenly spaced pixel bands.
pub struct ScaleBand {
    domain: Vec<String>,
    range: Vec<isize>,
    offsets: Vec<Rat>,
    centers: Vec<Rat>,
    step: Rat,
    bandwidth: Rat,
    padding_inner: Rat,
    padding_outer: Rat,
    align: Rat,
    mirrored: Ghost<bool>,
}

impl ScaleBand {
    /// The domain as a sequence of character sequences.
    pub closed spec fn dom(&self) -> Seq<Seq<char>> {
        strs(self.domain@)
    }

    /// The stored (ascending) range endpoints.
    pub closed spec fn rng(&self) -> (int, int) {
        (self.range[0] as int, self.range[1] as int)
    }

    pub closed spec fn pad_in(&self) -> Ratio {
        self.padding_inner@
    }

    pub closed spec fn pad_out(&self) -> Ratio {
        self.padding_outer@
    }

    pub closed spec fn algn(&self) -> Ratio {
        self.align@
    }

    /// The stored per-category offsets.
    pub closed spec fn offs(&self) -> Seq<Ratio> {
        self.offsets@.map_values(|r: Rat| r@)
    }

    pub closed spec fn step_val(&self) -> Ratio {
        self.step@
    }

    pub closed spec fn bw_val(&self) -> Ratio {
        self.bandwidth@
    }

    /// Whether the offsets are stored mirrored (the range was given
    /// descending when it was last set).
    pub closed spec fn is_mirrored(&self) -> bool {
        self.mirrored@
    }

    /// The stored per-category band centers.
    pub closed spec fn cents(&self) -> Seq<Ratio> {
        self.centers@.map_values(|r: Rat| r@)
    }

    /// The `j`-th offset of this scale by the closed formula.
    pub open spec fn offset_spec(&self, j: int) -> Ratio {
        band_offset_q(
            self.dom().len() as int,
            self.rng().0,
            self.rng().1,
            self.pad_in(),
            self.pad_out(),
            self.algn(),
            mirror(self.dom().len() as int, self.is_mirrored(), j),
        )
    }

    /// The `j`-th band center of this scale by the closed formula.
    pub open spec fn center_spec(&self, j: int) -> Ratio {
        band_center_q(
            self.dom().len() as int,
            self.rng().0,
            self.rng().1,
            self.pad_in(),
            self.pad_out(),
            self.algn(),
            mirror(self.dom().len() as int, self.is_mirrored(), j),
        )
    }

    /// Structural well-formedness plus the rescale relation: the stored
    /// step, bandwidth and offsets are exactly the ones the configuration
    /// dictates.
    pub closed spec fn wf(&self) -> bool {
        &&& domain_len_ok(self.dom().len() as int)
        &&& forall|i: int, j: int|
            0 <= i < j < self.dom().len() ==> self.dom()[i] != self.dom()[j]
        &&& self.range@.len() == 2
        &&& range_ok(self.rng().0) && range_ok(self.rng().1)
        &&& self.rng().0 <= self.rng().1
        &&& self.padding_inner.wf() && pad_ok(self.pad_in()) && self.pad_in().n < self.pad_in().d
        &&& self.padding_outer.wf() && pad_ok(self.pad_out()) && self.pad_out().n
            < self.pad_out().d
        &&& self.align.wf() && pad_ok(self.algn())
        &&& self.offsets@.len() == self.dom().len()
        &&& forall|j: int| 0 <= j < self.offsets@.len() ==> (#[trigger] self.offsets@[j]).wf()
        &&& forall|j: int|
            0 <= j < self.offs().len() ==> q_eq(#[trigger] self.offs()[j], self.offset_spec(j))
        &&& self.centers@.len() == self.dom().len()
        &&& forall|j: int| 0 <= j < self.centers@.len() ==> (#[trigger] self.centers@[j]).wf()
        &&& forall|j: int|
            0 <= j < self.cents().len() ==> q_eq(#[trigger] self.cents()[j], self.center_spec(j))
        &&& self.step.wf() && q_eq(
            self.step_val(),
            band_step_q(
                self.dom().len() as int,
                self.rng().0,
                self.rng().1,
                self.pad_in(),
                self.pad_out(),
            ),
        )
        &&& self.bandwidth.wf() && q_eq(
            self.bw_val(),
            band_bandwidth_q(
                self.dom().len() as int,
                self.rng().0,
                self.rng().1,
                self.pad_in(),
                self.pad_out(),
            ),
        )
    }

    /// Create a new band scale with default values: empty domain, range
    /// `[0, 1]`, inner and outer padding `1/10`, alignment `1/2`.
    pub fn new() -> (s: ScaleBand)
        ensures
            s.wf(),
            s.dom() == Seq::<Seq<char>>::empty(),
            s.rng() == (0int, 1int),
            s.pad_in() == (Ratio { n: 1, d: 10 }),
            s.pad_out() == (Ratio { n: 1, d: 10 }),
            s.algn() == (Ratio { n: 1, d: 2 }),
    {
        let pad = match Rat::new(1, 10) {
            Some(r) => r,
            None => Rat::from_int(0),
        };
        let half = match Rat::new(1, 2) {
            Some(r) => r,
            None => Rat::from_int(0),
        };
        let mut range: Vec<isize> = Vec::new();
        range.push(0);
        range.push(1);
        let mut s = ScaleBand {
            domain: Vec::new(),
            range,
            offsets: Vec::new(),
            centers: Vec::new(),
            step: Rat::from_int(1),
            bandwidth: Rat::from_int(1),
            padding_inner: pad,
            padding_outer: pad,
            align: half,
            mirrored: Ghost(false),
        };
        proof {
            assert(s.dom() =~= Seq::<Seq<char>>::empty());
        }
        s.rescale(false);
        s
    }

    /// Recompute step, bandwidth and offsets from the configuration.
    /// `reverse` says whether the offsets must be mirrored.
    fn rescale(&mut self, reverse: bool)
        requires
            domain_len_ok(old(self).dom().len() as int),
            forall|i: int, j: int|
                0 <= i < j < old(self).dom().len() ==> old(self).dom()[i] != old(self).dom()[j],
            old(self).range@.len() == 2,
            range_ok(old(self).rng().0) && range_ok(old(self).rng().1),
            old(self).rng().0 <= old(self).rng().1,
            old(self).padding_inner.wf() && pad_ok(old(self).pad_in()) && old(self).pad_in().n
                < old(self).pad_in().d,
            old(self).padding_outer.wf() && pad_ok(old(self).pad_out()) && old(self).pad_out().n
                < old(self).pad_out().d,
            old(self).align.wf() && pad_ok(old(self).algn()),
        ensures
            final(self).wf(),
            final(self).dom() == old(self).dom(),
            final(self).rng() == old(self).rng(),
            final(self).pad_in() == old(self).pad_in(),
            final(self).pad_out() == old(self).pad_out(),
            final(self).algn() == old(self).algn(),
            final(self).is_mirrored() == reverse,
    {
        let n = self.domain.len();
        let start: i128 = self.range[0] as i128;
        let stop: i128 = self.range[1] as i128;
        let a: i128 = self.padding_inner.numerator();
        let p: i128 = self.padding_inner.denominator();
        let b: i128 = self.padding_outer.numerator();
        let q: i128 = self.padding_outer.denominator();
        let c: i128 = self.align.numerator();
        let s: i128 = self.align.denominator();

        proof {
            assert((p * q) <= 0x100_0000_0000 && 0 <= a * q <= 0x100_0000_0000 && 0 <= b * p
                <= 0x100_0000_0000 && p * q >= 1) by (nonlinear_arith)
                requires
                    1 <= p <= 0x10_0000,
                    1 <= q <= 0x10_0000,
                    0 <= a <= p,
                    0 <= b <= q,
            ;
        }
        let pq: i128 = p * q;
        proof {
            assert(0 <= (n as int) * (pq as int) <= 0x1000_0000_0000_0000) by (nonlinear_arith)
                requires
                    1 <= pq <= 0x100_0000_0000,
                    0 <= (n as int) <= 0x10_0000,
            ;
        }
        let npq: i128 = (n as i128) * pq;
        let m0: i128 = npq - a * q + 2 * (b * p);
        let m: i128 = if m0 > pq {
            m0
        } else {
            pq
        };
        let dd: i128 = stop - start;
        proof {
            assert(1 <= m * s <= 0x2_0000_0000_0000_0000_0000) by (nonlinear_arith)
                requires
                    1 <= s <= 0x10_0000,
                    1 <= m <= 0x2000_0000_0000_0000,
            ;
        }
        let ms: i128 = m * s;
        let k: i128 = m - npq + a * q;
        proof {
            assert(-0x1_0000_0000_0000_0000_0000_0000_0000 <= ms * start
                <= 0x1_0000_0000_0000_0000_0000_0000_0000 && -0x4_0000_0000_0000_0000_0000
                <= c * k <= 0x4_0000_0000_0000_0000_0000 && 0 <= pq * s <= 0x1000_0000_0000_0000)
                by (nonlinear_arith)
                requires
                    1 <= s <= 0x10_0000,
                    0 <= c <= s,
                    1 <= ms <= 0x2_0000_0000_0000_0000_0000,
                    -0x4000_0000_0000_0000 <= k <= 0x4000_0000_0000_0000,
                    -0x4000_0000 <= start <= 0x4000_0000,
                    1 <= pq <= 0x100_0000_0000,
            ;
        }
        let ck: i128 = c * k;
        proof {
            assert(-0x2_0000_0000_0000_0000_0000_0000_0000 <= dd * ck
                <= 0x2_0000_0000_0000_0000_0000_0000_0000) by (nonlinear_arith)
                requires
                    0 <= dd <= 0x8000_0000,
                    -0x4_0000_0000_0000_0000_0000 <= ck <= 0x4_0000_0000_0000_0000_0000,
            ;
        }
        let base: i128 = ms * start + dd * ck;
        let pqs: i128 = pq * s;
        proof {
            assert(0 <= dd * pqs <= 0x1_0000_0000_0000_0000_0000_0000 && 0 <= dd * pq
                <= 0x100_0000_0000_0000_0000 && 0 <= q * (p - a) <= 0x100_0000_0000 && 0 <= dd * (q
                * (p - a)) <= 0x100_0000_0000_0000_0000) by (nonlinear_arith)
                requires
                    0 <= dd <= 0x8000_0000,
                    0 <= pqs <= 0x1000_0000_0000_0000,
                    1 <= pq <= 0x100_0000_0000,
                    1 <= q <= 0x10_0000,
                    0 <= a <= p,
                    p <= 0x10_0000,
            ;
        }
        let incr: i128 = dd * pqs;

        let ghost nn = n as int;
        let ghost cfg_pi = self.pad_in();
        let ghost cfg_po = self.pad_out();
        let ghost cfg_al = self.algn();
        proof {
            assert(band_m(nn, cfg_pi, cfg_po) == m as int);
            assert(band_step_q(nn, start as int, stop as int, cfg_pi, cfg_po) == (Ratio {
                n: (dd * pq) as int,
                d: m as int,
            }));
            assert(band_bandwidth_q(nn, start as int, stop as int, cfg_pi, cfg_po).n == (dd * (q * (
            p - a))) as int) by (nonlinear_arith)
                requires
                    dd == stop - start,
                    cfg_po.d == q as int,
                    cfg_pi.d == p as int,
                    cfg_pi.n == a as int,
                    band_bandwidth_q(nn, start as int, stop as int, cfg_pi, cfg_po).n == (stop
                        - start) * (q as int) * ((p as int) - (a as int)),
                    (dd * (q * (p - a))) as int == (dd as int) * ((q as int) * ((p as int) - (
                    a as int))),
            ;
        }

        let w: i128 = dd * (q * (p - a));
        proof {
            assert(0 <= s * w <= 0x1000_0000_0000_0000_0000_0000) by (nonlinear_arith)
                requires
                    0 <= w <= 0x100_0000_0000_0000_0000,
                    1 <= s <= 0x10_0000,
            ;
        }
        let sw: i128 = s * w;

        let mut offs: Vec<Rat> = Vec::new();
        let mut cents: Vec<Rat> = Vec::new();
        let mut j: usize = 0;
        while j < n
            invariant
                0 <= j <= n,
                n <= 0x10_0000,
                n == self.domain@.len(),
                offs@.len() == j,
                cents@.len() == j,
                0 <= incr <= 0x1_0000_0000_0000_0000_0000_0000,
                1 <= ms <= 0x2_0000_0000_0000_0000_0000,
                0 <= sw <= 0x1000_0000_0000_0000_0000_0000,
                -0x4_0000_0000_0000_0000_0000_0000_0000 <= base
                    <= 0x4_0000_0000_0000_0000_0000_0000_0000,
                forall|jj: int| 0 <= jj < j ==> (#[trigger] offs@[jj]).wf(),
                forall|jj: int|
                    0 <= jj < j ==> q_eq(
                        (#[trigger] offs@[jj])@,
                        Ratio {
                            n: base as int + incr as int * mirror(n as int, reverse, jj),
                            d: ms as int,
                        },
                    ),
                forall|jj: int| 0 <= jj < j ==> (#[trigger] cents@[jj]).wf(),
                forall|jj: int|
                    0 <= jj < j ==> q_eq(
                        (#[trigger] cents@[jj])@,
                        Ratio {
                            n: 2 * (base as int + incr as int * mirror(n as int, reverse, jj))
                                + sw as int,
                            d: 2 * ms as int,
                        },
                    ),
            decreases n - j,
        {
            let idx: usize = if reverse {
                n - 1 - j
            } else {
                j
            };
            proof {
                assert(0 <= incr as int * (idx as int)
                    <= 0x10_0000_0000_0000_0000_0000_0000_0000) by (nonlinear_arith)
                    requires
                        0 <= incr <= 0x1_0000_0000_0000_0000_0000_0000,
                        0 <= (idx as int) <= 0x10_0000,
                ;
            }
            let off_raw: i128 = base + incr * (idx as i128);
            let off = reduce128(off_raw, ms);
            let cent = reduce128(2 * off_raw + sw, 2 * ms);
            offs.push(off);
            cents.push(cent);
            j = j + 1;
        }
        self.offsets = offs;
        self.centers = cents;
        self.step = reduce128(dd * pq, m);
        self.bandwidth = reduce128(w, m);
        self.mirrored = Ghost(reverse);
        proof {
            let fs = *self;
            assert forall|jj: int| 0 <= jj < fs.offs().len() implies q_eq(
                #[trigger] fs.offs()[jj],
                fs.offset_spec(jj),
            ) by {
                let mi = mirror(nn, reverse, jj);
                let raw = Ratio { n: base as int + incr as int * mi, d: ms as int };
                assert(fs.offs()[jj] == self.offsets@[jj]@);
                assert(q_eq(fs.offs()[jj], raw));
                assert(base as int + incr as int * mi == (m as int) * (s as int) * (start as int) + (
                dd as int) * ((c as int) * (k as int) + (pqs as int) * mi)) by (nonlinear_arith)
                    requires
                        base as int == (ms as int) * (start as int) + (dd as int) * (ck as int),
                        ck as int == (c as int) * (k as int),
                        ms as int == (m as int) * (s as int),
                        incr as int == (dd as int) * (pqs as int),
                ;
                assert(raw == band_offset_q(nn, start as int, stop as int, cfg_pi, cfg_po, cfg_al,
                    mi));
                lemma_q_eq_trans(fs.offs()[jj], raw, fs.offset_spec(jj));
            }
            assert forall|jj: int| 0 <= jj < fs.cents().len() implies q_eq(
                #[trigger] fs.cents()[jj],
                fs.center_spec(jj),
            ) by {
                let mi = mirror(nn, reverse, jj);
                let raw = Ratio { n: base as int + incr as int * mi, d: ms as int };
                let craw = Ratio { n: 2 * raw.n + sw as int, d: 2 * ms as int };
                assert(fs.cents()[jj] == self.centers@[jj]@);
                assert(q_eq(fs.cents()[jj], craw));
                assert(base as int + incr as int * mi == (m as int) * (s as int) * (start as int) + (
                dd as int) * ((c as int) * (k as int) + (pqs as int) * mi)) by (nonlinear_arith)
                    requires
                        base as int == (ms as int) * (start as int) + (dd as int) * (ck as int),
                        ck as int == (c as int) * (k as int),
                        ms as int == (m as int) * (s as int),
                        incr as int == (dd as int) * (pqs as int),
                ;
                assert(raw == band_offset_q(nn, start as int, stop as int, cfg_pi, cfg_po, cfg_al,
                    mi));
                assert(craw == band_center_q(nn, start as int, stop as int, cfg_pi, cfg_po, cfg_al,
                    mi));
                lemma_q_eq_trans(fs.cents()[jj], craw, fs.center_spec(jj));
            }
        }
    }

    /// Set the inner padding ratio (fraction of a step left between bands).
    pub fn set_inner_padding(self, padding: Rat) -> (s: ScaleBand)
        requires
            self.wf(),
            padding.wf(),
            pad_ok(padding@),
            padding@.n < padding@.d,
        ensures
            s.wf(),
            s.pad_in() == padding@,
            s.dom() == self.dom(),
            s.rng() == self.rng(),
            s.pad_out() == self.pad_out(),
            s.algn() == self.algn(),
            !s.is_mirrored(),
    {
        let mut me = self;
        me.padding_inner = padding;
        me.rescale(false);
        me
    }

    /// Set the outer padding ratio (fraction of a step left before the
    /// first and after the last band).
    pub fn set_outer_padding(self, padding: Rat) -> (s: ScaleBand)
        requires
            self.wf(),
            padding.wf(),
            pad_ok(padding@),
            padding@.n < padding@.d,
        ensures
            s.wf(),
            s.pad_out() == padding@,
            s.dom() == self.dom(),
            s.rng() == self.rng(),
            s.pad_in() == self.pad_in(),
            s.algn() == self.algn(),
            !s.is_mirrored(),
    {
        let mut me = self;
        me.padding_outer = padding;
        me.rescale(false);
        me
    }

    /// Set the domain: duplicates are silently collapsed, keeping the
    /// first occurrence of each category.
    pub fn set_domain(self, domain: Vec<String>) -> (s: ScaleBand)
        requires
            self.wf(),
            domain@.len() <= 0x10_0000,
        ensures
            s.wf(),
            s.dom() == dedup_first(strs(domain@)),
            s.rng() == self.rng(),
            s.pad_in() == self.pad_in(),
            s.pad_out() == self.pad_out(),
            s.algn() == self.algn(),
            !s.is_mirrored(),
    {
        let ghost whole = strs(domain@);
        let mut unique: Vec<String> = Vec::new();
        let mut i: usize = 0;
        while i < domain.len()
            invariant
                0 <= i <= domain@.len(),
                whole == strs(domain@),
                whole.len() == domain@.len(),
                strs(unique@) == dedup_first(whole.take(i as int)),
                unique@.len() <= i,
            decreases domain@.len() - i,
        {
            let el = &domain[i];
            let ghost before = strs(unique@);
            let dup = vec_contains_str(&unique, el);
            if !dup {
                unique.push(el.clone());
            }
            proof {
                let pre = whole.take((i + 1) as int);
                assert(pre.drop_last() =~= whole.take(i as int));
                assert(pre.last() == el@);
                if dup {
                    assert(strs(unique@) == dedup_first(pre));
                } else {
                    assert(strs(unique@) =~= before.push(el@));
                    assert(strs(unique@) == dedup_first(pre));
                }
            }
            i += 1;
        }
        proof {
            assert(whole.take(domain@.len() as int) =~= whole);
            lemma_dedup_first_props(whole);
            assert(dedup_first(whole).len() <= whole.len());
        }
        let mut me = self;
        me.domain = unique;
        me.rescale(false);
        me
    }

    /// Get the domain of the scale.
    pub fn domain(&self) -> (r: &Vec<String>)
        ensures
            strs(r@) == self.dom(),
    {
        &self.domain
    }

    /// Set the range. A descending range is stored ascending and the
    /// offsets are mirrored.
    pub fn set_range(self, range: Vec<isize>) -> (s: ScaleBand)
        requires
            self.wf(),
            range@.len() == 2,
            range_ok(range@[0] as int),
            range_ok(range@[1] as int),
        ensures
            s.wf(),
            s.dom() == self.dom(),
            s.pad_in() == self.pad_in(),
            s.pad_out() == self.pad_out(),
            s.algn() == self.algn(),
            s.is_mirrored() == (range@[1] < range@[0]),
            s.rng() == (if range@[1] < range@[0] {
                (range@[1] as int, range@[0] as int)
            } else {
                (range@[0] as int, range@[1] as int)
            }),
    {
        let mut me = self;
        let r0 = range[0];
        let r1 = range[1];
        let reverse = r1 < r0;
        if reverse {
            let mut nr: Vec<isize> = Vec::new();
            nr.push(r1);
            nr.push(r0);
            me.range = nr;
        } else {
            me.range = range;
        }
        me.rescale(reverse);
        me
    }

    /// Get the (ascending) range of the scale.
    pub fn range(&self) -> (r: &Vec<isize>)
        requires
            self.wf(),
        ensures
            r@.len() == 2,
            r@[0] as int == self.rng().0,
            r@[1] as int == self.rng().1,
    {
        &self.range
    }

    /// The kind of this scale.
    pub fn get_type(&self) -> (t: ScaleType)
        ensures
            t == ScaleType::Band,
    {
        ScaleType::Band
    }

    /// The pixel offset of the given category's band, or an error when
    /// the category is not part of the domain.
    pub fn scale(&self, category: &String) -> (r: Result<Rat, ScaleError>)
        requires
            self.wf(),
        ensures
            r is Ok <==> self.dom().contains(category@),
            r matches Ok(off) ==> off.wf() && forall|i: int|
                0 <= i < self.dom().len() && self.dom()[i] == category@ ==> q_eq(
                    off@,
                    self.offset_spec(i),
                ),
            r matches Err(e) ==> e == ScaleError::UnknownCategory,
    {
        let n = self.domain.len();
        let mut i: usize = 0;
        while i < n
            invariant
                self.wf(),
                n == self.domain@.len(),
                0 <= i <= n,
                forall|k: int| 0 <= k < i ==> self.dom()[k] != category@,
            decreases n - i,
        {
            if self.domain[i] == *category {
                let off = self.offsets[i];
                proof {
                    assert(self.dom()[i as int] == category@);
                    assert(self.dom().contains(category@));
                    assert(q_eq(self.offs()[i as int], self.offset_spec(i as int)));
                    assert forall|ii: int|
                        0 <= ii < self.dom().len() && self.dom()[ii] == category@ implies q_eq(
                        off@,
                        self.offset_spec(ii),
                    ) by {
                        if ii < i as int {
                            assert(self.dom()[ii] != self.dom()[i as int]);
                        } else if ii > i as int {
                            assert(self.dom()[i as int] != self.dom()[ii]);
                        }
                    }
                }
                return Ok(off);
            }
            i += 1;
        }
        proof {
            if self.dom().contains(category@) {
                let k = choose|k: int|
                    0 <= k < self.dom().len() && self.dom()[k] == category@;
                assert(false);
            }
        }
        Err(ScaleError::UnknownCategory)
    }

    /// The pixel offset of the center of the given category's band
    /// (`offset + bandwidth/2`), where axis ticks are drawn.
    pub fn center(&self, category: &String) -> (r: Result<Rat, ScaleError>)
        requires
            self.wf(),
        ensures
            r is Ok <==> self.dom().contains(category@),
            r matches Ok(cv) ==> cv.wf() && forall|i: int|
                0 <= i < self.dom().len() && self.dom()[i] == category@ ==> q_eq(
                    cv@,
                    self.center_spec(i),
                ),
            r matches Err(e) ==> e == ScaleError::UnknownCategory,
    {
        let n = self.domain.len();
        let mut i: usize = 0;
        while i < n
            invariant
                self.wf(),
                n == self.domain@.len(),
                0 <= i <= n,
                forall|k: int| 0 <= k < i ==> self.dom()[k] != category@,
            decreases n - i,
        {
            if self.domain[i] == *category {
                let cv = self.centers[i];
                proof {
                    assert(self.dom()[i as int] == category@);
                    assert(self.dom().contains(category@));
                    assert(q_eq(self.cents()[i as int], self.center_spec(i as int)));
                    assert forall|ii: int|
                        0 <= ii < self.dom().len() && self.dom()[ii] == category@ implies q_eq(
                        cv@,
                        self.center_spec(ii),
                    ) by {
                        if ii < i as int {
                            assert(self.dom()[ii] != self.dom()[i as int]);
                        } else if ii > i as int {
                            assert(self.dom()[i as int] != self.dom()[ii]);
                        }
                    }
                }
                return Ok(cv);
            }
            i += 1;
        }
        proof {
            if self.dom().contains(category@) {
                let k = choose|k: int|
                    0 <= k < self.dom().len() && self.dom()[k] == category@;
                assert(false);
            }
        }
        Err(ScaleError::UnknownCategory)
    }

    /// The center of the band at a known domain index.
    pub fn center_at(&self, i: usize) -> (r: Rat)
        requires
            self.wf(),
            i < self.dom().len(),
        ensures
            r.wf(),
            q_eq(r@, self.center_spec(i as int)),
    {
        proof {
            assert(self.cents()[i as int] == self.centers@[i as int]@);
            assert(q_eq(self.cents()[i as int], self.center_spec(i as int)));
        }
        self.centers[i]
    }

    /// The width of one band. A band scale always has a bandwidth.
    pub fn bandwidth(&self) -> (r: Option<Rat>)
        requires
            self.wf(),
        ensures
            r matches Some(b) && b.wf() && q_eq(
                b@,
                band_bandwidth_q(
                    self.dom().len() as int,
                    self.rng().0,
                    self.rng().1,
                    self.pad_in(),
                    self.pad_out(),
                ),
            ),
    {
        Some(self.bandwidth)
    }

    /// The start of the stored range.
    pub fn range_start(&self) -> (r: isize)
        requires
            self.wf(),
        ensures
            r as int == self.rng().0,
    {
        self.range[0]
    }

    /// The end of the stored range.
    pub fn range_end(&self) -> (r: isize)
        requires
            self.wf(),
        ensures
            r as int == self.rng().1,
    {
        self.range[1]
    }

    /// Whether the stored range is descending. The band scale normalizes
    /// its range when it is set, so this reports on the stored order.
    pub fn is_range_reversed(&self) -> (r: bool)
        requires
            self.wf(),
        ensures
            r == (self.rng().0 > self.rng().1),
    {
        self.range[0] > self.range[1]
    }

    /// The ticks of a band scale: one per category, in domain order.
    pub fn get_ticks(&self) -> (r: Vec<String>)
        requires
            self.wf(),
        ensures
            strs(r@) == self.dom(),
            r@.len() == self.dom().len(),
    {
        let n = self.domain.len();
        let mut out: Vec<String> = Vec::new();
        let mut i: usize = 0;
        while i < n
            invariant
                0 <= i <= n,
                n == self.domain@.len(),
                out@.len() == i,
                forall|k: int| 0 <= k < i ==> (#[trigger] out@[k])@ == self.dom()[k],
            decreases n - i,
        {
            out.push(self.domain[i].clone());
            i += 1;
        }
        proof {
            assert(strs(out@) =~= self.dom());
        }
        out
    }
}

/// Whether a vector of strings holds the given string.
pub(crate) fn vec_contains_str(v: &Vec<String>, s: &String) -> (r: bool)
    ensures
        r == strs(v@).contains(s@),
{
    let n = v.len();
    let mut i: usize = 0;
    while i < n
        invariant
            0 <= i <= n,
            n == v@.len(),
            forall|k: int| 0 <= k < i ==> strs(v@)[k] != s@,
        decreases n - i,
    {
        if v[i] == *s {
            proof {
                assert(strs(v@)[i as int] == s@);
            }
            return true;
        }
        i += 1;
    }
    proof {
        if strs(v@).contains(s@) {
            let k = choose|k: int| 0 <= k < strs(v@).len() && strs(v@)[k] == s@;
            assert(false);
        }
    }
    false
}

/// The step's denominator is positive.
pub proof fn lemma_band_m_pos(n: int, pi: Ratio, po: Ratio)
    requires
        q_wf(pi),
        q_wf(po),
    ensures
        band_m(n, pi, po) >= 1,
{
    assert(pi.d * po.d >= 1) by (nonlinear_arith)
        requires
            pi.d >= 1,
            po.d >= 1,
    ;
}

/// Law: a well-formed band scale has one offset, one center and one tick
/// per category, and each equals its closed formula.
pub proof fn lemma_band_shape(s: &ScaleBand)
    requires
        s.wf(),
    ensures
        s.offs().len() == s.dom().len(),
        s.cents().len() == s.dom().len(),
        forall|j: int|
            0 <= j < s.offs().len() ==> q_eq(#[trigger] s.offs()[j], s.offset_spec(j)),
        forall|j: int|
            0 <= j < s.cents().len() ==> q_eq(#[trigger] s.cents()[j], s.center_spec(j)),
        forall|j: int| 0 <= j < s.offs().len() ==> q_wf(#[trigger] s.offs()[j]),
        q_wf(s.step_val()),
        q_wf(s.bw_val()),
        q_eq(
            s.step_val(),
            band_step_q(s.dom().len() as int, s.rng().0, s.rng().1, s.pad_in(), s.pad_out()),
        ),
        q_eq(
            s.bw_val(),
            band_bandwidth_q(s.dom().len() as int, s.rng().0, s.rng().1, s.pad_in(), s.pad_out()),
        ),
{
}

/// Law (constant step): consecutive offsets of a band scale differ by
/// exactly the step; on a mirrored (descending) range, by minus the step.
pub proof fn lemma_band_constant_step(s: &ScaleBand, j: int)
    requires
        s.wf(),
        0 <= j,
        j + 1 < s.offs().len(),
    ensures
        !s.is_mirrored() ==> q_eq(q_sub(s.offs()[j + 1], s.offs()[j]), s.step_val()),
        s.is_mirrored() ==> q_eq(q_sub(s.offs()[j + 1], s.offs()[j]), q_neg(s.step_val())),
{
    let n = s.dom().len() as int;
    let start = s.rng().0;
    let stop = s.rng().1;
    let pi = s.pad_in();
    let po = s.pad_out();
    let al = s.algn();
    let mm = band_m(n, pi, po);
    let pq = pi.d * po.d;
    let kk = mm - n * pq + pi.n * po.d;
    let dd = stop - start;
    lemma_band_m_pos(n, pi, po);
    let o1 = s.offs()[j];
    let o2 = s.offs()[j + 1];
    let c1 = s.offset_spec(j);
    let c2 = s.offset_spec(j + 1);
    let stp = band_step_q(n, start, stop, pi, po);
    let dcap = mm * al.d;
    assert(dcap >= 1) by (nonlinear_arith)
        requires
            mm >= 1,
            al.d >= 1,
            dcap == mm * al.d,
    ;
    assert(o2.d * o1.d >= 1) by (nonlinear_arith)
        requires
            o1.d >= 1,
            o2.d >= 1,
    ;
    lemma_q_sub_congruence(o2, o1, c2, c1);
    let i1 = mirror(n, s.is_mirrored(), j);
    let i2 = mirror(n, s.is_mirrored(), j + 1);
    let diff = q_sub(c2, c1);
    assert(diff.n == (c2.n - c1.n) * dcap && diff.d == dcap * dcap) by (nonlinear_arith)
        requires
            c1.d == dcap,
            c2.d == dcap,
            diff.n == c2.n * c1.d - c1.n * c2.d,
            diff.d == c2.d * c1.d,
    ;
    assert(dcap * dcap >= 1) by (nonlinear_arith)
        requires
            dcap >= 1,
    ;
    if !s.is_mirrored() {
        assert(i2 == i1 + 1);
        assert(c2.n - c1.n == dd * (pq * al.d)) by (nonlinear_arith)
            requires
                c1.n == mm * al.d * start + (stop - start) * (al.n * kk + pq * al.d * i1),
                c2.n == mm * al.d * start + (stop - start) * (al.n * kk + pq * al.d * i2),
                dd == stop - start,
                i2 == i1 + 1,
        ;
        assert(((dd * (pq * al.d)) * dcap) * mm == (dd * pq) * (dcap * dcap)) by (nonlinear_arith)
            requires
                dcap == mm * al.d,
        ;
        assert(q_eq(diff, stp));
        lemma_q_eq_trans(q_sub(o2, o1), diff, stp);
        lemma_q_eq_trans(q_sub(o2, o1), stp, s.step_val());
    } else {
        assert(i2 == i1 - 1);
        assert(c2.n - c1.n == -(dd * (pq * al.d))) by (nonlinear_arith)
            requires
                c1.n == mm * al.d * start + (stop - start) * (al.n * kk + pq * al.d * i1),
                c2.n == mm * al.d * start + (stop - start) * (al.n * kk + pq * al.d * i2),
                dd == stop - start,
                i2 == i1 - 1,
        ;
        assert(((-(dd * (pq * al.d))) * dcap) * mm == (-(dd * pq)) * (dcap * dcap))
            by (nonlinear_arith)
            requires
                dcap == mm * al.d,
        ;
        assert(q_eq(diff, q_neg(stp)));
        lemma_q_eq_trans(q_sub(o2, o1), diff, q_neg(stp));
        assert(q_eq(q_neg(stp), q_neg(s.step_val()))) by (nonlinear_arith)
            requires
                stp.n * s.step_val().d == s.step_val().n * stp.d,
        ;
        lemma_q_eq_trans(q_sub(o2, o1), q_neg(stp), q_neg(s.step_val()));
    }
}

/// Law: with a positive inner padding and a range of positive extent,
/// the bandwidth is strictly smaller than the step.
pub proof fn lemma_band_bandwidth_lt_step(s: &ScaleBand)
    requires
        s.wf(),
        s.rng().0 < s.rng().1,
        s.pad_in().n > 0,
    ensures
        q_lt(s.bw_val(), s.step_val()),
{
    let n = s.dom().len() as int;
    let start = s.rng().0;
    let stop = s.rng().1;
    let pi = s.pad_in();
    let po = s.pad_out();
    let mm = band_m(n, pi, po);
    lemma_band_m_pos(n, pi, po);
    let bwq = band_bandwidth_q(n, start, stop, pi, po);
    let stq = band_step_q(n, start, stop, pi, po);
    assert(q_lt(bwq, stq)) by (nonlinear_arith)
        requires
            bwq.n == (stop - start) * po.d * (pi.d - pi.n),
            stq.n == (stop - start) * (pi.d * po.d),
            bwq.d == mm,
            stq.d == mm,
            mm >= 1,
            stop - start >= 1,
            po.d >= 1,
            pi.d >= 1,
            0 < pi.n < pi.d,
    ;
    lemma_q_lt_congruence(s.bw_val(), s.step_val(), bwq, stq);
}

/// Law (idempotence): two band scales with identical configuration hold
/// value-equal offsets, centers, step and bandwidth. Rescaling is a pure
/// function of the configuration, so re-running it changes nothing.
pub proof fn lemma_band_rescale_idempotent(s1: &ScaleBand, s2: &ScaleBand)
    requires
        s1.wf(),
        s2.wf(),
        s1.dom() == s2.dom(),
        s1.rng() == s2.rng(),
        s1.pad_in() == s2.pad_in(),
        s1.pad_out() == s2.pad_out(),
        s1.algn() == s2.algn(),
        s1.is_mirrored() == s2.is_mirrored(),
    ensures
        s1.offs().len() == s2.offs().len(),
        forall|j: int|
            0 <= j < s1.offs().len() ==> q_eq(#[trigger] s1.offs()[j], s2.offs()[j]),
        q_eq(s1.step_val(), s2.step_val()),
        q_eq(s1.bw_val(), s2.bw_val()),
{
    let n = s1.dom().len() as int;
    lemma_band_m_pos(n, s1.pad_in(), s1.pad_out());
    assert(band_m(n, s1.pad_in(), s1.pad_out()) * s1.algn().d >= 1) by (nonlinear_arith)
        requires
            band_m(n, s1.pad_in(), s1.pad_out()) >= 1,
            s1.algn().d >= 1,
    ;
    assert forall|j: int| 0 <= j < s1.offs().len() implies q_eq(
        #[trigger] s1.offs()[j],
        s2.offs()[j],
    ) by {
        assert(s1.offset_spec(j) == s2.offset_spec(j));
        lemma_q_eq_trans(s1.offs()[j], s1.offset_spec(j), s2.offs()[j]);
    }
    lemma_q_eq_trans(
        s1.step_val(),
        band_step_q(n, s1.rng().0, s1.rng().1, s1.pad_in(), s1.pad_out()),
        s2.step_val(),
    );
    lemma_q_eq_trans(
        s1.bw_val(),
        band_bandwidth_q(n, s1.rng().0, s1.rng().1, s1.pad_in(), s1.pad_out()),
        s2.bw_val(),
    );
}


/// The count `n - pi + 2*po` and the guarded denominator
/// `max(1, count)`, composed from rational operations.
pub open spec fn band_count_formula(n: int, pi: Ratio, po: Ratio) -> Ratio {
    q_add(q_sub(q_int(n), pi), q_add(po, po))
}

pub open spec fn band_denom_formula(n: int, pi: Ratio, po: Ratio) -> Ratio {
    if q_lt(q_int(1), band_count_formula(n, pi, po)) {
        band_count_formula(n, pi, po)
    } else {
        q_int(1)
    }
}

/// Fidelity of the step: the single fraction `band_step_q` equals the
/// textbook formula `(stop - start) / max(1, n - pi + 2*po)`.
pub proof fn lemma_band_step_matches_formula(n: int, start: int, stop: int, pi: Ratio, po: Ratio)
    requires
        q_wf(pi),
        q_wf(po),
    ensures
        q_eq(
            band_step_q(n, start, stop, pi, po),
            q_div(q_sub(q_int(stop), q_int(start)), band_denom_formula(n, pi, po)),
        ),
{
    let pq = pi.d * po.d;
    let m0 = n * pq - pi.n * po.d + 2 * (po.n * pi.d);
    let count = band_count_formula(n, pi, po);
    assert(count.n == (n * pi.d - pi.n * 1) * (po.d * po.d) + (po.n * po.d + po.n * po.d) * (1
        * pi.d));
    assert(count.d == (1 * pi.d) * (po.d * po.d));
    // the count numerator is po.d times the single-fraction denominator
    lemma_mul_is_distributive_sub_other_way(po.d * po.d, n * pi.d, pi.n);
    lemma_mul_is_associative(n * pi.d, po.d, po.d);
    lemma_mul_is_associative(n, pi.d, po.d);
    lemma_mul_is_commutative(n * pq, po.d);
    lemma_mul_is_associative(pi.n, po.d, po.d);
    lemma_mul_is_commutative(pi.n * po.d, po.d);
    assert((n * pi.d - pi.n * 1) * (po.d * po.d) == po.d * (n * pq) - po.d * (pi.n * po.d));
    lemma_mul_is_distributive_add_other_way(pi.d, po.n * po.d, po.n * po.d);
    lemma_mul_is_associative(po.n, po.d, pi.d);
    lemma_mul_is_commutative(po.d, pi.d);
    lemma_mul_is_associative(po.n, pi.d, po.d);
    lemma_mul_is_commutative(po.n * pi.d, po.d);
    assert((po.n * po.d + po.n * po.d) * (1 * pi.d) == po.d * (po.n * pi.d) + po.d * (po.n
        * pi.d));
    lemma_mul_is_distributive_sub(po.d, n * pq, pi.n * po.d);
    assert(po.d * m0 == po.d * (n * pq) - po.d * (pi.n * po.d) + po.d * (2 * (po.n * pi.d))) by {
        lemma_mul_is_distributive_add(po.d, n * pq - pi.n * po.d, 2 * (po.n * pi.d));
        lemma_mul_is_distributive_sub(po.d, n * pq, pi.n * po.d);
    }
    assert(po.d * (2 * (po.n * pi.d)) == po.d * (po.n * pi.d) + po.d * (po.n * pi.d)) by {
        lemma_mul_is_distributive_add(po.d, po.n * pi.d, po.n * pi.d);
        assert(2 * (po.n * pi.d) == (po.n * pi.d) + (po.n * pi.d));
    }
    assert(count.n == po.d * m0);
    assert(count.d == po.d * pq) by {
        lemma_mul_is_commutative(pi.d, po.d * po.d);
        lemma_mul_is_associative(po.d, po.d, pi.d);
        lemma_mul_is_commutative(po.d, pi.d);
        lemma_mul_is_associative(po.d, pi.d, po.d);
    }
    assert((1 * count.d < count.n * 1) <==> m0 > pq) by (nonlinear_arith)
        requires
            count.n == po.d * m0,
            count.d == po.d * pq,
            po.d >= 1,
    ;
    let stepc = band_step_q(n, start, stop, pi, po);
    let diff = q_sub(q_int(stop), q_int(start));
    assert(diff == Ratio { n: stop * 1 - start * 1, d: (1int) * 1 });
    if m0 > pq {
        assert(q_lt(q_int(1), count));
        assert(count.n >= 1) by (nonlinear_arith)
            requires
                count.n == po.d * m0,
                count.d == po.d * pq,
                po.d >= 1,
                pi.d >= 1,
                m0 > pq,
                pq == pi.d * po.d,
        ;
        let dv = q_div(diff, count);
        assert(dv == Ratio { n: (stop * 1 - start * 1) * count.d, d: (1 * 1) * count.n });
        assert(stepc.n * dv.d == dv.n * stepc.d) by (nonlinear_arith)
            requires
                stepc.n == (stop - start) * pq,
                stepc.d == m0,
                dv.n == (stop * 1 - start * 1) * count.d,
                dv.d == (1 * 1) * count.n,
                count.n == po.d * m0,
                count.d == po.d * pq,
        ;
    } else {
        assert(!q_lt(q_int(1), count));
        let dv = q_div(diff, q_int(1));
        assert(dv == Ratio { n: (stop * 1 - start * 1) * 1, d: ((1int) * 1) * 1 });
        assert(stepc.n * dv.d == dv.n * stepc.d) by (nonlinear_arith)
            requires
                stepc.n == (stop - start) * pq,
                stepc.d == pq,
                dv.n == (stop * 1 - start * 1) * 1,
                dv.d == (1 * 1) * 1,
        ;
    }
}

/// Fidelity of the bandwidth: the single fraction `band_bandwidth_q`
/// equals `step * (1 - pi)`.
pub proof fn lemma_band_bandwidth_matches_formula(
    n: int,
    start: int,
    stop: int,
    pi: Ratio,
    po: Ratio,
)
    requires
        q_wf(pi),
        q_wf(po),
    ensures
        q_eq(
            band_bandwidth_q(n, start, stop, pi, po),
            q_mul(band_step_q(n, start, stop, pi, po), q_sub(q_int(1), pi)),
        ),
{
    let pq = pi.d * po.d;
    let m = band_m(n, pi, po);
    let bwc = band_bandwidth_q(n, start, stop, pi, po);
    let prod = q_mul(band_step_q(n, start, stop, pi, po), q_sub(q_int(1), pi));
    assert(prod == Ratio {
        n: ((stop - start) * pq) * (1 * pi.d - pi.n * 1),
        d: m * (1 * pi.d),
    });
    assert(bwc.n * prod.d == prod.n * bwc.d) by (nonlinear_arith)
        requires
            bwc.n == (stop - start) * po.d * (pi.d - pi.n),
            bwc.d == m,
            prod.n == ((stop - start) * pq) * (1 * pi.d - pi.n * 1),
            prod.d == m * (1 * pi.d),
            pq == pi.d * po.d,
    ;
}

} // verus!
