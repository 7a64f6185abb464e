//! Axis layout: from a scale and a side of the chart, the tick offsets
//! (band ticks land at band centers), the axis line, and the label
//! placement parameters.

use vstd::prelude::*;
use vstd::string::StrSliceExecFns;
use crate::components::axis::{AxisLine, AxisTick, TickLabel};
use crate::rational::{q_eq, Rat, Ratio};
use crate::scales::band::ScaleBand;
use crate::scales::linear::{
    lemma_linear_wf, lemma_nice_params_unique, linear_scale_q, linear_ticks_ok, nice_params,
    tick_step0, tick_step_q, tick_vals_ok, ticks_match, val_ok, val_ok_exec, ScaleLinear,
};
use crate::rational::{q_int, q_lt, q_mul};
use crate::scales::{AnyScale, ScaleError};

verus! {

/// The four sides of a chart an axis can sit on.
#[derive(Copy, Clone, Debug, PartialEq, Eq, Structural)]
pub enum AxisPosition {
    Top,
    Right,
    Bottom,
    Left,
}

/// The label offset of a tick: horizontal axes push labels further away
/// than vertical ones.
pub open spec fn label_offset_for(position: AxisPosition) -> int {
    if position == AxisPosition::Top || position == AxisPosition::Bottom {
        16
    } else {
        12
    }
}

/// The numeric labels of a tick list.
pub open spec fn tick_nums(s: Seq<AxisTick>) -> Seq<Ratio> {
    s.map_values(|t: AxisTick| t.label_view().num_val())
}

/// An axis along one dimension of the chart.
pub struct Axis {
    ticks: Vec<AxisTick>,
    axis_line: AxisLine,
    position: AxisPosition,
    label: String,
    label_rotation: i64,
    label_format: Option<String>,
    length: isize,
}

impl Axis {
    pub closed spec fn ticks_view(&self) -> Seq<AxisTick> {
        self.ticks@
    }

    pub closed spec fn position_val(&self) -> AxisPosition {
        self.position
    }

    pub closed spec fn label_val(&self) -> Seq<char> {
        self.label@
    }

    pub closed spec fn length_val(&self) -> int {
        self.length as int
    }

    pub closed spec fn line_view(&self) -> AxisLine {
        self.axis_line
    }

    /// Ticks of a band scale sit at band centers; ticks of a linear
    /// scale sit at the scaled positions of the nice tick values.
    pub open spec fn ticks_ok_for(&self, scale: AnyScale) -> bool {
        ticks_ok(self.ticks_view(), scale)
    }

    /// Common tick properties: every tick belongs to this axis's side and
    /// uses the side's label offset.
    pub open spec fn ticks_placed(&self) -> bool {
        ticks_placed_at(self.ticks_view(), self.position_val())
    }

    /// Create a new axis at the top of the chart.
    pub fn new_top_axis(scale: &AnyScale, view_width: isize, view_height: isize) -> (r: Result<
        Axis,
        ScaleError,
    >)
        requires
            scale_wf(*scale),
            0 <= view_width,
            0 <= view_height,
        ensures
            r matches Ok(a) ==> a.position_val() == AxisPosition::Top && a.ticks_ok_for(*scale)
                && a.ticks_placed() && a.length_val() == view_width as int && a.label_val()
                == Seq::<char>::empty(),
            r is Ok <==> axis_scale_ok(*scale),
    {
        Axis::new(scale, AxisPosition::Top, view_width, view_height)
    }

    /// Create a new axis to the right of the chart.
    pub fn new_right_axis(scale: &AnyScale, view_width: isize, view_height: isize) -> (r: Result<
        Axis,
        ScaleError,
    >)
        requires
            scale_wf(*scale),
            0 <= view_width,
            0 <= view_height,
        ensures
            r matches Ok(a) ==> a.position_val() == AxisPosition::Right && a.ticks_ok_for(*scale)
                && a.ticks_placed() && a.length_val() == view_height as int && a.label_val()
                == Seq::<char>::empty(),
            r is Ok <==> axis_scale_ok(*scale),
    {
        Axis::new(scale, AxisPosition::Right, view_width, view_height)
    }

    /// Create a new axis at the bottom of the chart.
    pub fn new_bottom_axis(scale: &AnyScale, view_width: isize, view_height: isize) -> (r: Result<
        Axis,
        ScaleError,
    >)
        requires
            scale_wf(*scale),
            0 <= view_width,
            0 <= view_height,
        ensures
            r matches Ok(a) ==> a.position_val() == AxisPosition::Bottom && a.ticks_ok_for(*scale)
                && a.ticks_placed() && a.length_val() == view_width as int && a.label_val()
                == Seq::<char>::empty(),
            r is Ok <==> axis_scale_ok(*scale),
    {
        Axis::new(scale, AxisPosition::Bottom, view_width, view_height)
    }

    /// Create a new axis to the left of the chart.
    pub fn new_left_axis(scale: &AnyScale, view_width: isize, view_height: isize) -> (r: Result<
        Axis,
        ScaleError,
    >)
        requires
            scale_wf(*scale),
            0 <= view_width,
            0 <= view_height,
        ensures
            r matches Ok(a) ==> a.position_val() == AxisPosition::Left && a.ticks_ok_for(*scale)
                && a.ticks_placed() && a.length_val() == view_height as int && a.label_val()
                == Seq::<char>::empty(),
            r is Ok <==> axis_scale_ok(*scale),
    {
        Axis::new(scale, AxisPosition::Left, view_width, view_height)
    }

    fn new(scale: &AnyScale, position: AxisPosition, view_width: isize, view_height: isize) -> (r:
        Result<Axis, ScaleError>)
        requires
            scale_wf(*scale),
            0 <= view_width,
            0 <= view_height,
        ensures
            r matches Ok(a) ==> a.position_val() == position && a.ticks_ok_for(*scale)
                && a.ticks_placed() && a.label_val() == Seq::<char>::empty() && a.length_val() == (
            if position == AxisPosition::Top || position == AxisPosition::Bottom {
                view_width as int
            } else {
                view_height as int
            }),
            r is Ok <==> axis_scale_ok(*scale),
    {
        let ticks = match Axis::generate_ticks(scale, position) {
            Ok(t) => t,
            Err(e) => {
                return Err(e);
            },
        };
        let length: isize = if matches!(position, AxisPosition::Top | AxisPosition::Bottom) {
            view_width
        } else {
            view_height
        };
        let zero = Rat::from_int(0);
        let axis_line: AxisLine = match position {
            AxisPosition::Top => AxisLine::new(zero, zero, Rat::from_int(view_width as i64), zero),
            AxisPosition::Bottom => AxisLine::new(
                zero,
                zero,
                Rat::from_int(view_width as i64),
                zero,
            ),
            AxisPosition::Left => AxisLine::new(zero, zero, zero, Rat::from_int(
                view_height as i64,
            )),
            AxisPosition::Right => AxisLine::new(zero, zero, zero, Rat::from_int(
                view_height as i64,
            )),
        };
        Ok(
            Axis {
                ticks,
                axis_line,
                position,
                label: String::new(),
                label_rotation: 0,
                label_format: None,
                length,
            },
        )
    }

    /// Generate the ticks for the given scale and axis side: one tick per
    /// category at the band's center for a band scale, one tick per nice
    /// tick value at its scaled position for a linear scale.
    #[verifier::loop_isolation(false)]
    fn generate_ticks(scale: &AnyScale, position: AxisPosition) -> (r: Result<
        Vec<AxisTick>,
        ScaleError,
    >)
        requires
            scale_wf(*scale),
        ensures
            r matches Ok(ticks) ==> ticks_ok(ticks@, *scale) && ticks_placed_at(ticks@, position),
            r is Ok <==> axis_scale_ok(*scale),
    {
        let label_offset: usize = if matches!(position, AxisPosition::Top | AxisPosition::Bottom) {
            16
        } else {
            12
        };
        let mut out: Vec<AxisTick> = Vec::new();
        match scale {
            AnyScale::Band(b) => {
                let cats = b.get_ticks();
                let n = cats.len();
                let mut i: usize = 0;
                while i < n
                    invariant
                        0 <= i <= n,
                        b.wf(),
                        n == cats@.len(),
                        crate::scales::band::strs(cats@) == b.dom(),
                        n == b.dom().len(),
                        out@.len() == i,
                        label_offset as int == label_offset_for(position),
                        forall|k: int|
                            0 <= k < i ==> q_eq(
                                (#[trigger] out@[k]).offset_val(),
                                b.center_spec(k),
                            ),
                        forall|k: int|
                            0 <= k < i ==> ((#[trigger] out@[k]).label_view()
                                matches TickLabel::Text(s) && s@ == b.dom()[k]),
                        forall|k: int|
                            0 <= k < i ==> (#[trigger] out@[k]).position_val() == position
                                && out@[k].label_offset_val() == label_offset_for(position),
                    decreases n - i,
                {
                    let c = b.center_at(i);
                    let tick = AxisTick::new(
                        c,
                        label_offset,
                        0,
                        TickLabel::Text(cats[i].clone()),
                        position,
                    );
                    out.push(tick);
                    i = i + 1;
                }
                Ok(out)
            },
            AnyScale::Linear(l) => {
                let vals = l.get_ticks();
                let n = vals.len();
                let mut i: usize = 0;
                while i < n
                    invariant
                        0 <= i <= n,
                        l.wf(),
                        l.dom().len() == 2,
                        n == vals@.len(),
                        forall|k: int| 0 <= k < n ==> (#[trigger] vals@[k]).wf(),
                        forall|k: int| 0 <= k < i ==> val_ok((#[trigger] vals@[k])@),
                        out@.len() == i,
                        label_offset as int == label_offset_for(position),
                        forall|k: int|
                            0 <= k < i ==> ((#[trigger] out@[k]).label_view()
                                matches TickLabel::Number(v) && v@ == vals@[k]@),
                        forall|k: int|
                            0 <= k < i ==> q_eq(
                                (#[trigger] out@[k]).offset_val(),
                                linear_scale_q(
                                    l.dom()[0],
                                    l.dom()[1],
                                    l.rng().0,
                                    l.rng().1,
                                    vals@[k]@,
                                ),
                            ),
                        forall|k: int|
                            0 <= k < i ==> (#[trigger] out@[k]).position_val() == position
                                && out@[k].label_offset_val() == label_offset_for(position),
                    decreases n - i,
                {
                    let v = vals[i];
                    if !val_ok_exec(&v) {
                        proof {
                            let d0 = l.dom()[0];
                            let d1 = l.dom()[1];
                            lemma_linear_wf(l);
                            if q_eq(d0, d1) {
                                assert(vals@[i as int]@ == d0);
                                assert(false);
                            } else if q_lt(d1, d0) {
                                assert(false);
                            } else {
                                assert(q_lt(d0, d1));
                                let outv = vals@.map_values(|r: Rat| r@);
                                let (t, snap) = choose|t: int, snap: int|
                                    #[trigger] nice_params(tick_step0(d0, d1), t, snap)
                                        && ticks_match(d0, d1, t, snap, outv);
                                let step = tick_step_q(t, snap);
                                let kmin = crate::rational::q_ceil(
                                    crate::rational::q_div(d0, step),
                                );
                                let kmax = crate::rational::q_floor(
                                    crate::rational::q_div(d1, step),
                                );
                                assert(outv[i as int] == q_mul(q_int(kmin + i), step));
                                assert(kmin <= kmin + i <= kmax);
                                assert(!val_ok(q_mul(q_int(kmin + i), step)));
                                assert(!tick_vals_ok(d0, d1, t, snap));
                                assert(!linear_ticks_ok(l));
                            }
                        }
                        return Err(ScaleError::ValueOutOfRange);
                    }
                    let off = l.scale(&v);
                    let tick = AxisTick::new(
                        off,
                        label_offset,
                        0,
                        TickLabel::Number(v),
                        position,
                    );
                    out.push(tick);
                    i = i + 1;
                }
                proof {
                    if q_lt_doms(l) {
                        assert(tick_nums(out@) =~= vals@.map_values(|r: Rat| r@));
                    }
                    let d0 = l.dom()[0];
                    let d1 = l.dom()[1];
                    lemma_linear_wf(l);
                    if q_lt(d0, d1) {
                        let outv = vals@.map_values(|r: Rat| r@);
                        let (t, snap) = choose|t: int, snap: int|
                            #[trigger] nice_params(tick_step0(d0, d1), t, snap) && ticks_match(
                                d0,
                                d1,
                                t,
                                snap,
                                outv,
                            );
                        let step0 = tick_step0(d0, d1);
                        assert(step0.d >= 1) by (nonlinear_arith)
                            requires
                                d0.d >= 1,
                                d1.d >= 1,
                                step0.d == (d1.d * d0.d) * 10,
                        ;
                        assert forall|t2: int, snap2: int|
                            #[trigger] nice_params(step0, t2, snap2) implies tick_vals_ok(
                            d0,
                            d1,
                            t2,
                            snap2,
                        ) by {
                            lemma_nice_params_unique(step0, t2, snap2, t, snap);
                            let step = tick_step_q(t, snap);
                            let kmin = crate::rational::q_ceil(crate::rational::q_div(d0, step));
                            let kmax = crate::rational::q_floor(crate::rational::q_div(d1, step));
                            assert forall|kk: int| kmin <= kk <= kmax implies val_ok(
                                #[trigger] q_mul(q_int(kk), step),
                            ) by {
                                let ii = kk - kmin;
                                assert(0 <= ii < outv.len());
                                assert(outv[ii] == q_mul(q_int(kmin + ii), step));
                                assert(val_ok(vals@[ii]@));
                            }
                        }
                        assert(linear_ticks_ok(l));
                    }
                    assert(axis_scale_ok(*scale));
                }
                Ok(out)
            },
        }
    }

    /// Set the axis label.
    pub fn set_axis_label(&mut self, label: String)
        ensures
            final(self).label_val() == label@,
            final(self).ticks_view() == old(self).ticks_view(),
            final(self).position_val() == old(self).position_val(),
            final(self).length_val() == old(self).length_val(),
            final(self).line_view() == old(self).line_view(),
    {
        self.label = label;
    }

    /// Set the rotation of every tick label on this axis.
    pub fn set_tick_label_rotation(&mut self, rotation: i64)
        ensures
            final(self).ticks_view().len() == old(self).ticks_view().len(),
            forall|i: int|
                0 <= i < final(self).ticks_view().len() ==> {
                    let t = #[trigger] final(self).ticks_view()[i];
                    let o = old(self).ticks_view()[i];
                    t.rotation_val() == rotation as int && t.offset_val() == o.offset_val()
                        && t.label_view() == o.label_view() && t.position_val() == o.position_val()
                        && t.label_offset_val() == o.label_offset_val() && t.format_view()
                        == o.format_view()
                },
            final(self).label_val() == old(self).label_val(),
            final(self).position_val() == old(self).position_val(),
            final(self).length_val() == old(self).length_val(),
            final(self).line_view() == old(self).line_view(),
    {
        self.label_rotation = rotation;
        let n = self.ticks.len();
        let mut i: usize = 0;
        while i < n
            invariant
                0 <= i <= n,
                n == self.ticks@.len(),
                self.position == old(self).position_val(),
                self.label@ == old(self).label_val(),
                self.length as int == old(self).length_val(),
                self.axis_line == old(self).line_view(),
                forall|k: int|
                    0 <= k < i ==> {
                        let t = #[trigger] self.ticks@[k];
                        let o = old(self).ticks_view()[k];
                        t.rotation_val() == rotation as int && t.offset_val() == o.offset_val()
                            && t.label_view() == o.label_view() && t.position_val()
                            == o.position_val() && t.label_offset_val() == o.label_offset_val()
                            && t.format_view() == o.format_view()
                    },
                forall|k: int|
                    i <= k < n ==> #[trigger] self.ticks@[k] == old(self).ticks_view()[k],
            decreases n - i,
        {
            let tick = &mut self.ticks[i];
            tick.set_label_rotation(rotation);
            i = i + 1;
        }
    }

    /// Set the numeric format pattern of every tick label on this axis.
    pub fn set_tick_label_format(&mut self, format: &str)
        ensures
            final(self).ticks_view().len() == old(self).ticks_view().len(),
            forall|i: int|
                0 <= i < final(self).ticks_view().len() ==> {
                    let t = #[trigger] final(self).ticks_view()[i];
                    let o = old(self).ticks_view()[i];
                    (t.format_view() matches Some(f) && f@ == format@) && t.offset_val()
                        == o.offset_val() && t.label_view() == o.label_view() && t.position_val()
                        == o.position_val() && t.label_offset_val() == o.label_offset_val()
                        && t.rotation_val() == o.rotation_val()
                },
            final(self).label_val() == old(self).label_val(),
            final(self).position_val() == old(self).position_val(),
            final(self).length_val() == old(self).length_val(),
            final(self).line_view() == old(self).line_view(),
    {
        let n = self.ticks.len();
        let mut i: usize = 0;
        while i < n
            invariant
                0 <= i <= n,
                n == self.ticks@.len(),
                self.position == old(self).position_val(),
                self.label@ == old(self).label_val(),
                self.length as int == old(self).length_val(),
                self.axis_line == old(self).line_view(),
                forall|k: int|
                    0 <= k < i ==> {
                        let t = #[trigger] self.ticks@[k];
                        let o = old(self).ticks_view()[k];
                        (t.format_view() matches Some(f) && f@ == format@) && t.offset_val()
                            == o.offset_val() && t.label_view() == o.label_view()
                            && t.position_val() == o.position_val() && t.label_offset_val()
                            == o.label_offset_val() && t.rotation_val() == o.rotation_val()
                    },
                forall|k: int|
                    i <= k < n ==> #[trigger] self.ticks@[k] == old(self).ticks_view()[k],
            decreases n - i,
        {
            let tick = &mut self.ticks[i];
            tick.set_label_format(format);
            i = i + 1;
        }
    }

    /// Whether the axis carries a label; legend placement reserves space
    /// for it.
    pub fn has_label(&self) -> (r: bool)
        ensures
            r == (self.label_val().len() > 0),
    {
        self.label.as_str().unicode_len() > 0
    }

    pub fn ticks(&self) -> (r: &Vec<AxisTick>)
        ensures
            r@ == self.ticks_view(),
    {
        &self.ticks
    }

    pub fn position(&self) -> (r: AxisPosition)
        ensures
            r == self.position_val(),
    {
        self.position
    }

    pub fn label(&self) -> (r: &String)
        ensures
            r@ == self.label_val(),
    {
        &self.label
    }

    pub fn length(&self) -> (r: isize)
        ensures
            r as int == self.length_val(),
    {
        self.length
    }

    pub fn axis_line(&self) -> (r: &AxisLine)
        ensures
            *r == self.line_view(),
    {
        &self.axis_line
    }
}

/// Whether deriving an axis from the scale succeeds: always, for a band
/// scale; for a linear scale, exactly when every generated tick value is
/// within the scale's exact range.
pub open spec fn axis_scale_ok(scale: AnyScale) -> bool {
    match scale {
        AnyScale::Band(_) => true,
        AnyScale::Linear(l) => crate::scales::linear::linear_ticks_ok(l),
    }
}

/// Well-formedness of either kind of scale; a linear scale must have its
/// domain set before an axis can be derived from it.
pub open spec fn scale_wf(scale: AnyScale) -> bool {
    match scale {
        AnyScale::Band(b) => b.wf(),
        AnyScale::Linear(l) => l.wf() && l.dom().len() == 2,
    }
}

/// Whether the linear scale's domain is ascending.
pub open spec fn q_lt_doms(l: &ScaleLinear) -> bool {
    crate::rational::q_lt(l.dom()[0], l.dom()[1])
}

/// The tick list that belongs to a scale: band ticks sit at band centers
/// and carry the category; linear ticks carry the nice tick values and
/// sit at their scaled positions.
pub open spec fn ticks_ok(ticks: Seq<AxisTick>, scale: AnyScale) -> bool {
    match scale {
        AnyScale::Band(b) => {
            &&& ticks.len() == b.dom().len()
            &&& forall|i: int|
                0 <= i < ticks.len() ==> q_eq(
                    (#[trigger] ticks[i]).offset_val(),
                    b.center_spec(i),
                )
            &&& forall|i: int|
                0 <= i < ticks.len() ==> ((#[trigger] ticks[i]).label_view()
                    matches TickLabel::Text(s) && s@ == b.dom()[i])
        },
        AnyScale::Linear(l) => {
            &&& forall|i: int|
                0 <= i < ticks.len() ==> (#[trigger] ticks[i]).label_view() is Number
            &&& forall|i: int|
                0 <= i < ticks.len() ==> q_eq(
                    (#[trigger] ticks[i]).offset_val(),
                    linear_scale_q(
                        l.dom()[0],
                        l.dom()[1],
                        l.rng().0,
                        l.rng().1,
                        ticks[i].label_view().num_val(),
                    ),
                )
            &&& (q_lt_doms(l) ==> exists|t: int, snap: int|
                #[trigger] nice_params(tick_step0(l.dom()[0], l.dom()[1]), t, snap)
                    && ticks_match(l.dom()[0], l.dom()[1], t, snap, tick_nums(ticks)))
        },
    }
}

/// Every tick sits on the given axis side with the side's label offset.
pub open spec fn ticks_placed_at(ticks: Seq<AxisTick>, position: AxisPosition) -> bool {
    forall|i: int|
        0 <= i < ticks.len() ==> (#[trigger] ticks[i]).position_val() == position
            && ticks[i].label_offset_val() == label_offset_for(position)
}

} // verus!
